//! Rendered icons, kept by what they were made from.

use vstd::prelude::*;

use crate::table::Table;
use crate::text;
use crate::text::{join, to_decimal};

verus! {

/// Stands before every key, so that icons chosen by older rules are not found.
pub const ICON_CACHE_SCHEMA: &'static str = "steam-semantic-v3";

/// The icons that have been rendered, by key: a store for each cache that was
/// opened.
pub struct IconStores {
    stores: Vec<Table<String, String>>,
}

impl View for IconStores {
    type V = Seq<Map<Seq<char>, String>>;

    closed spec fn view(&self) -> Seq<Map<Seq<char>, String>> {
        self.stores@.map_values(|store: Table<String, String>| store@)
    }
}

impl Default for IconStores {
    fn default() -> (res: Self)
        ensures
            res@.len() == 0,
    {
        IconStores { stores: Vec::new() }
    }
}

impl IconStores {
    /// Opens a cache, with an empty store of its own.
    pub fn open(&mut self) -> (res: IconCache)
        ensures
            res.store() == old(self)@.len(),
            final(self)@ == old(self)@.push(Map::empty()),
    {
        let cache = IconCache { store: self.stores.len() };
        let empty: Table<String, String> = Table::new();
        self.stores.push(empty);
        assert(self@ =~= old(self)@.push(Map::empty()));
        cache
    }
}

/// A cache of rendered icons: a handle of one of the stores. A clone of it is
/// a handle of the same store.
#[derive(Debug)]
pub struct IconCache {
    store: usize,
}

impl Clone for IconCache {
    fn clone(&self) -> (res: Self)
        ensures
            res.store() == self.store(),
    {
        IconCache { store: self.store }
    }
}

/// The icon that a store keeps for a key.
pub open spec fn icon_for(
    stores: Seq<Map<Seq<char>, String>>,
    store: nat,
    key: Seq<char>,
) -> Option<String> {
    if store < stores.len() && stores[store as int].contains_key(key) {
        Some(stores[store as int][key])
    } else {
        None
    }
}

/// The stores once one of them keeps an icon for a key, in place of the one it
/// kept.
pub open spec fn with_icon(
    stores: Seq<Map<Seq<char>, String>>,
    store: nat,
    key: Seq<char>,
    value: String,
) -> Seq<Map<Seq<char>, String>> {
    if store < stores.len() {
        stores.update(store as int, stores[store as int].insert(key, value))
    } else {
        stores
    }
}

impl IconCache {
    /// The place of the store among the stores.
    pub closed spec fn store(&self) -> nat {
        self.store as nat
    }

    /// The icon of a key.
    pub fn get(&self, stores: &IconStores, key: &str) -> (res: Option<String>)
        ensures
            res == icon_for(stores@, self.store(), key@),
    {
        if self.store >= stores.stores.len() {
            return None;
        }
        match stores.stores[self.store].get(&key.to_owned()) {
            Some(icon) => Some(icon.clone()),
            None => None,
        }
    }

    /// Keeps the icon of a key, in place of the one it had.
    pub fn insert(&self, stores: &mut IconStores, key: String, value: String)
        ensures
            final(stores)@ == with_icon(old(stores)@, self.store(), key@, value),
    {
        if self.store < stores.stores.len() {
            stores.stores[self.store].insert(key, value);
        }
        assert(stores@ =~= with_icon(old(stores)@, self.store(), key@, value));
    }
}

/// After an icon was kept for a key through a cache, the cache and its clones
/// give it for that key, whatever they gave before. Every other key, and every
/// cache with another store, gives what it gave before.
pub proof fn clones_share_one_store(
    stores: Seq<Map<Seq<char>, String>>,
    cache: IconCache,
    clone: IconCache,
    unrelated: IconCache,
    key: Seq<char>,
    value: String,
    other: Seq<char>,
)
    requires
        cache.store() < stores.len(),
        clone.store() == cache.store(),
        unrelated.store() != cache.store(),
        other != key,
    ensures
        ({
            let after = with_icon(stores, cache.store(), key, value);
            &&& icon_for(after, cache.store(), key) == Some(value)
            &&& icon_for(after, clone.store(), key) == Some(value)
            &&& icon_for(after, clone.store(), other) == icon_for(stores, clone.store(), other)
            &&& icon_for(after, unrelated.store(), key) == icon_for(
                stores,
                unrelated.store(),
                key,
            )
        }),
{
}

/// What [`cache_key`] writes.
pub open spec fn key_text(
    identity: Seq<char>,
    theme: Seq<char>,
    icon: Seq<char>,
    size: u32,
    modified: u64,
) -> Seq<char> {
    ICON_CACHE_SCHEMA@ + ":"@ + identity + ":"@ + theme + ":"@ + icon + ":"@ + text::decimal(
        size as nat,
    ) + ":"@ + text::decimal(modified as nat)
}

/// The key of an icon: the application, the theme, the icon's name, the size
/// it was rendered at and the time its file was last changed.
pub fn cache_key(identity: &str, theme: &str, icon: &str, size: u32, modified: u64) -> (res: String)
    ensures
        res@ == key_text(identity@, theme@, icon@, size, modified),
{
    let mut key = join(ICON_CACHE_SCHEMA, ":");
    key = join(key.as_str(), identity);
    key = join(key.as_str(), ":");
    key = join(key.as_str(), theme);
    key = join(key.as_str(), ":");
    key = join(key.as_str(), icon);
    key = join(key.as_str(), ":");
    key = join(key.as_str(), to_decimal(size as u64).as_str());
    key = join(key.as_str(), ":");
    join(key.as_str(), to_decimal(modified).as_str())
}

proof fn lemma_middle_differs(before: Seq<char>, a: Seq<char>, b: Seq<char>, after: Seq<char>)
    requires
        before + a + after == before + b + after,
    ensures
        a == b,
{
    let left = before + a + after;
    let right = before + b + after;
    assert(left.len() == right.len());
    assert(left.subrange(before.len() as int, (before.len() + a.len()) as int) =~= a);
    assert(right.subrange(before.len() as int, (before.len() + b.len()) as int) =~= b);
}

/// Two keys that differ in the theme alone are different.
pub proof fn key_changes_with_theme(
    identity: Seq<char>,
    theme: Seq<char>,
    other: Seq<char>,
    icon: Seq<char>,
    size: u32,
    modified: u64,
)
    requires
        theme != other,
    ensures
        key_text(identity, theme, icon, size, modified) != key_text(
            identity,
            other,
            icon,
            size,
            modified,
        ),
{
    let before = ICON_CACHE_SCHEMA@ + ":"@ + identity + ":"@;
    let after = ":"@ + icon + ":"@ + text::decimal(size as nat) + ":"@ + text::decimal(
        modified as nat,
    );
    assert(key_text(identity, theme, icon, size, modified) =~= before + theme + after);
    assert(key_text(identity, other, icon, size, modified) =~= before + other + after);
    if before + theme + after == before + other + after {
        lemma_middle_differs(before, theme, other, after);
    }
}

/// Two keys that differ in the name of the icon alone are different.
pub proof fn key_changes_with_icon(
    identity: Seq<char>,
    theme: Seq<char>,
    icon: Seq<char>,
    other: Seq<char>,
    size: u32,
    modified: u64,
)
    requires
        icon != other,
    ensures
        key_text(identity, theme, icon, size, modified) != key_text(
            identity,
            theme,
            other,
            size,
            modified,
        ),
{
    let before = ICON_CACHE_SCHEMA@ + ":"@ + identity + ":"@ + theme + ":"@;
    let after = ":"@ + text::decimal(size as nat) + ":"@ + text::decimal(modified as nat);
    assert(key_text(identity, theme, icon, size, modified) =~= before + icon + after);
    assert(key_text(identity, theme, other, size, modified) =~= before + other + after);
    if before + icon + after == before + other + after {
        lemma_middle_differs(before, icon, other, after);
    }
}

/// Two keys that differ in the application alone are different.
pub proof fn key_changes_with_identity(
    identity: Seq<char>,
    other: Seq<char>,
    theme: Seq<char>,
    icon: Seq<char>,
    size: u32,
    modified: u64,
)
    requires
        identity != other,
    ensures
        key_text(identity, theme, icon, size, modified) != key_text(
            other,
            theme,
            icon,
            size,
            modified,
        ),
{
    let before = ICON_CACHE_SCHEMA@ + ":"@;
    let after = ":"@ + theme + ":"@ + icon + ":"@ + text::decimal(size as nat) + ":"@
        + text::decimal(modified as nat);
    assert(key_text(identity, theme, icon, size, modified) =~= before + identity + after);
    assert(key_text(other, theme, icon, size, modified) =~= before + other + after);
    if before + identity + after == before + other + after {
        lemma_middle_differs(before, identity, other, after);
    }
}

/// Two keys that differ in the size alone are different.
pub proof fn key_changes_with_size(
    identity: Seq<char>,
    theme: Seq<char>,
    icon: Seq<char>,
    size: u32,
    other: u32,
    modified: u64,
)
    requires
        size != other,
    ensures
        key_text(identity, theme, icon, size, modified) != key_text(
            identity,
            theme,
            icon,
            other,
            modified,
        ),
{
    let before = ICON_CACHE_SCHEMA@ + ":"@ + identity + ":"@ + theme + ":"@ + icon + ":"@;
    let after = ":"@ + text::decimal(modified as nat);
    let a = text::decimal(size as nat);
    let b = text::decimal(other as nat);
    assert(key_text(identity, theme, icon, size, modified) =~= before + a + after);
    assert(key_text(identity, theme, icon, other, modified) =~= before + b + after);
    text::lemma_number_of_decimal(size as nat);
    text::lemma_number_of_decimal(other as nat);
    if before + a + after == before + b + after {
        lemma_middle_differs(before, a, b, after);
    }
}

/// Two keys that differ in the time alone are different: a changed file is
/// rendered again.
pub proof fn key_changes_with_modified(
    identity: Seq<char>,
    theme: Seq<char>,
    icon: Seq<char>,
    size: u32,
    modified: u64,
    other: u64,
)
    requires
        modified != other,
    ensures
        key_text(identity, theme, icon, size, modified) != key_text(
            identity,
            theme,
            icon,
            size,
            other,
        ),
{
    let before = ICON_CACHE_SCHEMA@ + ":"@ + identity + ":"@ + theme + ":"@ + icon + ":"@
        + text::decimal(size as nat) + ":"@;
    let a = text::decimal(modified as nat);
    let b = text::decimal(other as nat);
    assert(key_text(identity, theme, icon, size, modified) =~= before + a + Seq::empty());
    assert(key_text(identity, theme, icon, size, other) =~= before + b + Seq::empty());
    text::lemma_number_of_decimal(modified as nat);
    text::lemma_number_of_decimal(other as nat);
    if before + a + Seq::empty() == before + b + Seq::empty() {
        lemma_middle_differs(before, a, b, Seq::empty());
    }
}

} // verus!
