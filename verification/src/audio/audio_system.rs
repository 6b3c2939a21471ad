//! Applications that play sound, and sound devices.

use vstd::prelude::*;

use crate::table::Table;
use crate::text;
use crate::text::{contains, copy_option};

verus! {

/// Whether a device plays sound or records it.
#[derive(Clone, Copy, Debug, PartialEq, Eq, Structural)]
pub enum DeviceKind {
    Output,
    Input,
}

impl Default for DeviceKind {
    fn default() -> (res: Self)
        ensures
            res == DeviceKind::Output,
    {
        DeviceKind::Output
    }
}

/// A sound device. `vol_percent_bits` is the bit pattern of its volume, a
/// 32-bit floating-point percentage.
#[derive(Debug)]
pub struct AudioDeviceInfo {
    pub stable_name: String,
    pub description: String,
    pub mute: bool,
    pub vol_percent_bits: u32,
    pub icon_name: Option<String>,
    pub kind: DeviceKind,
}

impl Clone for AudioDeviceInfo {
    fn clone(&self) -> (res: Self)
        ensures
            res == *self,
    {
        AudioDeviceInfo {
            stable_name: self.stable_name.clone(),
            description: self.description.clone(),
            mute: self.mute,
            vol_percent_bits: self.vol_percent_bits,
            icon_name: copy_option(&self.icon_name),
            kind: self.kind,
        }
    }
}

/// Whether a source records what a sink plays, by its name or description.
pub open spec fn is_monitor(name: Seq<char>, description: Seq<char>) -> bool {
    text::occurs(text::lowered(name), ".monitor"@) || text::occurs(
        text::lowered(description),
        "monitor of"@,
    )
}

/// Whether a source records what a sink plays, by its name or description.
pub fn is_monitor_source(name: &str, description: &str) -> (res: bool)
    ensures
        res == is_monitor(name@, description@),
{
    let name_chars = text::characters(text::lower_text(name).as_str());
    let description_chars = text::characters(text::lower_text(description).as_str());
    let in_name = text::characters(".monitor");
    let in_description = text::characters("monitor of");
    contains(name_chars.as_slice(), in_name.as_slice()) || contains(
        description_chars.as_slice(),
        in_description.as_slice(),
    )
}

/// An application that plays sound, or the device that all play on.
/// `vol_percent_bits` is the bit pattern of its volume, a 32-bit
/// floating-point percentage.
#[derive(Debug)]
pub struct AppInfo {
    pub uid: u32,
    pub app_name: String,
    pub sink_name: Option<String>,
    pub mute: bool,
    pub vol_percent_bits: u32,
    pub icon_name: Option<String>,
    pub is_device: bool,
    pub is_multi_sink_app: bool,
    pub metadata: Table<String, String>,
}

/// Whether two records of applications hold the same.
pub open spec fn same_app(a: AppInfo, b: AppInfo) -> bool {
    &&& a.uid == b.uid
    &&& a.app_name == b.app_name
    &&& a.sink_name == b.sink_name
    &&& a.mute == b.mute
    &&& a.vol_percent_bits == b.vol_percent_bits
    &&& a.icon_name == b.icon_name
    &&& a.is_device == b.is_device
    &&& a.is_multi_sink_app == b.is_multi_sink_app
    &&& a.metadata@ == b.metadata@
}

impl Clone for AppInfo {
    fn clone(&self) -> (res: Self)
        ensures
            same_app(res, *self),
    {
        AppInfo {
            uid: self.uid,
            app_name: self.app_name.clone(),
            sink_name: copy_option(&self.sink_name),
            mute: self.mute,
            vol_percent_bits: self.vol_percent_bits,
            icon_name: copy_option(&self.icon_name),
            is_device: self.is_device,
            is_multi_sink_app: self.is_multi_sink_app,
            metadata: self.metadata.clone(),
        }
    }
}

/// What the metadata says under a key.
pub open spec fn meta(app: AppInfo, key: Seq<char>) -> Option<Seq<char>> {
    if app.metadata@.contains_key(key) {
        Some(app.metadata@[key]@)
    } else {
        None
    }
}

/// What the metadata says under a key.
pub fn meta_value(app: &AppInfo, key: &str) -> (res: Option<String>)
    ensures
        text::text_of(res) == meta(*app, key@),
{
    match app.metadata.get(&key.to_owned()) {
        Some(value) => Some(value.clone()),
        None => None,
    }
}

} // verus!
