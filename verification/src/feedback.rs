//! What the dials show, and when it is sent.

use vstd::prelude::*;

use crate::percent;
use crate::percent::is_settled;
use crate::text::same;

verus! {

// ---------------------------------------------------------------------
// Frames
// ---------------------------------------------------------------------

/// A text or picture on a dial, and whether it is dimmed.
#[derive(Debug)]
pub struct FeedbackValue {
    pub value: String,
    pub dimmed: bool,
}

/// The bar on a dial, and whether it is dimmed.
#[derive(Debug)]
pub struct IndicatorFeedback {
    pub value: u8,
    pub dimmed: bool,
    pub bar_bg_c: &'static str,
    pub bar_fill_c: &'static str,
}

/// All that a dial shows.
#[derive(Debug)]
pub struct DialFeedback {
    pub icon: FeedbackValue,
    pub title: FeedbackValue,
    pub value: FeedbackValue,
    pub indicator: IndicatorFeedback,
}

/// A text or picture as it is shown, and whether it is dimmed.
pub struct Part {
    pub value: Seq<char>,
    pub dimmed: bool,
}

/// A bar as it is shown: the percentage that it fills, whether it is dimmed,
/// and the colors of its ground and its filling.
pub struct Bar {
    pub value: u8,
    pub dimmed: bool,
    pub ground: Seq<char>,
    pub filling: Seq<char>,
}

/// All that is seen of a dial.
pub struct Frame {
    pub icon: Part,
    pub title: Part,
    pub value: Part,
    pub indicator: Bar,
}

impl View for FeedbackValue {
    type V = Part;

    open spec fn view(&self) -> Part {
        Part { value: self.value@, dimmed: self.dimmed }
    }
}

impl View for IndicatorFeedback {
    type V = Bar;

    open spec fn view(&self) -> Bar {
        Bar {
            value: self.value,
            dimmed: self.dimmed,
            ground: self.bar_bg_c@,
            filling: self.bar_fill_c@,
        }
    }
}

impl View for DialFeedback {
    type V = Frame;

    open spec fn view(&self) -> Frame {
        Frame {
            icon: self.icon@,
            title: self.title@,
            value: self.value@,
            indicator: self.indicator@,
        }
    }
}

impl Clone for FeedbackValue {
    fn clone(&self) -> (res: Self)
        ensures
            res@ == self@,
    {
        FeedbackValue { value: self.value.clone(), dimmed: self.dimmed }
    }
}

impl Clone for DialFeedback {
    fn clone(&self) -> (res: Self)
        ensures
            res@ == self@,
    {
        DialFeedback {
            icon: self.icon.clone(),
            title: self.title.clone(),
            value: self.value.clone(),
            indicator: IndicatorFeedback {
                value: self.indicator.value,
                dimmed: self.indicator.dimmed,
                bar_bg_c: self.indicator.bar_bg_c,
                bar_fill_c: self.indicator.bar_fill_c,
            },
        }
    }
}

fn same_value(a: &FeedbackValue, b: &FeedbackValue) -> (res: bool)
    ensures
        res == (a@ == b@),
{
    a.dimmed == b.dimmed && same(a.value.as_str(), b.value.as_str())
}

/// Whether two dials look the same.
pub fn same_feedback(a: &DialFeedback, b: &DialFeedback) -> (res: bool)
    ensures
        res == (a@ == b@),
{
    same_value(&a.icon, &b.icon) && same_value(&a.title, &b.title) && same_value(
        &a.value,
        &b.value,
    ) && a.indicator.value == b.indicator.value && a.indicator.dimmed == b.indicator.dimmed && same(
        a.indicator.bar_bg_c,
        b.indicator.bar_bg_c,
    ) && same(a.indicator.bar_fill_c, b.indicator.bar_fill_c)
}

/// What is seen of a dial with this icon, title and value, and a white bar of
/// so many percent on a dark ground, all dimmed or none.
pub open spec fn frame_with(
    icon: Seq<char>,
    title: Seq<char>,
    text: Seq<char>,
    progress: u8,
    dimmed: bool,
) -> Frame {
    Frame {
        icon: Part { value: icon, dimmed },
        title: Part { value: title, dimmed },
        value: Part { value: text, dimmed },
        indicator: Bar { value: progress, dimmed, ground: "#303030"@, filling: "#ffffff"@ },
    }
}

/// What a dial shows: its icon, title and value, and a white bar of so many
/// percent on a dark ground, all dimmed or none.
pub fn build_feedback(icon: String, title: String, text: String, progress: u8, dimmed: bool) -> (res:
    DialFeedback)
    ensures
        res@ == frame_with(icon@, title@, text@, progress, dimmed),
{
    DialFeedback {
        icon: FeedbackValue { value: icon, dimmed },
        title: FeedbackValue { value: title, dimmed },
        value: FeedbackValue { value: text, dimmed },
        indicator: IndicatorFeedback {
            value: progress,
            dimmed,
            bar_bg_c: "#303030",
            bar_fill_c: "#ffffff",
        },
    }
}

/// Whether what is shown is dimmed: it is muted or not there.
pub fn is_dimmed(available: bool, muted: bool) -> (res: bool)
    ensures
        res == (!available || muted),
{
    !(available && !muted)
}

/// The title that a dial shows: the user's own, or else the automatic one.
pub open spec fn title_of(custom: Seq<char>, automatic: Seq<char>) -> Seq<char> {
    if custom.len() == 0 {
        automatic
    } else {
        custom
    }
}

/// The title that a dial shows.
pub fn choose_title<'a>(custom: &'a str, automatic: &'a str) -> (res: &'a str)
    ensures
        res@ == title_of(custom@, automatic@),
{
    if same(custom, "") {
        proof {
            reveal_strlit("");
        }
        automatic
    } else {
        proof {
            reveal_strlit("");
            assert(custom@.len() == 0 ==> custom@ =~= ""@);
        }
        custom
    }
}

// ---------------------------------------------------------------------
// Sending
// ---------------------------------------------------------------------

/// Counts the attempts to show something, so that one that was overtaken is
/// given up.
#[derive(Clone, Copy, Debug, PartialEq, Eq, Structural)]
pub struct RenderRuntime {
    pub generation: u64,
}

/// The number behind a number, and zero behind the last.
pub open spec fn following(number: u64) -> u64 {
    if number == u64::MAX {
        0
    } else {
        (number + 1) as u64
    }
}

/// The number so many places behind a number.
pub open spec fn following_by(number: u64, places: nat) -> u64
    decreases places,
{
    if places == 0 {
        number
    } else {
        following(following_by(number, (places - 1) as nat))
    }
}

/// A number comes again only after all others.
pub proof fn lemma_following_by(number: u64, places: nat)
    requires
        places <= u64::MAX,
    ensures
        following_by(number, places) == if number + places <= u64::MAX {
            number + places
        } else {
            number + places - u64::MAX - 1
        },
        places > 0 ==> following_by(number, places) != number,
    decreases places,
{
    reveal_with_fuel(following_by, 2);
    if places > 0 {
        lemma_following_by(number, (places - 1) as nat);
    }
}

impl Default for RenderRuntime {
    fn default() -> (res: Self)
        ensures
            res.generation == 0,
    {
        RenderRuntime { generation: 0 }
    }
}

impl RenderRuntime {
    /// Begins an attempt, and gives its number.
    pub fn begin(&mut self) -> (res: u64)
        ensures
            res == following(old(self).generation),
            final(self).generation == res,
    {
        self.generation = self.generation.wrapping_add(1);
        self.generation
    }

    /// Whether no later attempt has begun.
    pub fn is_current(&self, generation: u64) -> (res: bool)
        ensures
            res == (self.generation == generation),
    {
        self.generation == generation
    }
}

/// What to do next to show something.
#[derive(Clone, Copy, Debug, PartialEq, Eq, Structural)]
pub enum RenderStep {
    /// A later attempt has begun: give this one up.
    Stale,
    /// The dial does not have its layout yet.
    SetLayout,
    /// The dial shows this already.
    Unchanged,
    /// Send it.
    Send,
}

/// What is seen of a dial, where something was sent to it.
pub open spec fn seen_of(last: Option<DialFeedback>) -> Option<Frame> {
    match last {
        Some(feedback) => Some(feedback@),
        None => None,
    }
}

/// What to do next to show something.
pub open spec fn step_of(
    current: u64,
    generation: u64,
    layout_initialized: bool,
    last: Option<Frame>,
    frame: Frame,
) -> RenderStep {
    if current != generation {
        RenderStep::Stale
    } else if !layout_initialized {
        RenderStep::SetLayout
    } else if last == Some(frame) {
        RenderStep::Unchanged
    } else {
        RenderStep::Send
    }
}

/// What to do next to show a frame in the attempt of this number.
pub fn render_step(
    runtime: &RenderRuntime,
    generation: u64,
    layout_initialized: bool,
    last: &Option<DialFeedback>,
    frame: &DialFeedback,
) -> (res: RenderStep)
    ensures
        res == step_of(
            runtime.generation,
            generation,
            layout_initialized,
            seen_of(*last),
            frame@,
        ),
{
    let is_shown = match last {
        Some(last) => same_feedback(last, frame),
        None => false,
    };
    if !runtime.is_current(generation) {
        RenderStep::Stale
    } else if !layout_initialized {
        RenderStep::SetLayout
    } else if is_shown {
        RenderStep::Unchanged
    } else {
        RenderStep::Send
    }
}

/// Once later attempts have begun, as many as may be short of a whole round of
/// the numbers, an attempt is given up, whatever it was to show.
pub proof fn overtaken_attempt_is_stale(
    generation: u64,
    later: nat,
    layout_initialized: bool,
    last: Option<Frame>,
    frame: Frame,
)
    requires
        0 < later <= u64::MAX,
    ensures
        step_of(following_by(generation, later), generation, layout_initialized, last, frame)
            == RenderStep::Stale,
{
    lemma_following_by(generation, later);
}

/// What a dial shows already is not sent again, and what was overtaken is not
/// sent at all.
pub proof fn only_new_frames_are_sent(
    current: u64,
    generation: u64,
    layout_initialized: bool,
    last: Option<Frame>,
    frame: Frame,
)
    ensures
        step_of(current, generation, layout_initialized, last, frame) == RenderStep::Send ==> last
            != Some(frame) && current == generation && layout_initialized,
        step_of(current, current, true, Some(frame), frame) == RenderStep::Unchanged,
{
}

/// A frame that a dial does not show yet is sent in the latest attempt, once
/// the dial has its layout; a dial without its layout gets that first.
pub proof fn new_frames_are_sent(generation: u64, last: Option<Frame>, frame: Frame)
    ensures
        last != Some(frame) ==> step_of(generation, generation, true, last, frame)
            == RenderStep::Send,
        step_of(generation, generation, false, last, frame) == RenderStep::SetLayout,
{
}

/// A frame holds what it is made of, all of it dimmed or none, with a white
/// bar on a dark ground.
pub proof fn frames_hold_what_they_are_made_of(
    icon: Seq<char>,
    title: Seq<char>,
    text: Seq<char>,
    progress: u8,
    dimmed: bool,
    feedback: DialFeedback,
)
    requires
        feedback@ == frame_with(icon, title, text, progress, dimmed),
    ensures
        feedback.icon.value@ == icon && feedback.icon.dimmed == dimmed,
        feedback.title.value@ == title && feedback.title.dimmed == dimmed,
        feedback.value.value@ == text && feedback.value.dimmed == dimmed,
        feedback.indicator.value == progress && feedback.indicator.dimmed == dimmed,
        feedback.indicator.bar_bg_c@ == "#303030"@,
        feedback.indicator.bar_fill_c@ == "#ffffff"@,
{
}

/// Two dials look the same exactly where all that they show is the same.
pub proof fn different_feedback_looks_different(a: DialFeedback, b: DialFeedback)
    ensures
        a@ == b@ <==> {
            &&& a.icon.value@ == b.icon.value@
            &&& a.icon.dimmed == b.icon.dimmed
            &&& a.title.value@ == b.title.value@
            &&& a.title.dimmed == b.title.dimmed
            &&& a.value.value@ == b.value.value@
            &&& a.value.dimmed == b.value.dimmed
            &&& a.indicator.value == b.indicator.value
            &&& a.indicator.dimmed == b.indicator.dimmed
            &&& a.indicator.bar_bg_c@ == b.indicator.bar_bg_c@
            &&& a.indicator.bar_fill_c@ == b.indicator.bar_fill_c@
        },
{
}

/// The user's own title is shown wherever there is one, and the automatic one
/// only where there is none.
pub proof fn own_title_goes_first(custom: Seq<char>, automatic: Seq<char>)
    ensures
        custom.len() > 0 ==> title_of(custom, automatic) == custom,
        custom.len() == 0 ==> title_of(custom, automatic) == automatic,
{
}

// ---------------------------------------------------------------------
// Predictions
// ---------------------------------------------------------------------

/// How long a prediction is shown while the sound server has not confirmed
/// it, in nanoseconds.
pub const PREDICTION_TIME: u64 = 75_000_000;

/// A volume that was ordered at some time, for what was in focus then. The
/// volume is a bit pattern.
#[derive(Clone, Copy, Debug, PartialEq, Eq, Structural)]
pub struct VolumePrediction {
    pub percent_bits: u64,
    pub issued: u64,
    pub focus_generation: u64,
}

/// A mute state that was ordered at some time, for what was in focus then.
#[derive(Clone, Copy, Debug, PartialEq, Eq, Structural)]
pub struct MutePrediction {
    pub mute: bool,
    pub issued: u64,
    pub focus_generation: u64,
}

/// Whether so much time has passed that a prediction no longer counts.
pub open spec fn has_expired(issued: u64, now: u64) -> bool {
    now - issued >= PREDICTION_TIME
}

/// What is left of a predicted volume, and the volume to show. `difference`
/// is the pattern of the difference between the confirmed volume and the
/// predicted one.
pub open spec fn reconciled_volume(
    prediction: Option<VolumePrediction>,
    confirmed: u64,
    difference: u64,
    focus_generation: u64,
    now: u64,
) -> (Option<VolumePrediction>, u64) {
    match prediction {
        Some(predicted) => if predicted.focus_generation != focus_generation || percent::is_small(
            difference,
        ) || has_expired(predicted.issued, now) {
            (None, confirmed)
        } else {
            (prediction, predicted.percent_bits)
        },
        None => (None, confirmed),
    }
}

/// What is left of a predicted mute state, and the state to show.
pub open spec fn reconciled_mute(
    prediction: Option<MutePrediction>,
    confirmed: bool,
    focus_generation: u64,
    now: u64,
) -> (Option<MutePrediction>, bool) {
    match prediction {
        Some(predicted) => if predicted.focus_generation != focus_generation || predicted.mute
            == confirmed || has_expired(predicted.issued, now) {
            (None, confirmed)
        } else {
            (prediction, predicted.mute)
        },
        None => (None, confirmed),
    }
}

/// The volume to show. The prediction is dropped once it is confirmed, too
/// old, or made for something else than what is in focus.
pub fn reconcile_optimistic_volume(
    prediction: &mut Option<VolumePrediction>,
    confirmed: u64,
    difference: u64,
    focus_generation: u64,
    now: u64,
) -> (res: u64)
    ensures
        (*final(prediction), res) == reconciled_volume(
            *old(prediction),
            confirmed,
            difference,
            focus_generation,
            now,
        ),
{
    let predicted = match *prediction {
        Some(predicted) => predicted,
        None => return confirmed,
    };
    if predicted.focus_generation != focus_generation || is_settled(difference)
        || now.saturating_sub(predicted.issued) >= PREDICTION_TIME {
        *prediction = None;
        confirmed
    } else {
        predicted.percent_bits
    }
}

/// The mute state to show. The prediction is dropped once it is confirmed,
/// too old, or made for something else than what is in focus.
pub fn reconcile_optimistic_mute(
    prediction: &mut Option<MutePrediction>,
    confirmed: bool,
    focus_generation: u64,
    now: u64,
) -> (res: bool)
    ensures
        (*final(prediction), res) == reconciled_mute(
            *old(prediction),
            confirmed,
            focus_generation,
            now,
        ),
{
    let predicted = match *prediction {
        Some(predicted) => predicted,
        None => return confirmed,
    };
    if predicted.focus_generation != focus_generation || predicted.mute == confirmed
        || now.saturating_sub(predicted.issued) >= PREDICTION_TIME {
        *prediction = None;
        confirmed
    } else {
        predicted.mute
    }
}

/// Once the time for predictions has passed, what the sound server confirmed
/// is shown.
pub proof fn confirmed_state_is_shown_in_the_end(
    volume: Option<VolumePrediction>,
    confirmed_volume: u64,
    difference: u64,
    mute: Option<MutePrediction>,
    confirmed_mute: bool,
    focus_generation: u64,
    now: u64,
)
    requires
        volume matches Some(predicted) ==> has_expired(predicted.issued, now),
        mute matches Some(predicted) ==> has_expired(predicted.issued, now),
    ensures
        reconciled_volume(volume, confirmed_volume, difference, focus_generation, now) == (
            None::<VolumePrediction>,
            confirmed_volume,
        ),
        reconciled_mute(mute, confirmed_mute, focus_generation, now) == (
            None::<MutePrediction>,
            confirmed_mute,
        ),
{
}

/// A prediction made for something else than what is in focus is never shown.
pub proof fn prediction_stays_with_its_focus(
    predicted: VolumePrediction,
    confirmed: u64,
    difference: u64,
    focus_generation: u64,
    now: u64,
)
    requires
        predicted.focus_generation != focus_generation,
    ensures
        reconciled_volume(Some(predicted), confirmed, difference, focus_generation, now) == (
            None::<VolumePrediction>,
            confirmed,
        ),
{
}

/// What was ordered is shown at once and stays shown while it is not
/// confirmed, for less than 75 milliseconds; then what the server confirmed
/// is. What is shown is always one of the two, and a prediction that is given
/// up does not come back.
pub proof fn fresh_predictions_are_shown(
    volume: VolumePrediction,
    confirmed_volume: u64,
    difference: u64,
    mute: MutePrediction,
    confirmed_mute: bool,
    now: u64,
)
    ensures
        ({
            let (left, shown) = reconciled_volume(
                Some(volume),
                confirmed_volume,
                difference,
                volume.focus_generation,
                now,
            );
            &&& now - volume.issued < 75_000_000 && !percent::is_small(difference) ==> shown
                == volume.percent_bits && left == Some(volume)
            &&& now - volume.issued >= 75_000_000 || percent::is_small(difference) ==> shown
                == confirmed_volume && left is None
        }),
        ({
            let (left, shown) = reconciled_mute(
                Some(mute),
                confirmed_mute,
                mute.focus_generation,
                now,
            );
            &&& now - mute.issued < 75_000_000 ==> shown == mute.mute
            &&& now - mute.issued < 75_000_000 && mute.mute != confirmed_mute ==> left == Some(mute)
            &&& now - mute.issued >= 75_000_000 ==> shown == confirmed_mute && left is None
            &&& mute.mute == confirmed_mute ==> shown == confirmed_mute && left is None
        }),
        reconciled_volume(None, confirmed_volume, difference, 0, now) == (
            None::<VolumePrediction>,
            confirmed_volume,
        ),
        reconciled_mute(None, confirmed_mute, 0, now) == (None::<MutePrediction>, confirmed_mute),
{
}

/// A mute state predicted for something else than what is in focus is never
/// shown.
pub proof fn mute_prediction_stays_with_its_focus(
    predicted: MutePrediction,
    confirmed: bool,
    focus_generation: u64,
    now: u64,
)
    requires
        predicted.focus_generation != focus_generation,
    ensures
        reconciled_mute(Some(predicted), confirmed, focus_generation, now) == (
            None::<MutePrediction>,
            confirmed,
        ),
{
}

} // verus!
