//! What to record from, and when a recording has gone quiet.
//!
//! The models want 16 kHz mono, so we ask the device for that directly when it
//! can do it and resample afterwards when it can't.
use vstd::prelude::*;
use vstd::std_specs::cmp::PartialOrdSpec;

use crate::text::{contains, holds_at, joined, same};

verus! {

pub const TARGET_RATE: u32 = 16_000;

/// Tracks how long the microphone has been quiet, so a recording can end
/// itself. Silence before the first word does not count: otherwise a recording
/// started a moment early would stop before you spoke. `L` is what loudness is
/// measured in.
#[derive(Debug)]
pub struct SilenceTracker<L> {
    /// Per-channel frames of quiet since the last sound.
    pub silent_frames: usize,
    pub heard_speech: bool,
    pub threshold: L,
}

impl<L> SilenceTracker<L> {
    pub fn new(threshold: L) -> (tracker: Self)
        ensures
            tracker.silent_frames == 0,
            !tracker.heard_speech,
            tracker.threshold == threshold,
    {
        SilenceTracker { silent_frames: 0, heard_speech: false, threshold }
    }

    /// Whether this is what a tracker becomes once a stretch of sound has been
    /// heard, which was loud or was not.
    pub open spec fn follows(self, before: Self, loud: bool, frames: usize) -> bool {
        &&& self.threshold == before.threshold
        &&& self.heard_speech == (before.heard_speech || loud)
        &&& self.silent_frames == if loud {
            0
        } else if before.heard_speech {
            before.silent_frames + frames
        } else {
            before.silent_frames as int
        }
    }

    /// Take in a stretch of sound that was loud, or was not.
    pub fn hear(&mut self, loud: bool, frames: usize)
        requires
            !loud && old(self).heard_speech ==> old(self).silent_frames + frames <= usize::MAX,
        ensures
            final(self).follows(*old(self), loud, frames),
    {
        if loud {
            self.silent_frames = 0;
            self.heard_speech = true;
        } else if self.heard_speech {
            self.silent_frames += frames;
        }
    }
}

/// Whether a loudness reaches a threshold, where the two can be told apart.
pub open spec fn reaches<L: PartialOrd>(rms: L, threshold: L) -> bool {
    match rms.partial_cmp_spec(&threshold) {
        Some(core::cmp::Ordering::Greater) => true,
        Some(core::cmp::Ordering::Equal) => true,
        _ => false,
    }
}

impl<L: PartialOrd + Copy> SilenceTracker<L> {
    /// Take in a stretch of sound, given how loud it was.
    pub fn observe(&mut self, rms: L, frames: usize)
        requires
            old(self).heard_speech && !(L::obeys_partial_cmp_spec() && reaches(
                rms,
                old(self).threshold,
            )) ==> old(self).silent_frames + frames <= usize::MAX,
        ensures
            exists|loud: bool|
                (L::obeys_partial_cmp_spec() ==> loud == reaches(rms, old(self).threshold))
                    && #[trigger] final(self).follows(*old(self), loud, frames),
    {
        let loud: bool = rms >= self.threshold;
        self.hear(loud, frames);
    }
}

/// Whether the silence a tracker has counted is silence since a word.
pub open spec fn counts_since_a_word<L>(tracker: SilenceTracker<L>) -> bool {
    !tracker.heard_speech ==> tracker.silent_frames == 0
}

/// Silence is not counted until something has been said, so a recording cannot end
/// itself before anyone has spoken; and a word sets it back to nothing.
pub proof fn silence_is_counted_from_the_last_word<L>(
    before: SilenceTracker<L>,
    after: SilenceTracker<L>,
    loud: bool,
    frames: usize,
)
    requires
        counts_since_a_word(before),
        after.follows(before, loud, frames),
    ensures
        counts_since_a_word(after),
        !before.heard_speech ==> after.silent_frames == 0,
        loud ==> after.silent_frames == 0,
{
}

// --- devices -----------------------------------------------------------------

/// An input device a person might actually want to choose, with the id to
/// persist and a name to show.
#[derive(Debug, Clone)]
pub struct InputDevice {
    pub id: String,
    pub name: String,
}

/// An input device as the system advertises it, which may not say what it is.
#[derive(Debug, Clone)]
pub struct Advertised {
    pub id: Option<String>,
    pub name: Option<String>,
}

/// Whether an id is that of a real capture device.
pub open spec fn real_microphone(id: Seq<char>) -> bool {
    exists|at: int| holds_at(id, ":sysdefault:CARD="@, at)
}

/// A real capture device rather than one of ALSA's processing plugins.
pub fn is_real_microphone(id: &str) -> (yes: bool)
    ensures
        yes == real_microphone(id@),
{
    contains(id, ":sysdefault:CARD=")
}

/// A device as its contents: the id and the name.
pub open spec fn device_view(device: InputDevice) -> (Seq<char>, Seq<char>) {
    (device.id@, device.name@)
}

/// The contents of a list of devices.
pub open spec fn device_views(devices: Seq<InputDevice>) -> Seq<(Seq<char>, Seq<char>)> {
    devices.map_values(|device: InputDevice| device_view(device))
}

/// Whether a device of this name is already listed.
pub open spec fn listed_name(devices: Seq<(Seq<char>, Seq<char>)>, name: Seq<char>) -> bool {
    exists|i: int| 0 <= i < devices.len() && (#[trigger] devices[i]).1 == name
}

/// The devices worth offering: the real ones that say what they are, and the first
/// only of several that go by one name.
pub open spec fn worth_offering(advertised: Seq<Advertised>) -> Seq<(Seq<char>, Seq<char>)>
    decreases advertised.len(),
{
    if advertised.len() == 0 {
        Seq::empty()
    } else {
        let before = worth_offering(advertised.drop_last());
        match advertised.last() {
            Advertised { id: Some(id), name: Some(name) } => if real_microphone(id@)
                && !listed_name(before, name@) {
                before.push((id@, name@))
            } else {
                before
            },
            _ => before,
        }
    }
}

fn is_listed(devices: &[InputDevice], name: &str) -> (listed: bool)
    ensures
        listed == listed_name(device_views(devices@), name@),
{
    let count: usize = devices.len();
    let mut at: usize = 0;
    while at < count
        invariant
            count == devices@.len(),
            at <= count,
            forall|i: int| 0 <= i < at ==> (#[trigger] device_views(devices@)[i]).1 != name@,
        decreases count - at,
    {
        assert(device_views(devices@)[at as int] == device_view(devices@[at as int]));
        if same(devices[at].name.as_str(), name) {
            return true;
        }
        at += 1;
    }
    false
}

/// The microphones worth offering in a picker, out of those the system advertises,
/// if it does.
///
/// ALSA advertises dozens of entries, most of them plugins ("Rate Converter",
/// "Discard all samples") or lower-level duplicates of the same card. The
/// `sysdefault:CARD=` form is the one canonical entry per piece of hardware,
/// so that is what gets listed. Several ids can describe one microphone; one entry
/// each is plenty.
pub fn input_devices(advertised: Option<Vec<Advertised>>) -> (found: Vec<InputDevice>)
    ensures
        device_views(found@) == match advertised {
            Some(advertised) => worth_offering(advertised@),
            None => Seq::empty(),
        },
{
    let mut found: Vec<InputDevice> = Vec::new();
    assert(device_views(found@) =~= Seq::empty());
    let devices = match &advertised {
        Some(devices) => devices,
        None => {
            return found;
        },
    };
    let count: usize = devices.len();
    let mut at: usize = 0;
    assert(devices@.take(0) =~= Seq::empty());
    while at < count
        invariant
            advertised == Some(*devices),
            count == devices@.len(),
            at <= count,
            device_views(found@) == worth_offering(devices@.take(at as int)),
        decreases count - at,
    {
        let ghost before = device_views(found@);
        proof {
            assert(devices@.take(at + 1).drop_last() =~= devices@.take(at as int));
            assert(devices@.take(at + 1).last() == devices@[at as int]);
        }
        if let Some(id) = &devices[at].id {
            if let Some(name) = &devices[at].name {
                if is_real_microphone(id.as_str()) && !is_listed(found.as_slice(), name.as_str()) {
                    found.push(InputDevice { id: id.clone(), name: name.clone() });
                    assert(device_views(found@) =~= before.push((id@, name@)));
                }
            }
        }
        at += 1;
    }
    assert(devices@.take(count as int) =~= devices@);
    found
}

/// Every device offered is a real microphone, and no two go by one name.
pub proof fn each_microphone_is_offered_once(advertised: Seq<Advertised>)
    ensures
        forall|i: int|
            0 <= i < worth_offering(advertised).len() ==> real_microphone(
                (#[trigger] worth_offering(advertised)[i]).0,
            ),
        forall|i: int, j: int|
            0 <= i < j < worth_offering(advertised).len() ==> (#[trigger] worth_offering(
                advertised,
            )[i]).1 != (#[trigger] worth_offering(advertised)[j]).1,
    decreases advertised.len(),
{
    if advertised.len() > 0 {
        each_microphone_is_offered_once(advertised.drop_last());
        let before = worth_offering(advertised.drop_last());
        let all = worth_offering(advertised);
        assert forall|i: int| 0 <= i < all.len() implies real_microphone((#[trigger] all[i]).0) by {
            if i < before.len() {
                assert(all[i] == before[i]);
            }
        }
        assert forall|i: int, j: int| 0 <= i < j < all.len() implies (#[trigger] all[i]).1 != (
        #[trigger] all[j]).1 by {
            assert(all[i] == before[i]);
            if j < before.len() {
                assert(all[j] == before[j]);
            }
        }
    }
}

/// Every real microphone that says what it is, is offered, under its own name if
/// not under its own id.
pub proof fn no_microphone_is_left_out(advertised: Seq<Advertised>, at: int)
    requires
        0 <= at < advertised.len(),
        advertised[at].id is Some,
        advertised[at].name is Some,
        real_microphone(advertised[at].id->0@),
    ensures
        listed_name(worth_offering(advertised), advertised[at].name->0@),
    decreases advertised.len(),
{
    let name = advertised[at].name->0@;
    let before = worth_offering(advertised.drop_last());
    let all = worth_offering(advertised);
    if at < advertised.len() - 1 {
        no_microphone_is_left_out(advertised.drop_last(), at);
        let i = choose|i: int| 0 <= i < before.len() && (#[trigger] before[i]).1 == name;
        assert(all[i].1 == name);
    } else if !listed_name(before, name) {
        assert(all[all.len() - 1].1 == name);
    }
}

/// Which device a recording is made from.
#[derive(Debug, Clone, Copy, PartialEq, Eq, Structural)]
pub enum Source {
    Chosen,
    Default,
    /// The default, because the chosen one is not connected.
    DefaultInstead,
}

/// Which device to record from. `wanted` is a device id from [`input_devices`]; an
/// empty or unknown one falls back to the system default, since an unplugged
/// microphone should not stop yapper from recording at all.
pub fn source(wanted: &str, connected: bool, has_default: bool) -> (source: Result<
    Source,
    &'static str,
>)
    ensures
        match source {
            Ok(Source::Chosen) => wanted@.len() > 0 && connected,
            Ok(Source::Default) => wanted@.len() == 0 && has_default,
            Ok(Source::DefaultInstead) => wanted@.len() > 0 && !connected && has_default,
            Err(message) => (wanted@.len() == 0 || !connected) && !has_default && message@
                == "no input device available"@,
        },
{
    if !wanted.is_empty() && connected {
        Ok(Source::Chosen)
    } else if !has_default {
        Err("no input device available")
    } else if wanted.is_empty() {
        Ok(Source::Default)
    } else {
        Ok(Source::DefaultInstead)
    }
}

// --- formats -----------------------------------------------------------------

/// How a device writes its samples down.
#[derive(Debug, Clone, Copy, PartialEq, Eq, Structural)]
pub enum SampleFormat {
    F32,
    I16,
    I32,
    U16,
    I8,
    U8,
    Other,
}

/// How well a format suits us, the lower the better. `None` means we can't read
/// that format at all.
pub open spec fn rank_of(format: SampleFormat) -> Option<u32> {
    match format {
        SampleFormat::F32 => Some(0),
        SampleFormat::I16 => Some(1),
        SampleFormat::I32 => Some(2),
        SampleFormat::U16 => Some(3),
        SampleFormat::I8 => Some(4),
        SampleFormat::U8 => Some(5),
        SampleFormat::Other => None,
    }
}

/// Lower is better. `None` means we can't read that format at all.
pub fn format_rank(format: SampleFormat) -> (rank: Option<u32>)
    ensures
        rank == rank_of(format),
{
    match format {
        SampleFormat::F32 => Some(0),
        SampleFormat::I16 => Some(1),
        SampleFormat::I32 => Some(2),
        SampleFormat::U16 => Some(3),
        SampleFormat::I8 => Some(4),
        SampleFormat::U8 => Some(5),
        SampleFormat::Other => None,
    }
}

/// A way a device offers to record.
#[derive(Debug, Clone, Copy)]
pub struct Offer {
    pub format: SampleFormat,
    pub channels: u16,
    pub min_sample_rate: u32,
    pub max_sample_rate: u32,
}

impl Offer {
    /// Whether we can use it as it is: at 16 kHz, in a format we can read.
    pub open spec fn fits(self) -> bool {
        &&& rank_of(self.format) is Some
        &&& self.min_sample_rate <= TARGET_RATE <= self.max_sample_rate
    }

    /// How well it suits us, the lower the better. The sample format dominates;
    /// the channel count breaks ties.
    pub open spec fn score(self) -> int {
        rank_of(self.format)->0 * 100 + self.channels
    }
}

/// Whether this is the offer to take: none that fits scores lower, and none before
/// it as low.
pub open spec fn best(offers: Seq<Offer>, at: int) -> bool {
    &&& 0 <= at < offers.len()
    &&& offers[at].fits()
    &&& forall|i: int|
        0 <= i < offers.len() && (#[trigger] offers[i]).fits() ==> offers[at].score()
            <= offers[i].score()
    &&& forall|i: int|
        0 <= i < at && (#[trigger] offers[i]).fits() ==> offers[at].score() < offers[i].score()
}

/// Which offer to take, if any can be used as it is: 16 kHz so there is nothing to
/// resample, mono so there is nothing to downmix, and a sample format that
/// survives the trip to floating point without losing resolution.
pub fn pick_config(offers: &[Offer]) -> (picked: Option<usize>)
    ensures
        match picked {
            Some(at) => best(offers@, at as int),
            None => forall|i: int| 0 <= i < offers@.len() ==> !(#[trigger] offers@[i]).fits(),
        },
{
    let count: usize = offers.len();
    let mut picked: Option<usize> = None;
    let mut lowest: u32 = 0;
    let mut at: usize = 0;
    while at < count
        invariant
            count == offers@.len(),
            at <= count,
            match picked {
                Some(found) => {
                    &&& best(offers@.take(at as int), found as int)
                    &&& lowest == offers@[found as int].score()
                },
                None => forall|i: int| 0 <= i < at ==> !(#[trigger] offers@[i]).fits(),
            },
        decreases count - at,
    {
        let offer = offers[at];
        let ghost seen = offers@.take(at as int);
        let ghost next = offers@.take(at + 1);
        proof {
            assert(forall|i: int| 0 <= i < at ==> #[trigger] next[i] == seen[i]);
            assert(forall|i: int| 0 <= i < at ==> #[trigger] seen[i] == offers@[i]);
            assert(next[at as int] == offer);
        }
        if let Some(rank) = format_rank(offer.format) {
            if offer.min_sample_rate <= TARGET_RATE && offer.max_sample_rate >= TARGET_RATE {
                let score: u32 = rank * 100 + offer.channels as u32;
                let better = match picked {
                    Some(_) => score < lowest,
                    None => true,
                };
                if better {
                    picked = Some(at);
                    lowest = score;
                    assert(best(next, at as int));
                }
            }
        }
        at += 1;
    }
    assert(offers@.take(count as int) =~= offers@);
    picked
}

/// What to make of the way a device records by default, which is what is left when
/// nothing it offers fits. `shown` is how the format is written.
pub fn check_default(format: SampleFormat, shown: &str) -> (checked: Result<(), String>)
    ensures
        checked is Ok <==> rank_of(format) is Some,
        checked matches Err(err) ==> err@ == "input device only offers unsupported sample format "@
            + shown@,
{
    match format_rank(format) {
        Some(_) => Ok(()),
        None => Err(joined("input device only offers unsupported sample format ", shown)),
    }
}

/// A stretch of sound is counted as it is: a loud one is speech and sets the silence back
/// to nothing, and a quiet one after speech adds all of its frames to it.
pub proof fn silence_adds_up<L>(
    before: SilenceTracker<L>,
    after: SilenceTracker<L>,
    loud: bool,
    frames: usize,
)
    requires
        after.follows(before, loud, frames),
    ensures
        after.threshold == before.threshold,
        loud ==> after.heard_speech && after.silent_frames == 0,
        !loud ==> after.heard_speech == before.heard_speech,
        !loud && before.heard_speech ==> after.silent_frames == before.silent_frames + frames,
        !loud && !before.heard_speech ==> after.silent_frames == before.silent_frames,
{
}

/// Of two ways to record that both fit, the one whose samples lose less is taken, and of
/// two that lose as little, the one with fewer channels, as long as there are not a
/// hundred of them. What fits is what can be read, at sixteen thousand samples a second.
pub proof fn the_best_offer_loses_least(offers: Seq<Offer>, at: int, i: int)
    requires
        best(offers, at),
        0 <= i < offers.len(),
        rank_of(offers[i].format) is Some,
        offers[i].min_sample_rate <= 16_000 <= offers[i].max_sample_rate,
    ensures
        rank_of(offers[at].format) is Some,
        offers[at].min_sample_rate <= 16_000 <= offers[at].max_sample_rate,
        offers[at].channels < 100 && offers[i].channels < 100 ==> rank_of(offers[at].format)->0
            <= rank_of(offers[i].format)->0,
        100 * rank_of(offers[at].format)->0 + offers[at].channels <= 100 * rank_of(
            offers[i].format,
        )->0 + offers[i].channels,
        offers[at].format == offers[i].format ==> offers[at].channels <= offers[i].channels,
        offers[at].format == offers[i].format && offers[at].channels == offers[i].channels ==> at
            <= i,
{
    assert(offers[i].fits());
}

/// The formats, from the one that loses nothing to the one that loses most; any other
/// cannot be read.
pub proof fn the_formats_in_their_order(format: SampleFormat)
    ensures
        rank_of(format) is None <==> format is Other,
        rank_of(SampleFormat::F32)->0 < rank_of(SampleFormat::I16)->0,
        rank_of(SampleFormat::I16)->0 < rank_of(SampleFormat::I32)->0,
        rank_of(SampleFormat::I32)->0 < rank_of(SampleFormat::U16)->0,
        rank_of(SampleFormat::U16)->0 < rank_of(SampleFormat::I8)->0,
        rank_of(SampleFormat::I8)->0 < rank_of(SampleFormat::U8)->0,
{
}

/// A microphone is one whose id has the mark of a card's own default somewhere in it.
pub proof fn a_microphone_goes_by_its_card(before: Seq<char>, card: Seq<char>)
    ensures
        real_microphone(before + ":sysdefault:CARD="@ + card),
        forall|id: Seq<char>|
            #[trigger] real_microphone(id) ==> exists|at: int|
                0 <= at <= id.len() - ":sysdefault:CARD="@.len() && #[trigger] id.subrange(
                    at,
                    at + ":sysdefault:CARD="@.len(),
                ) == ":sysdefault:CARD="@,
{
    let mark = ":sysdefault:CARD="@;
    let id = before + mark + card;
    let at = before.len() as int;
    assert(id.subrange(at, at + mark.len()) =~= mark);
    assert(holds_at(id, mark, at));
    assert forall|id: Seq<char>| #[trigger] real_microphone(id) implies exists|at: int|
        0 <= at <= id.len() - mark.len() && #[trigger] id.subrange(at, at + mark.len()) == mark by {
        let at = choose|at: int| holds_at(id, mark, at);
        assert(id.subrange(at, at + mark.len()) =~= mark);
    }
}

/// A microphone that is offered goes by an id and a name that were advertised together,
/// and the first of several of one name is the one.
pub proof fn a_microphone_is_offered_as_it_was_advertised(advertised: Seq<Advertised>, k: int)
    requires
        0 <= k < worth_offering(advertised).len(),
    ensures
        exists|i: int|
            0 <= i < advertised.len() && is_offered_as(
                #[trigger] advertised[i],
                worth_offering(advertised)[k],
            ) && forall|j: int|
                0 <= j < i ==> !names_alike(#[trigger] advertised[j], worth_offering(advertised)[k].1),
    decreases advertised.len(),
{
    let shorter = advertised.drop_last();
    let before = worth_offering(shorter);
    let all = worth_offering(advertised);
    let device = all[k];
    if k < before.len() {
        a_microphone_is_offered_as_it_was_advertised(shorter, k);
        let i = choose|i: int|
            0 <= i < shorter.len() && is_offered_as(#[trigger] shorter[i], before[k]) && forall|
                j: int,
            |
                0 <= j < i ==> !names_alike(#[trigger] shorter[j], before[k].1);
        assert(is_offered_as(advertised[i], device));
        assert forall|j: int| 0 <= j < i implies !names_alike(#[trigger] advertised[j], device.1) by {
            assert(!names_alike(shorter[j], before[k].1));
        }
    } else {
        let i = advertised.len() - 1;
        assert(is_offered_as(advertised[i], device));
        assert forall|j: int| 0 <= j < i implies !names_alike(#[trigger] advertised[j], device.1) by {
            if names_alike(advertised[j], device.1) {
                assert(shorter[j] == advertised[j]);
                no_microphone_is_left_out(shorter, j);
            }
        }
    }
}

/// Whether a device is offered under the id and name it was advertised with.
pub open spec fn is_offered_as(advertised: Advertised, device: (Seq<char>, Seq<char>)) -> bool {
    &&& advertised.id is Some && advertised.id->0@ == device.0
    &&& advertised.name is Some && advertised.name->0@ == device.1
}

/// Whether this is a real microphone that goes by a name.
pub open spec fn names_alike(advertised: Advertised, name: Seq<char>) -> bool {
    &&& advertised.id is Some && real_microphone(advertised.id->0@)
    &&& advertised.name is Some && advertised.name->0@ == name
}

/// A level reaches a threshold that it is no lower than.
pub proof fn a_level_reaches_what_is_no_higher(level: u64, threshold: u64)
    ensures
        reaches(level, threshold) <==> level >= threshold,
{
}

/// A recording is made from the microphone that was chosen where it is connected, and
/// from the system's default otherwise; it is refused only where there is neither.
pub proof fn an_unplugged_microphone_stops_nothing(
    wanted: &str,
    connected: bool,
    has_default: bool,
    found: Result<Source, &'static str>,
)
    requires
        call_ensures(source, (wanted, connected, has_default), found),
    ensures
        found is Err <==> !has_default && !(wanted@.len() > 0 && connected),
        wanted@.len() > 0 && connected ==> found == Ok::<Source, &'static str>(Source::Chosen),
        has_default && wanted@.len() == 0 ==> found == Ok::<Source, &'static str>(Source::Default),
        has_default && wanted@.len() > 0 && !connected ==> found == Ok::<Source, &'static str>(
            Source::DefaultInstead,
        ),
{
}

} // verus!
