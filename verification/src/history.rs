//! Past transcripts, kept on disk so they survive a restart.
//!
//! Stored as JSON Lines under the XDG state directory: that's where history files
//! belong, as opposed to the data directory where the model lives.
//! One object per line means a single corrupt entry costs you that entry rather
//! than the whole file.
use vstd::prelude::*;
use vstd::utf8::encode_utf8;

use crate::lines::{
    after_first_line, byte_lines, first_line, is_written, line_end_is, line_text, lines,
    text_is_read_as_text, written_byte_lines, written_lines, written_lines_unfold,
};
use crate::number::{push_decimal, push_two_digits, decimal, two_digits};
use crate::order::{
    descending, largest_first, of_key, place, place_is, sorting_is_stable,
    sorting_keeps_every_element, sorting_orders, sorting_the_reversed, strictly_descending,
};
use crate::path::{below, join};
use crate::text::{blank, contents, trim, trimmed};

verus! {

/// A single transcription. `D` is what a length of audio is measured in.
#[derive(Debug, Clone)]
pub struct Entry<D> {
    /// Unix microseconds when the recording was taken; also the identity used
    /// by the UI, since two recordings can't start in the same microsecond.
    pub id: i64,
    pub text: String,
    /// Seconds of audio that produced this text.
    pub duration_secs: D,
}

/// A quotient, rounded towards zero.
pub open spec fn towards_zero(n: int, d: int) -> int {
    if n >= 0 {
        n / d
    } else {
        -((-n) / d)
    }
}

impl<D> Entry<D> {
    /// Unix seconds, for display.
    pub fn recorded_at(&self) -> (seconds: i64)
        ensures
            seconds == towards_zero(self.id as int, 1_000_000),
    {
        self.id / 1_000_000
    }

    /// The first line, for the row title. Long transcripts are left intact: the
    /// row ellipsizes them rather than the data being truncated.
    pub fn summary(&self) -> (title: &str)
        ensures
            title@ == trimmed(first_line(self.text@)),
    {
        trim(crate::lines::line_one(self.text.as_str()))
    }
}

/// The order entries are kept in: by when they were taken.
pub open spec fn by_id<D>() -> spec_fn(Entry<D>) -> int {
    |entry: Entry<D>| entry.id as int
}

/// The newest entries, no more than there is room for.
pub open spec fn newest<D>(entries: Seq<Entry<D>>, limit: nat) -> Seq<Entry<D>> {
    at_most(largest_first(entries, by_id()), limit)
}

/// The first few of a sequence.
pub open spec fn at_most<T>(s: Seq<T>, limit: nat) -> Seq<T> {
    if s.len() <= limit {
        s
    } else {
        s.take(limit as int)
    }
}

/// What could be read of some lines.
pub open spec fn readable<D>(parsed: Seq<Option<Entry<D>>>) -> Seq<Entry<D>>
    decreases parsed.len(),
{
    if parsed.len() == 0 {
        Seq::empty()
    } else {
        match parsed.last() {
            Some(entry) => readable(parsed.drop_last()).push(entry),
            None => readable(parsed.drop_last()),
        }
    }
}

/// The entries other than the ones with this id.
pub open spec fn without<D>(entries: Seq<Entry<D>>, id: i64) -> Seq<Entry<D>> {
    entries.filter(|entry: Entry<D>| entry.id != id)
}

/// Whether any entry has this id.
pub open spec fn holds<D>(entries: Seq<Entry<D>>, id: i64) -> bool {
    exists|i: int| 0 <= i < entries.len() && (#[trigger] entries[i]).id == id
}

#[derive(Debug)]
pub struct History<D> {
    /// Newest first, which is the order the list shows them in.
    pub entries: Vec<Entry<D>>,
    pub limit: usize,
}

fn place_entry<D>(entries: &mut Vec<Entry<D>>, entry: Entry<D>)
    ensures
        final(entries)@ == old(entries)@.insert(
            place(old(entries)@, by_id(), entry.id as int),
            entry,
        ),
{
    let count: usize = entries.len();
    let mut at: usize = 0;
    while at < count && entries[at].id >= entry.id
        invariant
            count == entries@.len(),
            at <= count,
            forall|i: int| 0 <= i < at ==> (#[trigger] entries@[i]).id >= entry.id,
        decreases count - at,
    {
        at += 1;
    }
    proof {
        assert forall|i: int| 0 <= i < at implies by_id::<D>()(#[trigger] entries@[i])
            >= entry.id as int by {
            assert(entries@[i].id >= entry.id);
        }
        place_is(entries@, by_id(), entry.id as int, at as int);
    }
    entries.insert(at, entry);
}

impl<D> History<D> {
    /// Whether there are no more entries than there is room for, and the newest
    /// come first.
    pub open spec fn valid(self) -> bool {
        &&& self.entries@.len() <= self.limit
        &&& descending(self.entries@, by_id())
    }

    /// Take in what could be read of a history file, a `None` for each line that
    /// could not: whatever can be parsed is kept, so a crash mid-write can't lock
    /// you out of your own transcripts. A missing file has no lines.
    pub fn load(parsed: Vec<Option<Entry<D>>>, limit: usize) -> (history: Self)
        ensures
            history.valid(),
            history.limit == limit,
            history.entries@ == newest(readable(parsed@), limit as nat),
    {
        let ghost all = parsed@;
        let mut parsed = parsed;
        let mut backwards: Vec<Entry<D>> = Vec::new();
        let mut entries: Vec<Entry<D>> = Vec::new();
        // From the end, as that is where a list gives them up.
        while parsed.len() > 0
            invariant
                parsed@.len() <= all.len(),
                parsed@ == all.take(parsed@.len() as int),
                readable(all) == readable(parsed@) + backwards@.reverse(),
            decreases parsed@.len(),
        {
            let ghost before = parsed@;
            let ghost later = backwards@;
            let last = parsed.pop();
            proof {
                assert(parsed@ =~= before.drop_last());
                assert(parsed@ =~= all.take(parsed@.len() as int));
            }
            if let Some(Some(entry)) = last {
                backwards.push(entry);
                assert(backwards@.reverse() =~= seq![entry] + later.reverse());
                assert(readable(before) == readable(parsed@).push(entry));
                assert(readable(parsed@) + backwards@.reverse() =~= readable(before)
                    + later.reverse());
            }
        }
        assert(readable(all) =~= backwards@.reverse());
        let ghost found = readable(all);
        while backwards.len() > 0
            invariant
                found.len() >= backwards@.len(),
                backwards@.reverse() == found.skip(found.len() - backwards@.len()),
                entries@ == largest_first(found.take(found.len() - backwards@.len()), by_id()),
            decreases backwards@.len(),
        {
            let ghost at = found.len() - backwards@.len();
            let ghost waiting = backwards@;
            proof {
                assert(waiting.reverse()[0] == waiting.last());
                assert(found.skip(at)[0] == found[at]);
                assert(found.take(at + 1).drop_last() =~= found.take(at));
            }
            if let Some(entry) = backwards.pop() {
                place_entry(&mut entries, entry);
                assert(backwards@ =~= waiting.drop_last());
                assert(backwards@.reverse() =~= waiting.reverse().skip(1));
                assert(found.skip(at).skip(1) =~= found.skip(at + 1));
            }
        }
        assert(found.take(found.len() as int) =~= found);
        proof {
            sorting_orders(found, by_id());
        }
        let ghost sorted = entries@;
        entries.truncate(limit);
        assert(entries@ =~= at_most(sorted, limit as nat));
        History { entries, limit }
    }

    pub fn entries(&self) -> (entries: &[Entry<D>])
        ensures
            entries@ == self.entries@,
    {
        self.entries.as_slice()
    }

    /// The entries once a new one has been recorded.
    pub open spec fn with_added(self, entry: Entry<D>) -> Seq<Entry<D>> {
        at_most(seq![entry] + self.entries@, self.limit as nat)
    }

    /// The id of the newest entry.
    pub open spec fn newest_id(self) -> Option<i64> {
        if self.entries@.len() == 0 {
            None
        } else {
            Some(self.entries@[0].id)
        }
    }

    fn first_id(&self) -> (id: Option<i64>)
        ensures
            id == self.newest_id(),
    {
        if self.entries.len() == 0 {
            None
        } else {
            Some(self.entries[0].id)
        }
    }

    /// Record a transcript taken at a given moment, and return its id.
    pub fn add_at(&mut self, text: String, duration_secs: D, now: i64) -> (id: i64)
        requires
            old(self).valid(),
            old(self).newest_id() matches Some(id) ==> id < i64::MAX,
        ensures
            final(self).valid(),
            final(self).limit == old(self).limit,
            id == id_after(old(self).newest_id(), now),
            final(self).entries@ == old(self).with_added(
                (Entry { id, text, duration_secs }),
            ),
    {
        let id: i64 = unique_id_at(self.first_id(), now);
        let entry = Entry { id, text, duration_secs };
        let ghost before = self.entries@;
        let ghost added = entry;
        self.entries.insert(0, entry);
        assert(self.entries@ =~= seq![added] + before);
        let ghost all = self.entries@;
        self.entries.truncate(self.limit);
        proof {
            assert(self.entries@ =~= at_most(all, self.limit as nat));
            assert forall|i: int, j: int| 0 <= i <= j < self.entries@.len() implies by_id::<D>()(
                #[trigger] self.entries@[i],
            ) >= by_id::<D>()(#[trigger] self.entries@[j]) by {
                if i == 0 && j > 0 {
                    assert(self.entries@[j] == before[j - 1]);
                    assert(by_id::<D>()(before[0]) >= by_id::<D>()(before[j - 1]));
                } else if i > 0 {
                    assert(self.entries@[i] == before[i - 1]);
                    assert(self.entries@[j] == before[j - 1]);
                    assert(by_id::<D>()(before[i - 1]) >= by_id::<D>()(before[j - 1]));
                }
            }
        }
        id
    }

    /// Record a new transcript and return its id.
    pub fn add(&mut self, text: String, duration_secs: D) -> (id: i64)
        requires
            old(self).valid(),
            old(self).newest_id() matches Some(id) ==> id < i64::MAX,
        ensures
            final(self).valid(),
            final(self).limit == old(self).limit,
            exists|since: Option<u128>| #[trigger]
                clock_says(since) && id == id_after(
                    old(self).newest_id(),
                    clock_micros(since) as i64,
                ),
            exists|now: i64| id == #[trigger] id_after(old(self).newest_id(), now),
            final(self).entries@ == old(self).with_added(
                (Entry { id, text, duration_secs }),
            ),
    {
        let now: i64 = now_micros();
        self.add_at(text, duration_secs, now)
    }

    /// Returns whether anything was actually removed.
    pub fn remove(&mut self, id: i64) -> (removed: bool)
        requires
            old(self).valid(),
        ensures
            final(self).valid(),
            final(self).limit == old(self).limit,
            removed == holds(old(self).entries@, id),
            final(self).entries@ == without(old(self).entries@, id),
    {
        let ghost before = self.entries@;
        let ghost keep = |entry: Entry<D>| entry.id != id;
        let mut removed: bool = false;
        let mut at: usize = 0;
        let ghost mut gone: int = 0;
        proof {
            reveal_with_fuel(Seq::filter, 1);
            assert(before.take(0).filter(keep) =~= Seq::empty());
            assert(before.skip(0) =~= before);
        }
        while at < self.entries.len()
            invariant
                before == old(self).entries@,
                keep == (|entry: Entry<D>| entry.id != id),
                self.limit == old(self).limit,
                at <= self.entries@.len(),
                0 <= gone,
                self.entries@.len() + gone == before.len(),
                self.entries@.take(at as int) == before.take(at + gone).filter(keep),
                self.entries@.skip(at as int) == before.skip(at + gone),
                removed == exists|i: int|
                    0 <= i < at + gone && (#[trigger] before[i]).id == id,
            decreases self.entries@.len() - at,
        {
            let ghost now = self.entries@;
            proof {
                assert(now.skip(at as int)[0] == before.skip(at + gone)[0]);
                assert(now[at as int] == before[at + gone]);
                reveal_with_fuel(Seq::filter, 1);
                assert(before.take(at + gone + 1).drop_last() =~= before.take(at + gone));
                assert(before.take(at + gone + 1).last() == before[at + gone]);
            }
            if self.entries[at].id == id {
                self.entries.remove(at);
                removed = true;
                proof {
                    assert(before[at + gone].id == id);
                    assert(self.entries@.take(at as int) =~= now.take(at as int));
                    assert(self.entries@.skip(at as int) =~= now.skip(at as int).skip(1));
                    assert(before.skip(at + gone).skip(1) =~= before.skip(at + gone + 1));
                    gone = gone + 1;
                }
            } else {
                at += 1;
                proof {
                    assert(now.take(at as int) =~= now.take(at - 1).push(now[at - 1]));
                    assert(now.skip(at as int) =~= now.skip(at - 1).skip(1));
                    assert(before.skip(at - 1 + gone).skip(1) =~= before.skip(at + gone));
                }
            }
        }
        proof {
            assert(self.entries@.take(at as int) =~= self.entries@);
            assert(before.take(before.len() as int) =~= before);
            removing_keeps_the_order(before, id);
        }
        removed
    }
}

/// Taking entries out leaves the rest in order.
pub proof fn removing_keeps_the_order<D>(entries: Seq<Entry<D>>, id: i64)
    ensures
        without(entries, id).len() <= entries.len(),
        descending(entries, by_id()) ==> descending(without(entries, id), by_id()),
        strictly_descending(entries, by_id()) ==> strictly_descending(
            without(entries, id),
            by_id(),
        ),
        forall|i: int|
            0 <= i < without(entries, id).len() ==> (#[trigger] without(entries, id)[i]).id != id,
        forall|i: int|
            0 <= i < without(entries, id).len() ==> entries.contains(
                #[trigger] without(entries, id)[i],
            ),
    decreases entries.len(),
{
    let keep = |entry: Entry<D>| entry.id != id;
    reveal_with_fuel(Seq::filter, 1);
    if entries.len() > 0 {
        let shorter = entries.drop_last();
        removing_keeps_the_order(shorter, id);
        let kept = without(shorter, id);
        let all = without(entries, id);
        assert(all == if keep(entries.last()) {
            kept.push(entries.last())
        } else {
            kept
        });
        assert forall|i: int| 0 <= i < all.len() implies entries.contains(#[trigger] all[i]) by {
            if i < kept.len() {
                assert(kept[i] == all[i]);
                assert(shorter.contains(kept[i]));
                let k = choose|k: int| 0 <= k < shorter.len() && shorter[k] == kept[i];
                assert(entries[k] == all[i]);
            } else {
                assert(entries[entries.len() - 1] == all[i]);
            }
        }
        if descending(entries, by_id()) {
            assert forall|i: int, j: int| 0 <= i <= j < shorter.len() implies by_id::<D>()(
                #[trigger] shorter[i],
            ) >= by_id::<D>()(#[trigger] shorter[j]) by {
                assert(shorter[i] == entries[i] && shorter[j] == entries[j]);
            }
            assert forall|i: int, j: int| 0 <= i <= j < all.len() implies by_id::<D>()(
                #[trigger] all[i],
            ) >= by_id::<D>()(#[trigger] all[j]) by {
                if j < kept.len() {
                    assert(all[i] == kept[i] && all[j] == kept[j]);
                } else {
                    assert(entries.contains(all[i]));
                    let k = choose|k: int| 0 <= k < entries.len() && entries[k] == all[i];
                    assert(by_id::<D>()(entries[k]) >= by_id::<D>()(entries[entries.len() - 1]));
                }
            }
        }
        if strictly_descending(entries, by_id()) {
            assert forall|i: int, j: int| 0 <= i < j < shorter.len() implies by_id::<D>()(
                #[trigger] shorter[i],
            ) > by_id::<D>()(#[trigger] shorter[j]) by {
                assert(shorter[i] == entries[i] && shorter[j] == entries[j]);
            }
            assert forall|i: int, j: int| 0 <= i < j < all.len() implies by_id::<D>()(
                #[trigger] all[i],
            ) > by_id::<D>()(#[trigger] all[j]) by {
                if j < kept.len() {
                    assert(all[i] == kept[i] && all[j] == kept[j]);
                } else {
                    assert(all[i] == kept[i]);
                    assert(shorter.contains(kept[i]));
                    let k = choose|k: int| 0 <= k < shorter.len() && shorter[k] == kept[i];
                    assert(entries[k] == all[i]);
                    assert(by_id::<D>()(entries[k]) > by_id::<D>()(entries[entries.len() - 1]));
                }
            }
        }
    }
}

// --- the clock ---------------------------------------------------------------

/// A reading of the system's clock.
#[verifier::external_type_specification]
#[verifier::external_body]
pub struct ExSystemTime(std::time::SystemTime);

/// `SystemTime::now` reads the clock: nothing is claimed of what it says.
pub assume_specification[ std::time::SystemTime::now ]() -> std::time::SystemTime;

/// `SystemTime::duration_since` says how long after the start of 1970 a reading
/// of the clock is, or that it is before it. Nothing is claimed of either, as the
/// clock may say anything.
#[verifier::external_body]
pub(crate) fn since_epoch(time: std::time::SystemTime) -> Option<std::time::Duration> {
    match time.duration_since(std::time::UNIX_EPOCH) {
        Ok(since) => Some(since),
        Err(_) => None,
    }
}

/// `Duration::as_micros` counts the whole microseconds of a stretch of time:
/// nothing is claimed of how many there are, as the stretch comes from the clock.
pub assume_specification[ std::time::Duration::as_micros ](
    since: &std::time::Duration,
) -> u128;

/// Unix microseconds, given how many a reading of the clock is after the start of
/// 1970, if it is after it: zero if the clock is set before there were any. More
/// than a signed number holds start again from the least it does.
pub open spec fn clock_micros(since: Option<u128>) -> int {
    match since {
        Some(micros) => {
            let low = micros as int % 0x1_0000_0000_0000_0000;
            if low <= i64::MAX {
                low
            } else {
                low - 0x1_0000_0000_0000_0000
            }
        },
        None => 0,
    }
}

/// Unix microseconds, given how many a reading of the clock is after the start of
/// 1970, if it is after it.
pub fn unix_micros(since: Option<u128>) -> (now: i64)
    ensures
        now == clock_micros(since),
{
    match since {
        Some(micros) => {
            let low: u128 = micros % 0x1_0000_0000_0000_0000;
            if low <= 0x7fff_ffff_ffff_ffff {
                low as i64
            } else {
                (low as i128 - 0x1_0000_0000_0000_0000) as i64
            }
        },
        None => 0,
    }
}

/// Whether this is what the clock says when it is read: how many microseconds after
/// the start of 1970 it is, or that it is before that.
pub closed spec fn clock_says(since: Option<u128>) -> bool {
    exists|time: std::time::SystemTime, after: Option<std::time::Duration>|
        #![trigger call_ensures(since_epoch, (time,), after)]
        call_ensures(std::time::SystemTime::now, (), time) && call_ensures(
            since_epoch,
            (time,),
            after,
        ) && match (after, since) {
            (Some(after), Some(micros)) => call_ensures(
                std::time::Duration::as_micros,
                (&after,),
                micros,
            ),
            (None, None) => true,
            _ => false,
        }
}

/// What the clock says is what it was read to say, in whole microseconds, and
/// nothing else is.
pub(crate) proof fn the_clock_says_what_was_read(micros: u128)
    ensures
        clock_says(Some(micros)) <==> exists|
            time: std::time::SystemTime,
            after: std::time::Duration,
        |
            #![trigger call_ensures(since_epoch, (time,), Some(after))]
            call_ensures(std::time::SystemTime::now, (), time) && call_ensures(
                since_epoch,
                (time,),
                Some(after),
            ) && call_ensures(std::time::Duration::as_micros, (&after,), micros),
        clock_says(None) <==> exists|time: std::time::SystemTime|
            #![trigger call_ensures(since_epoch, (time,), None)]
            call_ensures(std::time::SystemTime::now, (), time) && call_ensures(
                since_epoch,
                (time,),
                None,
            ),
{
}

/// Unix microseconds, now: what [`unix_micros`] makes of what the clock says.
fn now_micros() -> (now: i64)
    ensures
        exists|since: Option<u128>| #[trigger] clock_says(since) && now == clock_micros(since),
{
    let time = std::time::SystemTime::now();
    let after = since_epoch(time);
    assert(call_ensures(std::time::SystemTime::now, (), time));
    assert(call_ensures(since_epoch, (time,), after));
    match after {
        Some(after) => {
            let micros: u128 = after.as_micros();
            assert(call_ensures(std::time::Duration::as_micros, (&after,), micros));
            assert(clock_says(Some(micros)));
            unix_micros(Some(micros))
        },
        None => {
            assert(clock_says(None));
            unix_micros(None)
        },
    }
}

/// A reading of the clock is kept as it is for as long as a signed number holds it,
/// which is for hundreds of thousands of years, and is some number of whole rounds of
/// them away after that. A clock before the start of 1970 reads zero.
pub proof fn a_reading_is_kept(micros: u128)
    ensures
        micros <= i64::MAX ==> clock_micros(Some(micros)) == micros,
        i64::MIN <= clock_micros(Some(micros)) <= i64::MAX,
        exists|rounds: int|
            micros == clock_micros(Some(micros)) + #[trigger] (rounds * 0x1_0000_0000_0000_0000),
        clock_micros(None) == 0,
{
    let rounds = (micros - clock_micros(Some(micros))) / 0x1_0000_0000_0000_0000;
    assert(micros == clock_micros(Some(micros)) + rounds * 0x1_0000_0000_0000_0000);
}

/// The id of an entry recorded at a given moment.
pub open spec fn id_after(newest: Option<i64>, now: i64) -> int {
    match newest {
        Some(previous) => if previous >= now {
            previous + 1
        } else {
            now as int
        },
        None => now as int,
    }
}

/// Unix microseconds, nudged forward if the clock hasn't moved since the last
/// entry so ids stay unique and ordered.
pub fn unique_id_at(newest: Option<i64>, now: i64) -> (id: i64)
    requires
        newest matches Some(previous) ==> previous < i64::MAX,
    ensures
        id == id_after(newest, now),
{
    match newest {
        Some(previous) => if previous >= now {
            previous + 1
        } else {
            now
        },
        None => now,
    }
}

/// As [`unique_id_at`], at the moment it is asked.
pub fn unique_id(newest: Option<i64>) -> (id: i64)
    requires
        newest matches Some(previous) ==> previous < i64::MAX,
    ensures
        newest matches Some(previous) ==> id > previous,
        exists|since: Option<u128>| #[trigger]
            clock_says(since) && id == id_after(newest, clock_micros(since) as i64),
        exists|now: i64| id == #[trigger] id_after(newest, now),
{
    let now: i64 = now_micros();
    unique_id_at(newest, now)
}

/// Minutes and seconds, as a clock would show them: `1:05`.
pub fn mm_ss(secs: u32) -> (text: String)
    ensures
        text@ == decimal((secs / 60) as nat) + ":"@ + two_digits((secs % 60) as nat),
{
    let mut text = String::new();
    push_decimal(&mut text, (secs / 60) as u64);
    text.append(":");
    push_two_digits(&mut text, (secs % 60) as u64);
    assert(text@ =~= decimal((secs / 60) as nat) + ":"@ + two_digits((secs % 60) as nat));
    text
}

// --- the file ----------------------------------------------------------------

/// The history file, below the directory for state.
pub fn history_path_in(state: &[u8]) -> (path: Vec<u8>)
    ensures
        path@ == below(state@, "yapper/history.jsonl"@),
{
    join(state, "yapper/history.jsonl")
}

/// A file with the given lines on it, each ended by a line feed.
pub open spec fn file_of(lines: Seq<Seq<char>>) -> Seq<char>
    decreases lines.len(),
{
    if lines.len() == 0 {
        Seq::empty()
    } else {
        lines[0].push('\n') + file_of(lines.skip(1))
    }
}

proof fn file_of_more(lines: Seq<Seq<char>>, line: Seq<char>)
    ensures
        file_of(lines.push(line)) == file_of(lines) + line.push('\n'),
    decreases lines.len(),
{
    if lines.len() == 0 {
        assert(lines.push(line).skip(1) =~= Seq::empty());
        assert(file_of(lines.push(line).skip(1)) =~= Seq::empty());
        assert(file_of(lines.push(line)) =~= line.push('\n'));
        assert(file_of(lines) + line.push('\n') =~= line.push('\n'));
    } else {
        assert(lines.push(line).skip(1) =~= lines.skip(1).push(line));
        file_of_more(lines.skip(1), line);
        assert(file_of(lines.push(line)) =~= file_of(lines) + line.push('\n'));
    }
}

/// What the history file holds, given each entry as it is written, in the order
/// the list shows them. Oldest first on disk, so the file reads chronologically.
pub fn file_text(encoded: &[String]) -> (text: String)
    ensures
        text@ == file_of(contents(encoded@).reverse()),
{
    let mut text = String::new();
    let mut at: usize = encoded.len();
    let ghost all = contents(encoded@).reverse();
    assert(all.take(0) =~= Seq::empty());
    while at > 0
        invariant
            at <= encoded@.len(),
            all == contents(encoded@).reverse(),
            text@ == file_of(all.take(encoded@.len() - at)),
        decreases at,
    {
        let ghost done = encoded@.len() - at;
        at -= 1;
        text.append(encoded[at].as_str());
        text.push('\n');
        proof {
            assert(all[done] == encoded@[at as int]@);
            assert(all.take(done + 1) =~= all.take(done).push(all[done]));
            file_of_more(all.take(done), all[done]);
            assert(text@ =~= file_of(all.take(done)) + all[done].push('\n'));
        }
    }
    assert(all.take(encoded@.len() as int) =~= all);
    text
}

/// Whether a line reads back as it was written: it has something on it, no line
/// feed, and no carriage return at its end.
pub open spec fn one_line(line: Seq<char>) -> bool {
    &&& !blank(line)
    &&& !line.contains('\n')
    &&& line.last() != '\r'
}

proof fn first_of_file(line: Seq<char>, rest: Seq<char>)
    requires
        one_line(line),
    ensures
        first_line(line.push('\n') + rest) == line,
        after_first_line(line.push('\n') + rest) == rest,
{
    let s = line.push('\n') + rest;
    assert forall|i: int| 0 <= i < line.len() implies s[i] != '\n' by {
        assert(s[i] == line[i]);
        assert(line.contains(line[i]));
    }
    assert(s[line.len() as int] == '\n');
    line_end_is(s, line.len() as int);
    assert(line.len() > 0) by {
        if line.len() == 0 {
            assert(blank(line));
        }
    }
    assert(s[line.len() - 1] == line.last());
    assert(s.take(line.len() as int) =~= line);
    assert(s.skip(line.len() as int + 1) =~= rest);
}

/// What was written line by line reads back line by line.
pub proof fn written_lines_read_back(lines: Seq<Seq<char>>)
    requires
        forall|i: int| 0 <= i < lines.len() ==> one_line(#[trigger] lines[i]),
    ensures
        written_lines(file_of(lines)) == lines,
    decreases lines.len(),
{
    if lines.len() == 0 {
        reveal_with_fuel(Seq::filter, 1);
        assert(crate::lines::lines(file_of(lines)) =~= Seq::empty());
        assert(written_lines(file_of(lines)) =~= lines);
    } else {
        let rest = lines.skip(1);
        assert forall|i: int| 0 <= i < rest.len() implies one_line(#[trigger] rest[i]) by {
            assert(rest[i] == lines[i + 1]);
        }
        written_lines_read_back(rest);
        first_of_file(lines[0], file_of(rest));
        written_lines_unfold(file_of(lines));
        assert(seq![lines[0]] + rest =~= lines);
    }
}

/// What is made of the lines of a history file, each of which `decode` can read or
/// cannot.
pub open spec fn decoded<D>(
    lines: Seq<Seq<char>>,
    decode: spec_fn(Seq<char>) -> Option<Entry<D>>,
) -> Seq<Option<Entry<D>>> {
    lines.map_values(decode)
}

/// The entries a history file gives, whatever is in it.
pub open spec fn loaded<D>(
    text: Seq<char>,
    decode: spec_fn(Seq<char>) -> Option<Entry<D>>,
    limit: nat,
) -> Seq<Entry<D>> {
    newest(readable(decoded(written_lines(text), decode)), limit)
}

/// What the history file holds, given how an entry is written.
pub open spec fn saved<D>(
    entries: Seq<Entry<D>>,
    encode: spec_fn(Entry<D>) -> Seq<char>,
) -> Seq<char> {
    file_of(entries.map_values(encode).reverse())
}

proof fn all_readable<D>(entries: Seq<Entry<D>>)
    ensures
        readable(entries.map_values(|entry: Entry<D>| Some(entry))) == entries,
    decreases entries.len(),
{
    let wrapped = entries.map_values(|entry: Entry<D>| Some(entry));
    if entries.len() > 0 {
        all_readable(entries.drop_last());
        assert(wrapped.drop_last() =~= entries.drop_last().map_values(
            |entry: Entry<D>| Some(entry),
        ));
        assert(wrapped.last() == Some(entries.last()));
        assert(readable(wrapped) =~= entries);
    } else {
        assert(readable(wrapped) =~= entries);
    }
}

/// Entries survive a reload: what was saved is what is loaded, as long as an entry
/// is written on one line, reads back as it was, and no two share an id.
pub proof fn entries_survive_a_reload<D>(
    history: History<D>,
    encode: spec_fn(Entry<D>) -> Seq<char>,
    decode: spec_fn(Seq<char>) -> Option<Entry<D>>,
)
    requires
        history.valid(),
        strictly_descending(history.entries@, by_id()),
        forall|i: int|
            0 <= i < history.entries@.len() ==> {
                let line = encode(#[trigger] history.entries@[i]);
                one_line(line) && decode(line) == Some(history.entries@[i])
            },
    ensures
        loaded(saved(history.entries@, encode), decode, history.limit as nat) == history.entries@,
        loaded_bytes(
            encode_utf8(saved(history.entries@, encode)),
            decode,
            history.limit as nat,
        ) == history.entries@,
{
    let entries = history.entries@;
    let back = entries.map_values(encode).reverse();
    assert forall|i: int| 0 <= i < back.len() implies one_line(#[trigger] back[i]) by {
        assert(back[i] == encode(entries[entries.len() - 1 - i]));
    }
    assert forall|i: int| 0 <= i < back.len() implies decode(#[trigger] back[i]) == Some(
        entries[entries.len() - 1 - i],
    ) by {
        assert(back[i] == encode(entries[entries.len() - 1 - i]));
    }
    written_lines_read_back(back);
    assert(decoded(back, decode) =~= entries.reverse().map_values(
        |entry: Entry<D>| Some(entry),
    ));
    all_readable(entries.reverse());
    sorting_the_reversed(entries, by_id());
    text_loads_as_text(saved(entries, encode), decode, history.limit as nat);
}

proof fn readable_parts<D>(before: Seq<Option<Entry<D>>>, after: Seq<Option<Entry<D>>>)
    ensures
        readable(before + after) == readable(before) + readable(after),
    decreases after.len(),
{
    if after.len() == 0 {
        assert(before + after =~= before);
        assert(readable(before) + readable(after) =~= readable(before));
    } else {
        assert((before + after).drop_last() =~= before + after.drop_last());
        readable_parts(before, after.drop_last());
        assert(readable(before + after) =~= readable(before) + readable(after));
    }
}

/// A damaged line costs only that entry: the other lines load as they would
/// without it.
pub proof fn a_damaged_line_costs_only_itself<D>(
    before: Seq<Seq<char>>,
    damaged: Seq<char>,
    after: Seq<Seq<char>>,
    decode: spec_fn(Seq<char>) -> Option<Entry<D>>,
)
    requires
        decode(damaged) is None,
    ensures
        readable(decoded(before.push(damaged) + after, decode)) == readable(
            decoded(before + after, decode),
        ),
{
    let first = decoded(before, decode);
    let last = decoded(after, decode);
    assert(decoded(before.push(damaged) + after, decode) =~= first.push(None) + last);
    assert(decoded(before + after, decode) =~= first + last);
    readable_parts(first.push(None), last);
    readable_parts(first, last);
    assert(first.push(None).drop_last() =~= first);
}

/// What is made of one line, which may not be text.
pub open spec fn decoded_line<D>(
    line: Option<Seq<char>>,
    decode: spec_fn(Seq<char>) -> Option<Entry<D>>,
) -> Option<Entry<D>> {
    match line {
        Some(text) => decode(text),
        None => None,
    }
}

/// The entries a history file gives, whatever bytes are in it.
pub open spec fn loaded_bytes<D>(
    bytes: Seq<u8>,
    decode: spec_fn(Seq<char>) -> Option<Entry<D>>,
    limit: nat,
) -> Seq<Entry<D>> {
    newest(
        readable(
            written_byte_lines(bytes).map_values(
                |line: Option<Seq<char>>| decoded_line(line, decode),
            ),
        ),
        limit,
    )
}

/// A file of text gives the entries its lines do.
pub proof fn text_loads_as_text<D>(
    text: Seq<char>,
    decode: spec_fn(Seq<char>) -> Option<Entry<D>>,
    limit: nat,
)
    ensures
        loaded_bytes(encode_utf8(text), decode, limit) == loaded(text, decode, limit),
{
    text_is_read_as_text(text);
    assert(written_byte_lines(encode_utf8(text)).map_values(
        |line: Option<Seq<char>>| decoded_line(line, decode),
    ) =~= decoded(written_lines(text), decode));
}

/// The lines of a text that an entry can be read from.
pub open spec fn entry_lines<D>(
    text: Seq<char>,
    decode: spec_fn(Seq<char>) -> Option<Entry<D>>,
) -> Seq<Seq<char>> {
    lines(text).filter(|line: Seq<char>| !blank(line) && decode(line) is Some)
}

/// Whether an entry can be read from a line of bytes.
pub open spec fn is_entry<D>(
    line: Seq<u8>,
    decode: spec_fn(Seq<char>) -> Option<Entry<D>>,
) -> bool {
    line_text(line) matches Some(text) && !blank(text) && decode(text) is Some
}

/// The lines of a file that an entry can be read from.
pub open spec fn entry_byte_lines<D>(
    bytes: Seq<u8>,
    decode: spec_fn(Seq<char>) -> Option<Entry<D>>,
) -> Seq<Seq<u8>> {
    byte_lines(bytes).filter(|line: Seq<u8>| is_entry(line, decode))
}

proof fn dropping_the_unreadable<T, D>(
    lines: Seq<T>,
    read: spec_fn(T) -> Option<Entry<D>>,
    keep: spec_fn(T) -> bool,
)
    requires
        forall|line: T| !keep(line) ==> #[trigger] read(line) is None,
    ensures
        readable(lines.filter(keep).map_values(read)) == readable(lines.map_values(read)),
    decreases lines.len(),
{
    reveal_with_fuel(Seq::filter, 1);
    if lines.len() == 0 {
        assert(lines.filter(keep).map_values(read) =~= lines.map_values(read));
    } else {
        let shorter = lines.drop_last();
        let last = lines.last();
        dropping_the_unreadable(shorter, read, keep);
        assert(lines.map_values(read).drop_last() =~= shorter.map_values(read));
        if keep(last) {
            assert(lines.filter(keep) == shorter.filter(keep).push(last));
            assert(lines.filter(keep).map_values(read).drop_last() =~= shorter.filter(
                keep,
            ).map_values(read));
        } else {
            assert(read(last) is None);
        }
    }
}

proof fn reading_alike<T, D>(
    lines: Seq<T>,
    keep: spec_fn(T) -> bool,
    read: spec_fn(T) -> Option<Entry<D>>,
    other: spec_fn(T) -> Option<Entry<D>>,
)
    requires
        forall|line: T| keep(line) ==> #[trigger] read(line) == other(line),
    ensures
        lines.filter(keep).map_values(read) == lines.filter(keep).map_values(other),
{
    let kept = lines.filter(keep);
    assert forall|i: int| 0 <= i < kept.len() implies read(#[trigger] kept[i]) == other(kept[i]) by {
        lines.lemma_filter_pred(keep, i);
    }
    assert(kept.map_values(read) =~= kept.map_values(other));
}

/// What cannot be read costs only itself: a text loads as any other does with the
/// same readable lines in the same order, however many lines of either are blank or
/// damaged.
pub proof fn only_readable_lines_count<D>(
    text: Seq<char>,
    other: Seq<char>,
    decode: spec_fn(Seq<char>) -> Option<Entry<D>>,
    limit: nat,
)
    requires
        entry_lines(text, decode) == entry_lines(other, decode),
    ensures
        loaded(text, decode, limit) == loaded(other, decode, limit),
{
    entries_of_a_text(text, decode);
    entries_of_a_text(other, decode);
}

proof fn entries_of_a_text<D>(text: Seq<char>, decode: spec_fn(Seq<char>) -> Option<Entry<D>>)
    ensures
        readable(decoded(written_lines(text), decode)) == readable(
            entry_lines(text, decode).map_values(decode),
        ),
{
    let written = |line: Seq<char>| !blank(line);
    let good = |line: Seq<char>| !blank(line) && decode(line) is Some;
    let read = |line: Seq<char>|
        if blank(line) {
            None
        } else {
            decode(line)
        };
    let all = lines(text);
    dropping_the_unreadable(all, read, written);
    dropping_the_unreadable(all, read, good);
    reading_alike(all, written, read, decode);
    reading_alike(all, good, read, decode);
}

/// What cannot be read costs only itself, in a file that need not be text: it loads
/// as any other does with the same readable lines in the same order, however many
/// lines of either are blank, damaged or not text.
pub proof fn only_readable_byte_lines_count<D>(
    bytes: Seq<u8>,
    other: Seq<u8>,
    decode: spec_fn(Seq<char>) -> Option<Entry<D>>,
    limit: nat,
)
    requires
        entry_byte_lines(bytes, decode) == entry_byte_lines(other, decode),
    ensures
        loaded_bytes(bytes, decode, limit) == loaded_bytes(other, decode, limit),
{
    entries_of_bytes(bytes, decode);
    entries_of_bytes(other, decode);
}

proof fn entries_of_bytes<D>(bytes: Seq<u8>, decode: spec_fn(Seq<char>) -> Option<Entry<D>>)
    ensures
        readable(
            written_byte_lines(bytes).map_values(
                |line: Option<Seq<char>>| decoded_line(line, decode),
            ),
        ) == readable(
            entry_byte_lines(bytes, decode).map_values(
                |line: Seq<u8>| decoded_line(line_text(line), decode),
            ),
        ),
{
    let as_text = |line: Seq<u8>| line_text(line);
    let written = |text: Option<Seq<char>>| is_written(text);
    let plain = |text: Option<Seq<char>>| decoded_line(text, decode);
    let read = |text: Option<Seq<char>>|
        if is_written(text) {
            decoded_line(text, decode)
        } else {
            None
        };
    let good = |line: Seq<u8>| is_entry(line, decode);
    let plain_line = |line: Seq<u8>| decoded_line(line_text(line), decode);
    let read_line = |line: Seq<u8>|
        if is_written(line_text(line)) {
            decoded_line(line_text(line), decode)
        } else {
            None
        };
    let all = byte_lines(bytes);
    let texts = all.map_values(as_text);
    dropping_the_unreadable(texts, read, written);
    reading_alike(texts, written, read, plain);
    assert(texts.map_values(read) =~= all.map_values(read_line));
    dropping_the_unreadable(all, read_line, good);
    reading_alike(all, good, read_line, plain_line);
}

// --- what the history keeps to -----------------------------------------------

/// An entry is stamped by the clock, in Unix microseconds, so that it is shown as
/// recorded in the second it was; but for a clock that has not moved on since the
/// newest entry, when it is the next microsecond after that one's.
pub proof fn an_entry_is_stamped_by_the_clock(newest: Option<i64>, micros: i64)
    requires
        micros >= 0,
    ensures
        (newest matches Some(previous) ==> previous < micros) ==> id_after(
            newest,
            clock_micros(Some(micros as u128)) as i64,
        ) == micros,
        newest matches Some(previous) ==> previous >= micros ==> id_after(
            newest,
            clock_micros(Some(micros as u128)) as i64,
        ) == previous + 1,
        newest is None ==> id_after(newest, clock_micros(None) as i64) == 0,
{
}

/// The second an entry is shown as recorded in is the one its id falls in, counting
/// towards the start of 1970.
pub proof fn an_id_falls_in_its_second(id: int, second: int)
    ensures
        id >= 0 ==> (towards_zero(id, 1_000_000) == second <==> second * 1_000_000 <= id < (second
            + 1) * 1_000_000),
        towards_zero(-id, 1_000_000) == -towards_zero(id, 1_000_000),
{
}

/// Loading keeps the newest entries, newest first, and as many as there is room for:
/// whatever it drops is no newer than anything it keeps, and nothing is made up.
pub proof fn loading_keeps_the_newest<D>(entries: Seq<Entry<D>>, limit: nat)
    ensures
        newest(entries, limit).len() == if entries.len() <= limit {
            entries.len()
        } else {
            limit
        },
        forall|i: int, j: int|
            0 <= i <= j < newest(entries, limit).len() ==> (#[trigger] newest(
                entries,
                limit,
            )[i]).id >= (#[trigger] newest(entries, limit)[j]).id,
        exists|dropped: Seq<Entry<D>>|
            (#[trigger] (newest(entries, limit) + dropped)).to_multiset() == entries.to_multiset()
                && forall|i: int, j: int|
                0 <= i < newest(entries, limit).len() && 0 <= j < dropped.len() ==> (#[trigger] newest(
                    entries,
                    limit,
                )[i]).id >= (#[trigger] dropped[j]).id,
        forall|id: i64|
            entries.len() <= limit ==> #[trigger] of_key(newest(entries, limit), by_id(), id as int)
                == of_key(entries, by_id(), id as int),
{
    let sorted = largest_first(entries, by_id());
    let kept = newest(entries, limit);
    sorting_orders(entries, by_id());
    sorting_keeps_every_element(entries, by_id());
    assert forall|i: int, j: int| 0 <= i <= j < kept.len() implies (#[trigger] kept[i]).id >= (
    #[trigger] kept[j]).id by {
        assert(by_id::<D>()(sorted[i]) >= by_id::<D>()(sorted[j]));
    }
    let dropped = if sorted.len() <= limit {
        Seq::empty()
    } else {
        sorted.skip(limit as int)
    };
    assert(kept + dropped =~= sorted);
    assert forall|i: int, j: int| 0 <= i < kept.len() && 0 <= j < dropped.len() implies (
    #[trigger] kept[i]).id >= (#[trigger] dropped[j]).id by {
        assert(by_id::<D>()(sorted[i]) >= by_id::<D>()(sorted[limit + j]));
    }
    assert forall|id: i64| entries.len() <= limit implies #[trigger] of_key(
        kept,
        by_id(),
        id as int,
    ) == of_key(entries, by_id(), id as int) by {
        sorting_is_stable(entries, by_id(), id as int);
    }
}

/// Reading takes every entry that could be read, in order, and nothing for a line
/// that could not.
pub proof fn reading_takes_what_can_be_read<D>(
    before: Seq<Option<Entry<D>>>,
    entry: Entry<D>,
    after: Seq<Option<Entry<D>>>,
)
    ensures
        readable(before + after) == readable(before) + readable(after),
        readable(seq![Some(entry)]) == seq![entry],
        readable(seq![None::<Entry<D>>]).len() == 0,
        readable(Seq::<Option<Entry<D>>>::empty()).len() == 0,
{
    readable_parts(before, after);
    reveal_with_fuel(readable, 2);
    assert(seq![Some(entry)].drop_last() =~= Seq::empty());
    assert(seq![None::<Entry<D>>].drop_last() =~= Seq::empty());
    assert(readable(seq![Some(entry)]) =~= seq![entry]);
}

/// A new entry goes to the front with its text and length as they are, and every
/// entry that was there stays behind it in order, but for those that no longer fit.
pub proof fn a_new_entry_comes_first<D>(history: History<D>, entry: Entry<D>, i: int)
    requires
        history.valid(),
        0 <= i < history.with_added(entry).len(),
    ensures
        i == 0 ==> history.with_added(entry)[i] == entry,
        i > 0 ==> history.with_added(entry)[i] == history.entries@[i - 1],
        history.with_added(entry).len() == if history.entries@.len() < history.limit {
            history.entries@.len() + 1
        } else {
            history.limit as nat
        },
{
}

/// An entry of another id is not touched by a removal, nor is where it stands among
/// the others; and there is nothing left of the one that was removed.
pub proof fn removing_takes_only_that_id<D>(before: Seq<Entry<D>>, entry: Entry<D>, id: i64)
    ensures
        without(before.push(entry), id) == if entry.id == id {
            without(before, id)
        } else {
            without(before, id).push(entry)
        },
        without(Seq::<Entry<D>>::empty(), id).len() == 0,
{
    reveal_with_fuel(Seq::filter, 1);
    assert(before.push(entry).drop_last() =~= before);
}

/// A new entry is newer than every one before it, and no two share an id, however
/// the clock jumps.
pub proof fn ids_stay_unique<D>(history: History<D>, text: String, duration_secs: D, now: i64, id: i64)
    requires
        history.valid(),
        id == id_after(history.newest_id(), now),
    ensures
        forall|i: int| 0 <= i < history.entries@.len() ==> (#[trigger] history.entries@[i]).id < id,
        strictly_descending(history.entries@, by_id()) ==> strictly_descending(
            history.with_added((Entry { id, text, duration_secs })),
            by_id(),
        ),
{
    let before = history.entries@;
    let entry = Entry { id, text, duration_secs };
    assert forall|i: int| 0 <= i < before.len() implies (#[trigger] before[i]).id < id by {
        assert(by_id::<D>()(before[0]) >= by_id::<D>()(before[i]));
    }
    if strictly_descending(before, by_id()) {
        let after = history.with_added(entry);
        assert forall|i: int, j: int| 0 <= i < j < after.len() implies by_id::<D>()(
            #[trigger] after[i],
        ) > by_id::<D>()(#[trigger] after[j]) by {
            assert(after[j] == before[j - 1]);
            if i > 0 {
                assert(after[i] == before[i - 1]);
                assert(by_id::<D>()(before[i - 1]) > by_id::<D>()(before[j - 1]));
            }
        }
    }
}

/// Once there is no room, a new entry pushes out the oldest and nothing else.
pub proof fn the_limit_drops_the_oldest<D>(history: History<D>, entry: Entry<D>)
    requires
        history.valid(),
    ensures
        history.entries@.len() < history.limit ==> history.with_added(entry) == seq![entry]
            + history.entries@,
        0 < history.limit == history.entries@.len() ==> history.with_added(entry) == seq![entry]
            + history.entries@.drop_last(),
        history.limit == 0 ==> history.with_added(entry).len() == 0,
{
    if 0 < history.limit == history.entries@.len() {
        assert((seq![entry] + history.entries@).take(history.limit as int) =~= seq![entry]
            + history.entries@.drop_last());
    }
}

/// Deleting twice is a no-op, and deleting takes nothing else with it.
pub proof fn deleting_twice_is_a_no_op<D>(entries: Seq<Entry<D>>, id: i64, other: i64)
    requires
        other != id,
    ensures
        !holds(without(entries, id), id),
        without(without(entries, id), id) == without(entries, id),
        without(without(entries, id), other) == without(without(entries, other), id),
        holds(without(entries, id), other) == holds(entries, other),
    decreases entries.len(),
{
    reveal_with_fuel(Seq::filter, 1);
    removing_keeps_the_order(entries, id);
    if entries.len() > 0 {
        let shorter = entries.drop_last();
        let last = entries.last();
        deleting_twice_is_a_no_op(shorter, id, other);
        let keep = |entry: Entry<D>| entry.id != id;
        let keep_other = |entry: Entry<D>| entry.id != other;
        if keep(last) {
            assert(without(entries, id).drop_last() =~= without(shorter, id));
            assert(without(entries, id).last() == last);
        }
        if keep_other(last) {
            assert(without(entries, other).drop_last() =~= without(shorter, other));
            assert(without(entries, other).last() == last);
        }
        assert(holds(entries, other) == (holds(shorter, other) || last.id == other)) by {
            if holds(entries, other) {
                let k = choose|k: int| 0 <= k < entries.len() && (#[trigger] entries[k]).id == other;
                if k < shorter.len() {
                    assert(shorter[k].id == other);
                }
            }
            if holds(shorter, other) {
                let k = choose|k: int| 0 <= k < shorter.len() && (#[trigger] shorter[k]).id == other;
                assert(entries[k].id == other);
            }
            if last.id == other {
                assert(entries[entries.len() - 1].id == other);
            }
        }
        let kept = without(shorter, id);
        let all = without(entries, id);
        assert(holds(all, other) == (holds(kept, other) || last.id == other)) by {
            if keep(last) {
                assert(all == kept.push(last));
                if holds(all, other) {
                    let k = choose|k: int| 0 <= k < all.len() && (#[trigger] all[k]).id == other;
                    if k < kept.len() {
                        assert(kept[k].id == other);
                    }
                }
                if holds(kept, other) {
                    let k = choose|k: int| 0 <= k < kept.len() && (#[trigger] kept[k]).id == other;
                    assert(all[k].id == other);
                }
                if last.id == other {
                    assert(all[all.len() - 1].id == other);
                }
            }
        }
    }
}

/// The file has the lines one after the other, each ended by a line feed, and nothing
/// else.
pub proof fn a_file_has_its_lines_in_order(a: Seq<Seq<char>>, b: Seq<Seq<char>>, line: Seq<char>)
    ensures
        file_of(a + b) == file_of(a) + file_of(b),
        file_of(seq![line]) == line.push('\n'),
        file_of(Seq::empty()).len() == 0,
    decreases b.len(),
{
    file_of_more(Seq::empty(), line);
    assert(Seq::empty().push(line) =~= seq![line]);
    assert(file_of(Seq::empty()) =~= Seq::empty());
    assert(file_of(Seq::empty()) + line.push('\n') =~= line.push('\n'));
    if b.len() == 0 {
        assert(a + b =~= a);
        assert(file_of(b) =~= Seq::empty());
        assert(file_of(a) + file_of(b) =~= file_of(a));
    } else {
        let shorter = b.drop_last();
        a_file_has_its_lines_in_order(a, shorter, line);
        file_of_more(a + shorter, b.last());
        file_of_more(shorter, b.last());
        assert(a + b =~= (a + shorter).push(b.last()));
        assert(b =~= shorter.push(b.last()));
        assert(file_of(a + b) =~= file_of(a) + file_of(b));
    }
}

/// The entries are written oldest first: the newest is the last line of the file.
pub proof fn the_newest_entry_is_written_last<D>(
    newest: Entry<D>,
    entries: Seq<Entry<D>>,
    encode: spec_fn(Entry<D>) -> Seq<char>,
)
    ensures
        saved(seq![newest] + entries, encode) == saved(entries, encode) + encode(newest).push('\n'),
{
    let older = entries.map_values(encode).reverse();
    let all = (seq![newest] + entries).map_values(encode).reverse();
    assert(all =~= older.push(encode(newest)));
    file_of_more(older, encode(newest));
}

/// Whether an entry was there to be removed is whether any goes by that id.
pub proof fn an_entry_is_there_by_its_id<D>(entries: Seq<Entry<D>>, entry: Entry<D>, id: i64)
    ensures
        holds(entries.push(entry), id) <==> entry.id == id || holds(entries, id),
        !holds(Seq::<Entry<D>>::empty(), id),
        !holds(without(entries, id), id),
        without(entries, id).len() < entries.len() <==> holds(entries, id),
    decreases entries.len(),
{
    let longer = entries.push(entry);
    assert(longer[entries.len() as int] == entry);
    if holds(entries, id) {
        let i = choose|i: int| 0 <= i < entries.len() && (#[trigger] entries[i]).id == id;
        assert(longer[i].id == id);
    }
    if holds(longer, id) && entry.id != id {
        let i = choose|i: int| 0 <= i < longer.len() && (#[trigger] longer[i]).id == id;
        assert(entries[i].id == id);
    }
    reveal_with_fuel(Seq::filter, 1);
    if entries.len() > 0 {
        let shorter = entries.drop_last();
        an_entry_is_there_by_its_id(shorter, entries.last(), id);
        assert(shorter.push(entries.last()) =~= entries);
        without_is_no_longer(shorter, id);
        let kept = without(shorter, id);
        let all = without(entries, id);
        if entries.last().id != id {
            assert(all =~= kept.push(entries.last()));
            if holds(all, id) {
                let i = choose|i: int| 0 <= i < all.len() && (#[trigger] all[i]).id == id;
                assert(kept[i].id == id);
            }
        } else {
            assert(all == kept);
        }
    }
}

proof fn without_is_no_longer<D>(entries: Seq<Entry<D>>, id: i64)
    ensures
        without(entries, id).len() <= entries.len(),
    decreases entries.len(),
{
    reveal_with_fuel(Seq::filter, 1);
    if entries.len() > 0 {
        without_is_no_longer(entries.drop_last(), id);
    }
}

} // verus!
