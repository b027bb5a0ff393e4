//! Pausing whatever is playing while you dictate.
//!
//! Anything coming out of the speakers goes into the microphone and ends up in
//! the transcript, so music is paused for the duration and put back afterwards.
//!
//! Players are found over MPRIS on the session bus.
use vstd::prelude::*;

use crate::text::{contents, same, starts_with};

verus! {

pub const MPRIS_PREFIX: &'static str = "org.mpris.MediaPlayer2.";

pub const MPRIS_PATH: &'static str = "/org/mpris/MediaPlayer2";

pub const PLAYER_INTERFACE: &'static str = "org.mpris.MediaPlayer2.Player";

/// Short: a wedged player must not hold up the start of a recording.
pub const TIMEOUT_MS: i32 = 500;

/// The players we paused, so only those get started again. Resuming everything
/// would start things the user had deliberately paused themselves.
#[derive(Debug)]
pub struct Paused {
    pub names: Vec<String>,
}

impl Default for Paused {
    fn default() -> (paused: Paused)
        ensures
            paused.names@.len() == 0,
    {
        Paused { names: Vec::new() }
    }
}

/// The players among the names on the bus, in the order they are listed.
pub open spec fn players_among(names: Seq<Seq<char>>) -> Seq<Seq<char>> {
    names.filter(|name: Seq<char>| MPRIS_PREFIX@.is_prefix_of(name))
}

/// Every MPRIS name among those on the bus. A bus that will not say has none.
pub fn players(listed: Option<Vec<String>>) -> (found: Vec<String>)
    ensures
        contents(found@) == match listed {
            Some(names) => players_among(contents(names@)),
            None => Seq::empty(),
        },
{
    let mut found: Vec<String> = Vec::new();
    assert(contents(found@) =~= Seq::empty());
    let names = match &listed {
        Some(names) => names,
        None => {
            return found;
        },
    };
    let ghost all = contents(names@);
    let ghost is_player = |name: Seq<char>| MPRIS_PREFIX@.is_prefix_of(name);
    let count: usize = names.len();
    let mut at: usize = 0;
    proof {
        reveal_with_fuel(Seq::filter, 1);
        assert(all.take(0).filter(is_player) =~= Seq::empty());
    }
    while at < count
        invariant
            listed == Some(*names),
            all == contents(names@),
            is_player == (|name: Seq<char>| MPRIS_PREFIX@.is_prefix_of(name)),
            count == names@.len(),
            at <= count,
            contents(found@) == all.take(at as int).filter(is_player),
        decreases count - at,
    {
        let ghost before = contents(found@);
        proof {
            reveal_with_fuel(Seq::filter, 1);
            assert(all.take(at + 1).drop_last() =~= all.take(at as int));
            assert(all.take(at + 1).last() == names@[at as int]@);
        }
        if starts_with(names[at].as_str(), MPRIS_PREFIX) {
            found.push(names[at].clone());
            assert(contents(found@) =~= before.push(names@[at as int]@));
        }
        at += 1;
    }
    assert(all.take(count as int) =~= all);
    found
}

/// Whether a player's status says that it is playing.
pub open spec fn playing(status: Option<Seq<char>>) -> bool {
    status == Some("Playing"@)
}

/// The contents of a status there may not be.
pub open spec fn status_text(status: Option<String>) -> Option<Seq<char>> {
    match status {
        Some(status) => Some(status@),
        None => None,
    }
}

/// Whether a player is playing. One that will not say is one we leave alone.
pub fn is_playing(status: &Option<String>) -> (yes: bool)
    ensures
        yes == playing(status_text(*status)),
{
    match status {
        Some(status) => same(status.as_str(), "Playing"),
        None => false,
    }
}

/// What one player answered: its status, and whether it paused when told to.
pub struct Answer {
    pub status: Option<Seq<char>>,
    pub paused: bool,
}

/// The players that were paused: those that were playing and did as they were
/// told.
pub open spec fn paused_of(names: Seq<Seq<char>>, answers: Seq<Answer>) -> Seq<Seq<char>>
    decreases answers.len(),
{
    if answers.len() == 0 || answers.len() > names.len() {
        Seq::empty()
    } else {
        let before = paused_of(names, answers.drop_last());
        let last = answers.last();
        if playing(last.status) && last.paused {
            before.push(names[answers.len() - 1])
        } else {
            before
        }
    }
}

/// Pausing every player that is playing, one player at a time.
pub struct Pausing {
    pub players: Vec<String>,
    /// How many have answered.
    pub asked: usize,
    pub paused: Vec<String>,
    /// What they answered.
    pub answers: Ghost<Seq<Answer>>,
}

impl Pausing {
    /// Whether the players paused so far are those that should have been.
    pub open spec fn valid(self) -> bool {
        &&& self.asked <= self.players@.len()
        &&& self.answers@.len() == self.asked
        &&& contents(self.paused@) == paused_of(contents(self.players@), self.answers@)
    }

    /// Start with the names on the bus, if there is one and it says.
    pub fn new(listed: Option<Vec<String>>) -> (pausing: Pausing)
        ensures
            pausing.valid(),
            pausing.asked == 0,
            contents(pausing.players@) == match listed {
                Some(names) => players_among(contents(names@)),
                None => Seq::empty(),
            },
    {
        let pausing = Pausing {
            players: players(listed),
            asked: 0,
            paused: Vec::new(),
            answers: Ghost(Seq::empty()),
        };
        assert(contents(pausing.paused@) =~= Seq::empty());
        pausing
    }

    /// The player to ask next whether it is playing.
    pub fn next(&self) -> (name: Option<&str>)
        requires
            self.valid(),
        ensures
            name is None <==> self.asked == self.players@.len(),
            name matches Some(name) ==> name@ == self.players@[self.asked as int]@,
    {
        if self.asked == self.players.len() {
            None
        } else {
            Some(self.players[self.asked].as_str())
        }
    }

    /// Take in what that player answered: its status, and, if it was playing and
    /// so was told to pause, whether it did.
    pub fn answered(&mut self, status: &Option<String>, paused: bool)
        requires
            old(self).valid(),
            old(self).asked < old(self).players@.len(),
        ensures
            final(self).valid(),
            final(self).players == old(self).players,
            final(self).asked == old(self).asked + 1,
            final(self).answers@ == old(self).answers@.push(
                (Answer { status: status_text(*status), paused }),
            ),
    {
        let ghost before = contents(self.paused@);
        let ghost told = self.answers@;
        let count: usize = self.players.len();
        assert(self.asked < count);
        if is_playing(status) && paused {
            self.paused.push(self.players[self.asked].clone());
            assert(contents(self.paused@) =~= before.push(self.players@[self.asked as int]@));
        }
        self.asked += 1;
        proof {
            let answer = Answer { status: status_text(*status), paused };
            self.answers@ = told.push(answer);
            assert(told.push(answer).drop_last() =~= told);
        }
    }

    /// Once every player has answered, the ones to start again afterwards.
    pub fn done(self) -> (paused: Paused)
        requires
            self.valid(),
        ensures
            contents(paused.names@) == paused_of(contents(self.players@), self.answers@),
    {
        Paused { names: self.paused }
    }
}

/// The players to start again: the ones we paused earlier.
pub fn resume(paused: Paused) -> (names: Vec<String>)
    ensures
        names@ == paused.names@,
{
    paused.names
}

/// Only a player that was playing, and that we paused ourselves, is started
/// again.
pub proof fn only_what_we_paused_is_resumed(names: Seq<Seq<char>>, answers: Seq<Answer>, name: Seq<char>)
    requires
        answers.len() <= names.len(),
    ensures
        paused_of(names, answers).contains(name) <==> exists|i: int|
            0 <= i < answers.len() && names[i] == name && playing((#[trigger] answers[i]).status)
                && answers[i].paused,
    decreases answers.len(),
{
    let all = paused_of(names, answers);
    if answers.len() > 0 {
        let shorter = answers.drop_last();
        let last = answers.len() - 1;
        only_what_we_paused_is_resumed(names, shorter, name);
        let before = paused_of(names, shorter);
        if all.contains(name) {
            let k = choose|k: int| 0 <= k < all.len() && all[k] == name;
            if k < before.len() {
                assert(before[k] == name);
                let i = choose|i: int|
                    0 <= i < shorter.len() && names[i] == name && playing(
                        (#[trigger] shorter[i]).status,
                    ) && shorter[i].paused;
                assert(answers[i] == shorter[i]);
            } else {
                assert(playing(answers[last].status));
            }
        }
        if exists|i: int|
            0 <= i < answers.len() && names[i] == name && playing((#[trigger] answers[i]).status)
                && answers[i].paused {
            let i = choose|i: int|
                0 <= i < answers.len() && names[i] == name && playing(
                    (#[trigger] answers[i]).status,
                ) && answers[i].paused;
            if i < last {
                assert(shorter[i] == answers[i]);
                assert(before.contains(name));
                let k = choose|k: int| 0 <= k < before.len() && before[k] == name;
                assert(all[k] == name);
            } else {
                assert(all[all.len() - 1] == name);
            }
        }
    }
}

/// A player is a name on the bus that starts as players' names do. All of them are
/// found, as often as they are listed and in that order.
pub proof fn players_go_by_their_names(a: Seq<Seq<char>>, b: Seq<Seq<char>>, name: Seq<char>)
    ensures
        players_among(a + b) == players_among(a) + players_among(b),
        players_among(Seq::empty()).len() == 0,
        players_among(seq!["org.mpris.MediaPlayer2."@ + name]) == seq![
            "org.mpris.MediaPlayer2."@ + name,
        ],
        !"org.mpris.MediaPlayer2."@.is_prefix_of(name) ==> players_among(seq![name]).len() == 0,
{
    let is_player = |name: Seq<char>| MPRIS_PREFIX@.is_prefix_of(name);
    Seq::filter_distributes_over_add(a, b, is_player);
    reveal_with_fuel(Seq::filter, 2);
    let prefix = "org.mpris.MediaPlayer2."@;
    let player = prefix + name;
    assert(player.take(prefix.len() as int) =~= prefix);
    assert(seq![player].drop_last() =~= Seq::empty());
    assert(seq![name].drop_last() =~= Seq::empty());
    assert(players_among(seq![player]) =~= seq![player]);
}

/// Pausing one player more adds it at the end if it was playing and paused, and changes
/// nothing if it was not playing or would not.
pub proof fn each_player_answers_for_itself(
    names: Seq<Seq<char>>,
    answers: Seq<Answer>,
    status: Seq<char>,
    paused: bool,
)
    requires
        answers.len() < names.len(),
    ensures
        paused_of(names, Seq::empty()).len() == 0,
        paused_of(names, answers.push(Answer { status: Some("Playing"@), paused: true }))
            == paused_of(names, answers).push(names[answers.len() as int]),
        status != "Playing"@ ==> paused_of(
            names,
            answers.push(Answer { status: Some(status), paused }),
        ) == paused_of(names, answers),
        paused_of(names, answers.push(Answer { status: None, paused })) == paused_of(names, answers),
        paused_of(names, answers.push(Answer { status: Some(status), paused: false })) == paused_of(
            names,
            answers,
        ),
{
    assert forall|answer: Answer| #[trigger] answers.push(answer).drop_last() == answers by {
        assert(answers.push(answer).drop_last() =~= answers);
    }
    assert(answers.push(Answer { status: None, paused }).drop_last() =~= answers);
    assert(answers.push(Answer { status: Some(status), paused }).drop_last() =~= answers);
    assert(answers.push(Answer { status: Some(status), paused: false }).drop_last() =~= answers);
    assert(answers.push(Answer { status: Some("Playing"@), paused: true }).drop_last()
        =~= answers);
}

} // verus!
