//! The window: a round record button with a row of bars dancing behind it, the
//! current status underneath, and the list of past transcripts below that.
//!
//! What is on the screen is drawn elsewhere. This is what decides: each thing that
//! can happen takes the session to its next state and says what is to be done
//! about it, in order.
use vstd::prelude::*;
use vstd::utf8::encode_utf8;

use crate::config::{told, Config};
use crate::history::mm_ss;
use crate::number::{decimal, two_digits};
use crate::picker::Change;
use crate::text::{characters, joined, same, string_of, trim, trimmed};
use crate::transcribe::Event;

verus! {

/// How often the signal flag and the recording clock are checked, in milliseconds.
/// The animation runs off the frame clock instead, so this can stay lazy.
pub const POLL_MS: u64 = 100;

/// How often "just now" is allowed to become "2 minutes ago", in seconds.
pub const RESTAMP_SECS: u64 = 30;

/// How often the running transcript is refreshed while recording, in
/// milliseconds. One preview is in flight at a time, so a slow pass just means
/// fewer updates.
pub const PREVIEW_EVERY_MS: u64 = 500;

/// Roughly three lines. The tail is what you want to read, not the beginning.
pub const PREVIEW_CHARS: usize = 150;

pub const LOADING: &'static str = "Loading model…";

pub const START_TOOLTIP: &'static str = "Start recording (Ctrl+Space)";

pub const RECORDING_HINT: &'static str = "Enter to finish · Escape to discard";

// --- what went wrong, and what to say ----------------------------------------

/// Why nothing can be recorded.
#[derive(Debug)]
pub enum Trouble {
    NoModel,
    WorkerStopped,
    Microphone(String),
}

impl Trouble {
    /// As it is shown.
    pub open spec fn shown(self) -> Seq<char> {
        match self {
            Trouble::NoModel => "no speech model"@,
            Trouble::WorkerStopped => "the transcription worker stopped"@,
            Trouble::Microphone(why) => why@,
        }
    }

    /// As it is shown.
    pub fn text(&self) -> (text: String)
        ensures
            text@ == self.shown(),
    {
        match self {
            Trouble::NoModel => "no speech model".to_owned(),
            Trouble::WorkerStopped => "the transcription worker stopped".to_owned(),
            Trouble::Microphone(why) => why.clone(),
        }
    }
}

/// Something to say to the user.
#[derive(Debug)]
pub enum Notice {
    MicrophoneUnavailable(String),
    NothingRecorded,
    Discarded,
    NoSpeech,
    TranscriptionFailed(String),
    CopyFailed(String),
    TypeFailed(String),
    NotSaved(String),
    Copied,
    Deleted,
    NotDeleted(String),
    /// The model could not be loaded.
    Model(String),
}

impl Notice {
    /// As it is said.
    pub open spec fn said(self) -> Seq<char> {
        match self {
            Notice::MicrophoneUnavailable(err) => "Microphone unavailable: "@ + err@,
            Notice::NothingRecorded => "Nothing was recorded"@,
            Notice::Discarded => "Recording discarded"@,
            Notice::NoSpeech => "No speech detected"@,
            Notice::TranscriptionFailed(err) => "Transcription failed: "@ + err@,
            Notice::CopyFailed(err) => "Copy failed: "@ + err@,
            Notice::TypeFailed(err) => err@,
            Notice::NotSaved(err) => "Could not save the recording: "@ + err@,
            Notice::Copied => "Copied to clipboard"@,
            Notice::Deleted => "Recording deleted"@,
            Notice::NotDeleted(err) => "Could not delete the recording: "@ + err@,
            Notice::Model(err) => err@,
        }
    }

    /// As it is said.
    pub fn text(&self) -> (text: String)
        ensures
            text@ == self.said(),
    {
        match self {
            Notice::MicrophoneUnavailable(err) => joined("Microphone unavailable: ", err.as_str()),
            Notice::NothingRecorded => "Nothing was recorded".to_owned(),
            Notice::Discarded => "Recording discarded".to_owned(),
            Notice::NoSpeech => "No speech detected".to_owned(),
            Notice::TranscriptionFailed(err) => joined("Transcription failed: ", err.as_str()),
            Notice::CopyFailed(err) => joined("Copy failed: ", err.as_str()),
            Notice::TypeFailed(err) => err.clone(),
            Notice::NotSaved(err) => joined("Could not save the recording: ", err.as_str()),
            Notice::Copied => "Copied to clipboard".to_owned(),
            Notice::Deleted => "Recording deleted".to_owned(),
            Notice::NotDeleted(err) => joined("Could not delete the recording: ", err.as_str()),
            Notice::Model(err) => err.clone(),
        }
    }
}

// --- the status line ---------------------------------------------------------

#[derive(Debug)]
pub enum State {
    /// Waiting for the model to finish loading.
    Loading,
    Idle,
    Recording,
    Working,
    /// Unrecoverable: no model, no microphone, and so on.
    Broken(Trouble),
}

/// The status line while recording.
pub open spec fn listening_line(secs: u32) -> Seq<char> {
    "Listening  "@ + (decimal((secs / 60) as nat) + ":"@ + two_digits((secs % 60) as nat))
}

/// The status line while recording.
pub fn listening(secs: u32) -> (text: String)
    ensures
        text@ == listening_line(secs),
{
    joined("Listening  ", mm_ss(secs).as_str())
}

/// What the status shows.
#[derive(Debug)]
pub struct Status {
    pub status: String,
    pub hint: &'static str,
    pub tooltip: &'static str,
    /// Whether the button spins.
    pub busy: bool,
    /// Whether the button can be pressed.
    pub can_record: bool,
    pub recording: bool,
    pub error: bool,
}

/// What the status shows. Quick capture has one way out, and the window's hints
/// don't describe it.
pub fn status(state: &State, quick: bool) -> (view: Status)
    ensures
        view.status@ == match *state {
            State::Loading => LOADING@,
            State::Idle => "Ready"@,
            State::Recording => listening_line(0),
            State::Working => "Transcribing…"@,
            State::Broken(trouble) => trouble.shown(),
        },
        view.hint@ == match *state {
            State::Loading => if quick {
                LOADING@
            } else {
                "Ready to record — the model is still loading"@
            },
            State::Idle => if quick {
                "Escape to close"@
            } else {
                "Ctrl+Space to talk"@
            },
            State::Recording => RECORDING_HINT@,
            State::Working => if quick {
                "Copying to the clipboard…"@
            } else {
                "Hang on"@
            },
            State::Broken(_) => if quick {
                "Escape to close"@
            } else {
                ""@
            },
        },
        view.tooltip@ == match *state {
            State::Loading => START_TOOLTIP@,
            State::Idle => START_TOOLTIP@,
            State::Recording => "Finish recording (Enter)"@,
            State::Working => "Transcribing"@,
            State::Broken(_) => "Unavailable"@,
        },
        view.busy == (*state is Loading || *state is Working),
        view.can_record == !(*state is Working || *state is Broken),
        view.recording == (*state is Recording),
        view.error == (*state is Broken),
{
    match state {
        State::Loading => Status {
            status: LOADING.to_owned(),
            hint: if quick {
                LOADING
            } else {
                "Ready to record — the model is still loading"
            },
            tooltip: START_TOOLTIP,
            busy: true,
            can_record: true,
            recording: false,
            error: false,
        },
        State::Idle => Status {
            status: "Ready".to_owned(),
            hint: if quick {
                "Escape to close"
            } else {
                "Ctrl+Space to talk"
            },
            tooltip: START_TOOLTIP,
            busy: false,
            can_record: true,
            recording: false,
            error: false,
        },
        State::Recording => Status {
            status: listening(0),
            hint: RECORDING_HINT,
            tooltip: "Finish recording (Enter)",
            busy: false,
            can_record: true,
            recording: true,
            error: false,
        },
        State::Working => Status {
            status: "Transcribing…".to_owned(),
            hint: if quick {
                "Copying to the clipboard…"
            } else {
                "Hang on"
            },
            tooltip: "Transcribing",
            busy: true,
            can_record: false,
            recording: false,
            error: false,
        },
        State::Broken(trouble) => Status {
            status: trouble.text(),
            hint: if quick {
                "Escape to close"
            } else {
                ""
            },
            tooltip: "Unavailable",
            busy: false,
            can_record: false,
            recording: false,
            error: true,
        },
    }
}

// --- the running transcript --------------------------------------------------

/// Where the first space is, or the end where there is none.
pub open spec fn first_space(s: Seq<char>) -> int
    decreases s.len(),
{
    if s.len() == 0 || s[0] == ' ' {
        0
    } else {
        1 + first_space(s.skip(1))
    }
}

/// Where a cut text starts to be shown: after its first space, as long as that is
/// within two dozen bytes, so as not to start in the middle of a word.
pub open spec fn shown_from(cut: Seq<char>) -> int {
    let at = first_space(cut);
    if at < cut.len() && encode_utf8(cut.take(at)).len() < 24 {
        at + 1
    } else {
        0
    }
}

/// The last of a text, cut at a word boundary where one is close by.
pub open spec fn tail_of(text: Seq<char>, max_chars: nat) -> Seq<char> {
    let inner = trimmed(text);
    if inner.len() <= max_chars {
        inner
    } else {
        let cut = inner.skip(inner.len() - max_chars);
        "…"@ + cut.skip(shown_from(cut))
    }
}

proof fn first_space_is(s: Seq<char>, at: int)
    requires
        0 <= at <= s.len(),
        at < s.len() ==> s[at] == ' ',
        forall|i: int| 0 <= i < at ==> s[i] != ' ',
    ensures
        first_space(s) == at,
    decreases at,
{
    if at > 0 {
        first_space_is(s.skip(1), at - 1);
    }
}

proof fn bytes_of_more(s: Seq<char>, c: char)
    ensures
        encode_utf8(s.push(c)).len() == encode_utf8(s).len() + encode_utf8(seq![c]).len(),
    decreases s.len(),
{
    if s.len() == 0 {
        assert(s.push(c) =~= seq![c]);
    } else {
        assert(s.push(c).drop_first() =~= s.drop_first().push(c));
        bytes_of_more(s.drop_first(), c);
    }
}

fn char_width(c: char) -> (bytes: usize)
    ensures
        bytes == encode_utf8(seq![c]).len(),
        1 <= bytes <= 4,
{
    proof {
        assert(seq![c].drop_first() =~= Seq::empty());
        reveal_with_fuel(encode_utf8, 2);
        vstd::utf8::char_is_scalar(c);
    }
    let n: u32 = c as u32;
    if n < 0x80 {
        1
    } else if n < 0x800 {
        2
    } else if n < 0x10000 {
        3
    } else {
        4
    }
}

/// The last `max_chars` or so of `text`, cut at a word boundary. The newest
/// words are the ones worth showing, so the start is what gets dropped.
pub fn tail(text: &str, max_chars: usize) -> (shown: String)
    ensures
        shown@ == tail_of(text@, max_chars as nat),
{
    let inner = trim(text);
    let chars = characters(inner);
    let count: usize = chars.len();
    if count <= max_chars {
        return inner.to_owned();
    }
    let from: usize = count - max_chars;
    let ghost cut = inner@.skip(from as int);
    let mut at: usize = from;
    let mut bytes: usize = 0;
    assert(cut.take(0) =~= Seq::empty());
    while at < count && chars[at] != ' ' && bytes < 24
        invariant
            chars@ == inner@,
            count == chars@.len(),
            cut == inner@.skip(from as int),
            from <= at <= count,
            bytes == encode_utf8(cut.take(at - from)).len(),
            bytes < 28,
            forall|i: int| 0 <= i < at - from ==> cut[i] != ' ',
        decreases count - at,
    {
        let step: usize = char_width(chars[at]);
        proof {
            assert(cut[at - from] == chars@[at as int]);
            assert(cut.take(at - from + 1) =~= cut.take(at - from).push(cut[at - from]));
            bytes_of_more(cut.take(at - from), cut[at - from]);
        }
        bytes += step;
        at += 1;
    }
    proof {
        if at < count && chars@[at as int] == ' ' {
            assert(cut[at - from] == ' ');
            first_space_is(cut, at - from);
        } else if at == count {
            first_space_is(cut, at - from);
        } else {
            space_is_no_nearer(cut, at - from);
        }
    }
    let start: usize = if at < count && chars[at] == ' ' && bytes < 24 {
        at + 1
    } else {
        from
    };
    let rest = string_of(chars.as_slice(), start, count);
    assert(rest@ =~= cut.skip(shown_from(cut)));
    joined("…", rest.as_str())
}

proof fn space_is_no_nearer(s: Seq<char>, at: int)
    requires
        0 <= at <= s.len(),
        forall|i: int| 0 <= i < at ==> s[i] != ' ',
    ensures
        at <= first_space(s) <= s.len(),
        encode_utf8(s.take(at)).len() <= encode_utf8(s.take(first_space(s))).len(),
    decreases s.len() - at,
{
    if at == s.len() || s[at] == ' ' {
        first_space_is(s, at);
    } else {
        space_is_no_nearer(s, at + 1);
        assert(s.take(at + 1) =~= s.take(at).push(s[at]));
        bytes_of_more(s.take(at), s[at]);
    }
}

/// A transcript that fits is shown whole; one that does not is shown from a word
/// on, and what is shown is always the end of it.
pub proof fn what_is_shown_is_the_end(text: Seq<char>, max_chars: nat)
    ensures
        trimmed(text).len() <= max_chars ==> tail_of(text, max_chars) == trimmed(text),
        trimmed(text).len() > max_chars ==> exists|rest: Seq<char>|
            tail_of(text, max_chars) == "…"@ + rest && #[trigger] rest.is_suffix_of(trimmed(text))
                && rest.len() <= max_chars,
{
    let inner = trimmed(text);
    if inner.len() > max_chars {
        let cut = inner.skip(inner.len() - max_chars);
        space_is_no_nearer(cut, 0);
        let rest = cut.skip(shown_from(cut));
        assert(rest =~= inner.skip(inner.len() - rest.len()));
        assert(rest.is_suffix_of(inner));
    }
}

// --- the session -------------------------------------------------------------

/// Something to be done.
#[derive(Debug)]
pub enum Action {
    /// Pause whatever is playing, and remember what that was.
    PausePlayers,
    /// Start again whatever was paused.
    ResumePlayers,
    OpenMicrophone,
    /// Shut the microphone and keep what it heard.
    FinishRecording,
    /// Shut the microphone and throw away what it heard.
    CloseMicrophone,
    /// Have what was heard transcribed.
    Transcribe,
    /// Have what has been heard so far transcribed.
    SendPreview,
    ClearPreview,
    ShowPreview(String),
    /// Claim the space for a running transcript, or give it up.
    PreviewSpace(bool),
    /// Show the status anew.
    Refresh,
    /// Show how long has been recorded, in seconds.
    Listening(u32),
    /// Start the bars moving.
    Animate,
    Toast(Notice),
    /// Say it where it can be looked up, as there may be nothing on the screen.
    Log(Notice),
    Copy(String),
    Type(String),
    /// Add a transcript to the history and select it.
    Remember(String),
    /// Hand focus to the button, and select nothing.
    FocusButton,
    /// Say that there is no model, and offer a way out.
    ModelUnavailable(String),
    HideBanner,
    /// Start a worker with the model that the settings name.
    StartWorker,
    /// Hand the settings to the worker.
    ApplySettings,
    SaveConfig,
    /// Read the history again, with the room the settings give it.
    ReloadHistory,
    CopySelected,
    DeleteSelected,
    Hide,
    Present,
    Quit,
}

/// What the window knows.
#[derive(Debug)]
pub struct Session {
    pub config: Config,
    /// Quick capture: record on open, copy on close, then hide.
    pub quick: bool,
    /// Set once we've decided to exit, so the close handler stops intervening.
    pub quitting: bool,
    /// What should happen to this particular capture. Set per capture rather
    /// than per process, because one resident process serves keybinds that
    /// want different things.
    pub types: bool,
    pub copies: bool,
    pub state: State,
    /// Whether the microphone is open.
    pub microphone: bool,
    /// One preview at a time: sending more only queues work behind the one
    /// that is already too old.
    pub preview_pending: bool,
    /// Bumped on every worker restart, so events from the model that was just
    /// replaced can be recognised and dropped.
    pub generation: u64,
    /// Whether the bars are moving. They stop once they settle, so an idle window
    /// costs nothing.
    pub animating: bool,
}

/// What comes of something: the session after it, and what is to be done.
pub struct Step {
    pub session: Session,
    pub actions: Seq<Action>,
}

/// Saying something. A quick capture panel is usually gone or going by the time
/// anything goes wrong, so it speaks where it can be looked up.
pub open spec fn reporting(quick: bool, notice: Notice) -> Action {
    if quick {
        Action::Log(notice)
    } else {
        Action::Toast(notice)
    }
}

/// Putting the panel away.
pub open spec fn retiring() -> Seq<Action> {
    seq![Action::Hide, Action::ClearPreview, Action::Refresh]
}

impl Session {
    /// Whether nothing is recorded without a microphone to record with.
    pub open spec fn valid(self) -> bool {
        self.state is Recording ==> self.microphone
    }

    /// Nothing comes of it.
    pub open spec fn unmoved(self) -> Step {
        Step { session: self, actions: Seq::empty() }
    }

    /// Quiet the room before opening the microphone rather than after, so the first
    /// moment of the recording is not the tail of a song.
    pub open spec fn starting(self) -> Step {
        Step {
            session: self,
            actions: if self.config.pause_players {
                seq![Action::PausePlayers, Action::OpenMicrophone]
            } else {
                seq![Action::OpenMicrophone]
            },
        }
    }

    /// The microphone has opened, so this is a recording.
    pub open spec fn opened(self) -> Step {
        let shown = seq![
            Action::ClearPreview,
            Action::PreviewSpace(self.config.live_preview),
            Action::Refresh,
        ];
        Step {
            session: Session {
                microphone: true,
                state: State::Recording,
                animating: true,
                ..self
            },
            actions: if self.animating {
                shown
            } else {
                shown.push(Action::Animate)
            },
        }
    }

    /// The microphone would not open. Nothing is going to be recorded, so the music
    /// comes back.
    pub open spec fn not_opened(self, err: String, trouble: String) -> Step {
        Step {
            session: Session { state: State::Broken(Trouble::Microphone(trouble)), ..self },
            actions: seq![
                Action::ResumePlayers,
                Action::Toast(Notice::MicrophoneUnavailable(err)),
                Action::Refresh,
            ],
        }
    }

    /// Finishing a recording, if there is one.
    pub open spec fn stopping(self) -> Step {
        Step {
            session: self,
            actions: if self.microphone {
                seq![Action::FinishRecording]
            } else {
                Seq::empty()
            },
        }
    }

    /// The microphone is shut, so the music can come back now rather than waiting
    /// for the transcript.
    pub open spec fn finished(self, empty: bool) -> Step {
        if empty {
            Step {
                session: Session { microphone: false, state: State::Idle, ..self },
                actions: seq![
                    Action::ResumePlayers,
                    Action::Refresh,
                    Action::Toast(Notice::NothingRecorded),
                ],
            }
        } else {
            Step {
                session: Session {
                    microphone: false,
                    preview_pending: false,
                    state: State::Working,
                    ..self
                },
                actions: if self.quick {
                    // Done with the screen the moment you finish; the process stays up
                    // only long enough to copy.
                    seq![Action::ResumePlayers, Action::Hide, Action::Refresh, Action::Transcribe]
                } else {
                    seq![Action::ResumePlayers, Action::Refresh, Action::Transcribe]
                },
            }
        }
    }

    /// Throwing the recording away, if there is one: no transcription, no clipboard,
    /// no history.
    pub open spec fn cancelled(self) -> Step {
        if !self.microphone {
            self.unmoved()
        } else {
            let shut = seq![
                Action::CloseMicrophone,
                Action::ResumePlayers,
                Action::ClearPreview,
                Action::Refresh,
            ];
            Step {
                session: Session {
                    microphone: false,
                    preview_pending: false,
                    state: State::Idle,
                    ..self
                },
                actions: if self.quick {
                    shut + retiring()
                } else {
                    shut.push(Action::Toast(Notice::Discarded))
                },
            }
        }
    }

    /// The panel is put away, but the process stays in memory, ready for the next
    /// keypress.
    pub open spec fn retired(self) -> Step {
        Step { session: Session { state: State::Idle, ..self }, actions: retiring() }
    }

    /// A key that starts and stops recording. Recording needs the microphone, not
    /// the model, so one pressed during the initial load starts capturing rather
    /// than being swallowed. The audio queues behind the load.
    pub open spec fn toggled(self) -> Step {
        match self.state {
            State::Idle => self.starting(),
            State::Loading => self.starting(),
            State::Recording => self.stopping(),
            _ => self.unmoved(),
        }
    }

    /// What is done with a transcript. Quick capture does what its flags asked for
    /// and nothing else; the window follows the settings. Asking for neither is a
    /// real answer: keep the transcript, touch nothing.
    pub open spec fn delivering(self, text: String) -> Seq<Action> {
        let copies = if self.quick {
            self.copies
        } else {
            self.config.copy_to_clipboard
        };
        let types = if self.quick {
            self.types
        } else {
            self.config.type_on_finish
        };
        let first: Seq<Action> = if copies {
            seq![Action::Copy(text)]
        } else {
            seq![]
        };
        if types {
            first.push(Action::Type(text))
        } else {
            first
        }
    }

    /// What is made of a transcript, or of there being nothing in it.
    pub open spec fn made_of(self, text: String) -> Seq<Action> {
        if text@.len() == 0 {
            seq![reporting(self.quick, Notice::NoSpeech)]
        } else {
            self.delivering(text) + seq![Action::ClearPreview, Action::Remember(text)]
        }
    }

    /// The capture is over, one way or another. Quick capture puts the panel away;
    /// the window just stays as it is.
    pub open spec fn over(self) -> Seq<Action> {
        if self.quick {
            retiring()
        } else {
            Seq::empty()
        }
    }

    /// Something the worker said. `visible` is whether the window is on the screen.
    pub open spec fn heard_of(self, event: Event, visible: bool) -> Step {
        match event {
            Event::ModelReady => if self.state is Loading {
                Step {
                    session: Session { state: State::Idle, ..self },
                    actions: seq![Action::Refresh, Action::FocusButton],
                }
            } else {
                // In quick capture we're already recording by now, so only the initial
                // wait is what this clears.
                Step { session: self, actions: seq![Action::FocusButton] }
            },
            Event::ModelFailed(err) => {
                let said = seq![
                    Action::Log(Notice::Model(err)),
                    Action::ModelUnavailable(err),
                    Action::Refresh,
                ];
                let gone = self.quick && !visible;
                Step {
                    session: Session {
                        state: State::Broken(Trouble::NoModel),
                        quitting: self.quitting || gone,
                        ..self
                    },
                    actions: if gone {
                        said.push(Action::Quit)
                    } else {
                        said
                    },
                }
            },
            Event::Preview(text) => Step {
                session: Session { preview_pending: false, ..self },
                // An empty preview means the pass failed or found nothing yet; keep
                // whatever was on screen rather than blinking it away.
                actions: if text@.len() > 0 && self.state is Recording {
                    seq![Action::ShowPreview(text)]
                } else {
                    Seq::empty()
                },
            },
            Event::Done(text) => Step {
                session: Session { state: State::Idle, ..self },
                actions: seq![Action::Refresh] + self.made_of(text) + self.over(),
            },
            Event::Failed(err) => Step {
                session: Session { state: State::Idle, ..self },
                actions: seq![
                    Action::Refresh,
                    reporting(self.quick, Notice::TranscriptionFailed(err)),
                ] + self.over(),
            },
        }
    }

    /// Closing a quick capture panel. On a layer surface Escape arrives as a
    /// close rather than a key we can intercept, so closing means the same
    /// thing Escape does: discard. Enter is how a recording is kept.
    ///
    /// A transcription already under way is not thrown away: the panel just
    /// goes, and the process lives until the text reaches the clipboard.
    pub open spec fn dismissed(self) -> Step {
        match self.state {
            State::Recording => self.cancelled(),
            State::Working => Step { session: self, actions: seq![Action::Hide] },
            _ => self.retired(),
        }
    }

    /// A later launch, arriving at the instance that is already running. Opening
    /// quick capture means starting a recording; that is the verb.
    pub open spec fn reopened(self) -> Step {
        if self.quick && self.state is Idle {
            Step { session: self, actions: seq![Action::Present] + self.starting().actions }
        } else {
            Step { session: self, actions: seq![Action::Present] }
        }
    }

    /// A worker has been started for another model. Mid-recording the microphone is
    /// still fine and the audio is still wanted; the model will have loaded by the
    /// time there is anything to transcribe.
    pub open spec fn restarted(self) -> Step {
        let next = Session {
            generation: (self.generation + 1) as u64,
            // The preview the old worker was running will never be answered now.
            preview_pending: false,
            ..self
        };
        if self.state is Recording {
            Step { session: next, actions: seq![Action::StartWorker, Action::HideBanner] }
        } else {
            Step {
                session: Session { state: State::Loading, ..next },
                actions: seq![Action::StartWorker, Action::HideBanner, Action::Refresh],
            }
        }
    }

    /// Preferences edited in the dialog. Everything is live, the model included: a
    /// different one is loaded there and then.
    pub open spec fn configured(self, config: Config) -> Step {
        let next = Session { config, ..self };
        let told = seq![Action::ApplySettings];
        let read = if config.history_limit != self.config.history_limit {
            told.push(Action::ReloadHistory)
        } else {
            told
        };
        let shown = if config.live_preview {
            read
        } else {
            read.push(Action::ClearPreview)
        };
        if config.model@ != self.config.model@ {
            Step {
                session: next.restarted().session,
                actions: shown + next.restarted().actions,
            }
        } else {
            Step { session: next, actions: shown }
        }
    }
}

fn report(quick: bool, notice: Notice) -> (action: Action)
    ensures
        action == reporting(quick, notice),
{
    if quick {
        Action::Log(notice)
    } else {
        Action::Toast(notice)
    }
}

fn add_retiring(actions: &mut Vec<Action>)
    ensures
        final(actions)@ == old(actions)@ + retiring(),
{
    actions.push(Action::Hide);
    actions.push(Action::ClearPreview);
    actions.push(Action::Refresh);
}

impl Session {
    /// A session that has just started, and is waiting for its model.
    pub fn new(config: Config, quick: bool, types: bool, copies: bool) -> (session: Session)
        ensures
            session == (Session {
                config,
                quick,
                quitting: false,
                types,
                copies,
                state: State::Loading,
                microphone: false,
                preview_pending: false,
                generation: 0,
                animating: false,
            }),
            session.valid(),
    {
        Session {
            config,
            quick,
            quitting: false,
            types,
            copies,
            state: State::Loading,
            microphone: false,
            preview_pending: false,
            generation: 0,
            animating: false,
        }
    }

    pub fn is_recording(&self) -> (yes: bool)
        ensures
            yes == (self.state is Recording),
    {
        match self.state {
            State::Recording => true,
            _ => false,
        }
    }

    /// Start recording.
    pub fn start_recording(&self) -> (actions: Vec<Action>)
        ensures
            actions@ == self.starting().actions,
    {
        let mut actions: Vec<Action> = Vec::new();
        if self.config.pause_players {
            actions.push(Action::PausePlayers);
        }
        actions.push(Action::OpenMicrophone);
        assert(actions@ =~= self.starting().actions);
        actions
    }

    /// Take in that the microphone opened.
    pub fn microphone_opened(&mut self) -> (actions: Vec<Action>)
        ensures
            *final(self) == old(self).opened().session,
            actions@ == old(self).opened().actions,
            final(self).valid(),
    {
        let mut actions: Vec<Action> = Vec::new();
        actions.push(Action::ClearPreview);
        actions.push(Action::PreviewSpace(self.config.live_preview));
        actions.push(Action::Refresh);
        if !self.animating {
            actions.push(Action::Animate);
        }
        self.microphone = true;
        self.state = State::Recording;
        self.animating = true;
        assert(actions@ =~= old(self).opened().actions);
        actions
    }

    /// Take in that the microphone would not open: why, in short and at length.
    pub fn microphone_failed(&mut self, err: String, trouble: String) -> (actions: Vec<Action>)
        ensures
            *final(self) == old(self).not_opened(err, trouble).session,
            actions@ == old(self).not_opened(err, trouble).actions,
            final(self).valid(),
    {
        let actions = vec![
            Action::ResumePlayers,
            Action::Toast(Notice::MicrophoneUnavailable(err)),
            Action::Refresh,
        ];
        self.state = State::Broken(Trouble::Microphone(trouble));
        assert(actions@ =~= old(self).not_opened(err, trouble).actions);
        actions
    }

    /// Finish the recording, if there is one.
    pub fn stop_recording(&self) -> (actions: Vec<Action>)
        ensures
            actions@ == self.stopping().actions,
    {
        let mut actions: Vec<Action> = Vec::new();
        if self.microphone {
            actions.push(Action::FinishRecording);
        }
        assert(actions@ =~= self.stopping().actions);
        actions
    }

    /// Take in that the recording is finished, and whether there is nothing in it.
    pub fn recording_finished(&mut self, empty: bool) -> (actions: Vec<Action>)
        ensures
            *final(self) == old(self).finished(empty).session,
            actions@ == old(self).finished(empty).actions,
            final(self).valid(),
    {
        let mut actions: Vec<Action> = Vec::new();
        actions.push(Action::ResumePlayers);
        self.microphone = false;
        if empty {
            self.state = State::Idle;
            actions.push(Action::Refresh);
            actions.push(Action::Toast(Notice::NothingRecorded));
        } else {
            if self.quick {
                actions.push(Action::Hide);
            }
            // Any preview still running is now pointless; the worker drops it.
            self.preview_pending = false;
            self.state = State::Working;
            actions.push(Action::Refresh);
            actions.push(Action::Transcribe);
        }
        assert(actions@ =~= old(self).finished(empty).actions);
        actions
    }

    /// Take in that the worker is no longer there to transcribe.
    pub fn worker_stopped(&mut self) -> (actions: Vec<Action>)
        ensures
            *final(self) == (Session { state: State::Broken(Trouble::WorkerStopped), ..*old(self) }),
            actions@ == seq![Action::Refresh],
            final(self).valid(),
    {
        self.state = State::Broken(Trouble::WorkerStopped);
        vec![Action::Refresh]
    }

    /// Ask for a refreshed running transcript, unless one is already being made.
    /// `long_enough` is whether there is something to work with: a model invents
    /// words from a fragment.
    pub fn request_preview(&mut self, long_enough: bool) -> (actions: Vec<Action>)
        ensures
            ({
                let due = old(self).state is Recording && old(self).config.live_preview && !old(
                    self,
                ).preview_pending && old(self).microphone && long_enough;
                &&& actions@ == if due {
                    seq![Action::SendPreview]
                } else {
                    Seq::empty()
                }
                &&& *final(self) == (Session {
                    preview_pending: old(self).preview_pending || due,
                    ..*old(self)
                })
            }),
            old(self).valid() ==> final(self).valid(),
    {
        let mut actions: Vec<Action> = Vec::new();
        if self.is_recording() && self.config.live_preview && !self.preview_pending
            && self.microphone && long_enough {
            self.preview_pending = true;
            actions.push(Action::SendPreview);
            assert(actions@ =~= seq![Action::SendPreview]);
        }
        actions
    }

    /// Throw the recording away. The only way to lose audio on purpose, which is why
    /// it is a key of its own rather than something a stray close does.
    pub fn cancel_recording(&mut self) -> (actions: Vec<Action>)
        ensures
            *final(self) == old(self).cancelled().session,
            actions@ == old(self).cancelled().actions,
            old(self).valid() ==> final(self).valid(),
    {
        let mut actions: Vec<Action> = Vec::new();
        if !self.microphone {
            return actions;
        }
        actions.push(Action::CloseMicrophone);
        actions.push(Action::ResumePlayers);
        actions.push(Action::ClearPreview);
        actions.push(Action::Refresh);
        self.microphone = false;
        self.preview_pending = false;
        self.state = State::Idle;
        if self.quick {
            add_retiring(&mut actions);
        } else {
            actions.push(Action::Toast(Notice::Discarded));
        }
        assert(actions@ =~= old(self).cancelled().actions);
        actions
    }

    /// Put the panel away but stay in memory, ready for the next keypress.
    pub fn retire(&mut self) -> (actions: Vec<Action>)
        ensures
            *final(self) == old(self).retired().session,
            actions@ == old(self).retired().actions,
            final(self).valid(),
    {
        let mut actions: Vec<Action> = Vec::new();
        add_retiring(&mut actions);
        self.state = State::Idle;
        assert(actions@ =~= retiring());
        actions
    }

    /// Start recording, or stop, or neither.
    pub fn toggle(&self) -> (actions: Vec<Action>)
        ensures
            *self == self.toggled().session,
            actions@ == self.toggled().actions,
    {
        match self.state {
            State::Idle => self.start_recording(),
            State::Loading => self.start_recording(),
            State::Recording => self.stop_recording(),
            _ => Vec::new(),
        }
    }

    fn add_delivery(&self, text: &String, actions: &mut Vec<Action>)
        ensures
            final(actions)@ == old(actions)@ + self.delivering(*text),
    {
        let copies = if self.quick {
            self.copies
        } else {
            self.config.copy_to_clipboard
        };
        let types = if self.quick {
            self.types
        } else {
            self.config.type_on_finish
        };
        if copies {
            actions.push(Action::Copy(text.clone()));
        }
        if types {
            actions.push(Action::Type(text.clone()));
        }
        assert(actions@ =~= old(actions)@ + self.delivering(*text));
    }

    fn finish_capture(&self, actions: &mut Vec<Action>)
        ensures
            final(actions)@ == old(actions)@ + self.over(),
    {
        if self.quick {
            add_retiring(actions);
        }
        assert(actions@ =~= old(actions)@ + self.over());
    }

    /// Take in something the worker said. `visible` is whether the window is on the
    /// screen.
    pub fn handle_event(&mut self, event: Event, visible: bool) -> (actions: Vec<Action>)
        ensures
            *final(self) == old(self).heard_of(event, visible).session,
            actions@ == old(self).heard_of(event, visible).actions,
            old(self).valid() ==> final(self).valid(),
    {
        match event {
            Event::ModelReady => self.model_ready(),
            Event::ModelFailed(err) => self.model_failed(err, visible),
            Event::Preview(text) => {
                let mut actions: Vec<Action> = Vec::new();
                self.preview_pending = false;
                if !text.as_str().is_empty() && self.is_recording() {
                    actions.push(Action::ShowPreview(text));
                }
                assert(actions@ =~= old(self).heard_of(Event::Preview(text), visible).actions);
                actions
            },
            Event::Done(text) => self.done(text),
            Event::Failed(err) => {
                let mut actions: Vec<Action> = Vec::new();
                self.state = State::Idle;
                actions.push(Action::Refresh);
                actions.push(report(self.quick, Notice::TranscriptionFailed(err)));
                self.finish_capture(&mut actions);
                assert(actions@ =~= old(self).heard_of(Event::Failed(err), visible).actions);
                actions
            },
        }
    }

    fn model_ready(&mut self) -> (actions: Vec<Action>)
        ensures
            *final(self) == old(self).heard_of(Event::ModelReady, true).session,
            actions@ == old(self).heard_of(Event::ModelReady, true).actions,
    {
        let mut actions: Vec<Action> = Vec::new();
        if let State::Loading = self.state {
            self.state = State::Idle;
            actions.push(Action::Refresh);
        }
        actions.push(Action::FocusButton);
        assert(actions@ =~= old(self).heard_of(Event::ModelReady, true).actions);
        actions
    }

    fn model_failed(&mut self, err: String, visible: bool) -> (actions: Vec<Action>)
        ensures
            *final(self) == old(self).heard_of(Event::ModelFailed(err), visible).session,
            actions@ == old(self).heard_of(Event::ModelFailed(err), visible).actions,
    {
        let mut actions: Vec<Action> = Vec::new();
        actions.push(Action::Log(Notice::Model(err.clone())));
        actions.push(Action::ModelUnavailable(err));
        actions.push(Action::Refresh);
        self.state = State::Broken(Trouble::NoModel);
        if self.quick && !visible {
            self.quitting = true;
            actions.push(Action::Quit);
        }
        assert(actions@ =~= old(self).heard_of(Event::ModelFailed(err), visible).actions);
        actions
    }

    fn add_made_of(&self, text: String, actions: &mut Vec<Action>)
        ensures
            final(actions)@ == old(actions)@ + self.made_of(text),
    {
        if text.as_str().is_empty() {
            actions.push(report(self.quick, Notice::NoSpeech));
            assert(actions@ =~= old(actions)@ + self.made_of(text));
        } else {
            self.add_delivery(&text, actions);
            let ghost sent = actions@;
            actions.push(Action::ClearPreview);
            actions.push(Action::Remember(text));
            assert(actions@ =~= sent + seq![Action::ClearPreview, Action::Remember(text)]);
            assert(actions@ =~= old(actions)@ + self.made_of(text));
        }
    }

    fn done(&mut self, text: String) -> (actions: Vec<Action>)
        ensures
            *final(self) == old(self).heard_of(Event::Done(text), true).session,
            actions@ == old(self).heard_of(Event::Done(text), true).actions,
    {
        let mut actions: Vec<Action> = vec![Action::Refresh];
        assert(actions@ =~= seq![Action::Refresh]);
        self.state = State::Idle;
        self.add_made_of(text, &mut actions);
        self.finish_capture(&mut actions);
        assert(self.delivering(text) == old(self).delivering(text));
        assert(self.made_of(text) == old(self).made_of(text));
        actions
    }

    /// Say something that went wrong with a transcript that was delivered.
    pub fn report(&self, notice: Notice) -> (action: Action)
        ensures
            action == reporting(self.quick, notice),
    {
        report(self.quick, notice)
    }

    /// Close a quick capture panel.
    pub fn dismiss(&mut self) -> (actions: Vec<Action>)
        ensures
            *final(self) == old(self).dismissed().session,
            actions@ == old(self).dismissed().actions,
            old(self).valid() ==> final(self).valid(),
    {
        match self.state {
            State::Recording => self.cancel_recording(),
            State::Working => {
                let actions = vec![Action::Hide];
                assert(actions@ =~= seq![Action::Hide]);
                actions
            },
            _ => self.retire(),
        }
    }

    /// Take in a later launch, arriving at the instance that is already running.
    pub fn reopen(&self) -> (actions: Vec<Action>)
        ensures
            *self == self.reopened().session,
            actions@ == self.reopened().actions,
    {
        let mut actions: Vec<Action> = vec![Action::Present];
        if let State::Idle = self.state {
            if self.quick {
                let mut more = self.start_recording();
                actions.append(&mut more);
            }
        }
        assert(actions@ =~= self.reopened().actions);
        actions
    }

    /// Start a capture on the process that is already running, for a launch that
    /// could not simply become it.
    pub fn start_capture(&mut self, typed: bool, copied: bool) -> (actions: Vec<Action>)
        ensures
            *final(self) == (Session { types: typed, copies: copied, ..*old(self) }),
            actions@ == final(self).reopened().actions,
            old(self).valid() ==> final(self).valid(),
    {
        self.types = typed;
        self.copies = copied;
        self.reopen()
    }

    /// Take in that the window is asked to close. Closing is how you finish a quick
    /// capture, so the panel goes away immediately but the process lives until the
    /// text is on the clipboard. `true` lets the window close.
    pub fn close_requested(&mut self) -> (answer: (bool, Vec<Action>))
        ensures
            answer.0 == (!old(self).quick || old(self).quitting),
            answer.0 ==> *final(self) == *old(self) && answer.1@.len() == 0,
            !answer.0 ==> *final(self) == old(self).dismissed().session && answer.1@ == old(
                self,
            ).dismissed().actions,
            old(self).valid() ==> final(self).valid(),
    {
        if !self.quick || self.quitting {
            return (true, Vec::new());
        }
        (false, self.dismiss())
    }

    /// Take in that recording was asked to be toggled from outside.
    pub fn toggle_requested(&self) -> (actions: Vec<Action>)
        ensures
            *self == self.toggled().session,
            actions@ == seq![Action::Present] + self.toggled().actions,
    {
        let mut actions: Vec<Action> = vec![Action::Present];
        let mut more = self.toggle();
        actions.append(&mut more);
        assert(actions@ =~= seq![Action::Present] + self.toggled().actions);
        actions
    }

    /// Keep the recording clock honest. `quiet` is whether the room has been quiet
    /// for as long as ends a recording; the recorder only counts silence after the
    /// first word, so this cannot be before anything has been said.
    pub fn clock(&self, elapsed: u32, quiet: bool) -> (actions: Vec<Action>)
        ensures
            actions@ == if !(self.state is Recording && self.microphone) {
                Seq::empty()
            } else if quiet {
                seq![Action::Listening(elapsed), Action::FinishRecording]
            } else {
                seq![Action::Listening(elapsed)]
            },
    {
        let mut actions: Vec<Action> = Vec::new();
        if self.is_recording() && self.microphone {
            actions.push(Action::Listening(elapsed));
            if quiet {
                actions.push(Action::FinishRecording);
            }
        }
        assert(actions@ =~= if !(self.state is Recording && self.microphone) {
            Seq::empty()
        } else if quiet {
            seq![Action::Listening(elapsed), Action::FinishRecording]
        } else {
            seq![Action::Listening(elapsed)]
        });
        actions
    }

    /// Whether to listen to a worker. A model being swapped leaves the old thread
    /// finishing whatever it was doing; its answers are for a model that is no
    /// longer in use, so they are dropped rather than pasted into the window.
    pub fn listens_to(&self, generation: u64) -> (listens: bool)
        ensures
            listens == (self.generation == generation),
    {
        self.generation == generation
    }

    /// Load a different model.
    pub fn use_model(&mut self) -> (actions: Vec<Action>)
        requires
            old(self).generation < u64::MAX,
        ensures
            *final(self) == old(self).restarted().session,
            actions@ == old(self).restarted().actions,
            old(self).valid() ==> final(self).valid(),
    {
        let mut actions: Vec<Action> = vec![Action::StartWorker, Action::HideBanner];
        self.generation += 1;
        self.preview_pending = false;
        if !self.is_recording() {
            self.state = State::Loading;
            actions.push(Action::Refresh);
        }
        assert(actions@ =~= old(self).restarted().actions);
        actions
    }

    /// Take in a choice made in the picker. A different model has to be loaded; a
    /// language it was told is picked up by the worker on the next transcription,
    /// which reloads the recognizer only if it has to.
    pub fn picker_changed(&mut self, change: Change) -> (actions: Vec<Action>)
        requires
            old(self).generation < u64::MAX,
        ensures
            match change {
                Change::Model(model) => if old(self).config.model@ == model.id@ {
                    *final(self) == *old(self) && actions@.len() == 0
                } else {
                    exists|next: Session| #[trigger]
                        renamed(*old(self), next, model.id@) && *final(self)
                            == next.restarted().session && actions@ == seq![Action::SaveConfig]
                            + next.restarted().actions
                },
                Change::Language { model, hears, writes } => {
                    &&& actions@ == seq![Action::SaveConfig, Action::ApplySettings]
                    &&& told(final(self).config.choices@, model.id@) == Some((hears@, writes@))
                    &&& forall|id: Seq<char>|
                        id != model.id@ ==> #[trigger] told(final(self).config.choices@, id)
                            == told(old(self).config.choices@, id)
                    &&& *final(self) == (Session {
                        config: Config {
                            choices: final(self).config.choices,
                            ..old(self).config
                        },
                        ..*old(self)
                    })
                },
            },
            old(self).valid() ==> final(self).valid(),
    {
        match change {
            Change::Model(model) => {
                if same(self.config.model.as_str(), model.id) {
                    return Vec::new();
                }
                self.config.model = model.id.to_owned();
                let ghost next = *self;
                assert(renamed(*old(self), next, model.id@));
                let mut actions: Vec<Action> = vec![Action::SaveConfig];
                let mut more = self.use_model();
                actions.append(&mut more);
                assert(actions@ =~= seq![Action::SaveConfig] + next.restarted().actions);
                actions
            },
            Change::Language { model, hears, writes } => {
                self.config.set_language(&model, hears, writes);
                let actions = vec![Action::SaveConfig, Action::ApplySettings];
                assert(actions@ =~= seq![Action::SaveConfig, Action::ApplySettings]);
                actions
            },
        }
    }

    /// Take on preferences edited in the dialog.
    #[verifier::spinoff_prover]
    pub fn apply_config(&mut self, config: Config) -> (actions: Vec<Action>)
        requires
            old(self).generation < u64::MAX,
        ensures
            *final(self) == old(self).configured(config).session,
            actions@ == old(self).configured(config).actions,
            old(self).valid() ==> final(self).valid(),
    {
        let mut actions: Vec<Action> = vec![Action::ApplySettings];
        let other_limit = config.history_limit != self.config.history_limit;
        let other_model = !same(config.model.as_str(), self.config.model.as_str());
        let ghost wanted = config;
        self.config = config;
        assert(actions@ =~= seq![Action::ApplySettings]);
        if other_limit {
            actions.push(Action::ReloadHistory);
        }
        if !self.config.live_preview {
            actions.push(Action::ClearPreview);
        }
        let ghost shown = actions@;
        if other_model {
            let ghost next = *self;
            assert(next == (Session { config: wanted, ..*old(self) }));
            let mut more = self.use_model();
            actions.append(&mut more);
            assert(actions@ =~= shown + next.restarted().actions);
            assert(*self == old(self).configured(wanted).session);
            assert(actions@ == old(self).configured(wanted).actions);
        } else {
            assert(actions@ == old(self).configured(wanted).actions);
        }
        actions
    }

    /// Take in that a frame was drawn, and whether the bars have settled. `false`
    /// stops asking for frames until the next recording.
    pub fn frame(&mut self, settled: bool) -> (goes_on: bool)
        ensures
            goes_on == !(settled && !(old(self).state is Recording)),
            *final(self) == (Session {
                animating: old(self).animating && goes_on,
                ..*old(self)
            }),
            old(self).valid() ==> final(self).valid(),
    {
        if settled && !self.is_recording() {
            self.animating = false;
            return false;
        }
        true
    }

    /// Start the bars moving, unless they already are.
    pub fn start_animating(&mut self) -> (starts: bool)
        ensures
            starts == !old(self).animating,
            *final(self) == (Session { animating: true, ..*old(self) }),
            old(self).valid() ==> final(self).valid(),
    {
        let starts = !self.animating;
        self.animating = true;
        starts
    }
}

/// Whether one session is another with a different model.
pub open spec fn renamed(before: Session, after: Session, id: Seq<char>) -> bool {
    &&& after.config.model@ == id
    &&& after == (Session {
        config: Config { model: after.config.model, ..before.config },
        ..before
    })
}

// --- keys --------------------------------------------------------------------

/// A key that means something.
#[derive(Debug, Clone, Copy, PartialEq, Eq, Structural)]
pub enum Key {
    /// Ctrl and the space bar.
    Toggle,
    Escape,
    /// Enter, or the space bar.
    Enter,
    /// Ctrl and C, rather than Enter: it works wherever the focus happens to be, and
    /// it cannot swallow Enter from a focused button the way a bare Return can.
    Copy,
    Delete,
}

impl Session {
    /// Whether a key is ours, or is left to the focused widget. While nothing is
    /// being recorded, Enter and Space are not ours, nor is Escape but in quick
    /// capture.
    pub open spec fn takes(self, key: Key) -> bool {
        match key {
            Key::Escape => self.quick || self.state is Recording,
            Key::Enter => self.state is Recording,
            _ => true,
        }
    }

    /// What comes of a key. Escape throws the recording away; Enter or Space keeps
    /// it. Two explicit endings, so neither can happen by accident.
    pub open spec fn pressed(self, key: Key) -> Step {
        if !self.takes(key) {
            self.unmoved()
        } else {
            match key {
                Key::Toggle => self.toggled(),
                Key::Escape => if self.quick {
                    self.dismissed()
                } else {
                    self.cancelled()
                },
                Key::Enter => self.stopping(),
                Key::Copy => Step { session: self, actions: seq![Action::CopySelected] },
                Key::Delete => Step { session: self, actions: seq![Action::DeleteSelected] },
            }
        }
    }

    /// Take in a key. `true` keeps it from the focused widget.
    pub fn press(&mut self, key: Key) -> (answer: (bool, Vec<Action>))
        ensures
            answer.0 == old(self).takes(key),
            *final(self) == old(self).pressed(key).session,
            answer.1@ == old(self).pressed(key).actions,
            old(self).valid() ==> final(self).valid(),
    {
        match key {
            Key::Toggle => (true, self.toggle()),
            Key::Escape => if self.quick {
                (true, self.dismiss())
            } else if self.is_recording() {
                (true, self.cancel_recording())
            } else {
                (false, Vec::new())
            },
            Key::Enter => if self.is_recording() {
                (true, self.stop_recording())
            } else {
                (false, Vec::new())
            },
            Key::Copy => {
                let actions = vec![Action::CopySelected];
                assert(actions@ =~= seq![Action::CopySelected]);
                (true, actions)
            },
            Key::Delete => {
                let actions = vec![Action::DeleteSelected];
                assert(actions@ =~= seq![Action::DeleteSelected]);
                (true, actions)
            },
        }
    }
}

// --- the list ----------------------------------------------------------------

/// Which entry a selected row shows, if a row is selected and there is an entry.
pub fn selected_entry(row: Option<usize>, entries: usize) -> (index: Option<usize>)
    ensures
        index == match row {
            Some(row) => if row < entries {
                Some(row)
            } else {
                None
            },
            None => None,
        },
{
    match row {
        Some(row) => if row < entries {
            Some(row)
        } else {
            None
        },
        None => None,
    }
}

/// Which row to select once the one at `index` is gone and `remaining` are left:
/// where the eye already is, the row that slid up into the deleted one's place, or
/// the new last row.
pub fn selection_after(index: usize, remaining: usize) -> (next: Option<usize>)
    ensures
        next == if remaining == 0 {
            None
        } else if index < remaining {
            Some(index)
        } else {
            Some((remaining - 1) as usize)
        },
{
    if remaining == 0 {
        None
    } else if index < remaining {
        Some(index)
    } else {
        Some(remaining - 1)
    }
}

/// What becomes of the list once an entry has been deleted, or was not there, or
/// could not be.
#[derive(Debug)]
pub struct Deletion {
    /// Whether to show the list anew, and which row to select then.
    pub rebuild: bool,
    pub next: Option<usize>,
    pub notice: Option<Notice>,
}

/// What becomes of the list once the entry at `index` has been deleted and
/// `remaining` are left.
pub fn deletion(removed: Result<bool, String>, index: usize, remaining: usize) -> (deletion:
    Deletion)
    ensures
        match removed {
            Ok(true) => {
                &&& deletion.rebuild
                &&& deletion.next == if remaining == 0 {
                    None
                } else if index < remaining {
                    Some(index)
                } else {
                    Some((remaining - 1) as usize)
                }
                &&& deletion.notice == Some(Notice::Deleted)
            },
            Ok(false) => !deletion.rebuild && deletion.next is None && deletion.notice is None,
            Err(err) => {
                &&& !deletion.rebuild
                &&& deletion.next is None
                &&& deletion.notice == Some(Notice::NotDeleted(err))
            },
        },
{
    match removed {
        Ok(true) => Deletion {
            rebuild: true,
            next: selection_after(index, remaining),
            notice: Some(Notice::Deleted),
        },
        Ok(false) => Deletion { rebuild: false, next: None, notice: None },
        Err(err) => Deletion { rebuild: false, next: None, notice: Some(Notice::NotDeleted(err)) },
    }
}

/// What to say once the selected transcript has been copied, or could not be.
pub fn copy_notice(copied: Result<(), String>) -> (notice: Notice)
    ensures
        notice == match copied {
            Ok(_) => Notice::Copied,
            Err(err) => Notice::CopyFailed(err),
        },
{
    match copied {
        Ok(_) => Notice::Copied,
        Err(err) => Notice::CopyFailed(err),
    }
}

/// Which of the buttons under the list can be pressed.
#[derive(Debug, Clone, Copy, PartialEq, Eq, Structural)]
pub struct Buttons {
    pub copy: bool,
    pub delete: bool,
    pub type_out: bool,
}

/// Which of the buttons under the list can be pressed.
pub fn buttons(selected: bool, can_type: bool) -> (buttons: Buttons)
    ensures
        buttons == (Buttons { copy: selected, delete: selected, type_out: selected && can_type }),
{
    Buttons { copy: selected, delete: selected, type_out: selected && can_type }
}

/// Which page stands where the list does.
pub fn list_page(entries: usize) -> (page: &'static str)
    ensures
        page@ == if entries == 0 {
            "empty"@
        } else {
            "list"@
        },
{
    if entries == 0 {
        "empty"
    } else {
        "list"
    }
}

/// What hangs over the button that types.
pub fn type_tooltip(can_type: bool) -> (text: &'static str)
    ensures
        text@ == if can_type {
            "Type the selected transcript into the focused window"@
        } else {
            "Install wtype to type into the focused window"@
        },
{
    if can_type {
        "Type the selected transcript into the focused window"
    } else {
        "Install wtype to type into the focused window"
    }
}

/// How large the window is, and what is in it.
#[derive(Debug, Clone, Copy, PartialEq, Eq, Structural)]
pub struct Layout {
    pub width: i32,
    pub height: i32,
    pub stage_height: i32,
    pub resizable: bool,
    /// Whether there is a list, a header and a menu.
    pub has_list: bool,
}

/// How large the window is: quick capture is a panel, with the bars and nothing
/// more.
pub fn layout(quick: bool) -> (layout: Layout)
    ensures
        layout == if quick {
            Layout {
                width: 460,
                height: 240,
                stage_height: 150,
                resizable: false,
                has_list: false,
            }
        } else {
            Layout {
                width: 560,
                height: 640,
                stage_height: 196,
                resizable: true,
                has_list: true,
            }
        },
{
    if quick {
        Layout { width: 460, height: 240, stage_height: 150, resizable: false, has_list: false }
    } else {
        Layout { width: 560, height: 640, stage_height: 196, resizable: true, has_list: true }
    }
}

// --- what the session keeps to -----------------------------------------------

/// Whether an action keeps anything of a recording: has it transcribed, or puts its
/// text anywhere.
pub open spec fn keeps(action: Action) -> bool {
    action is Transcribe || action is SendPreview || action is FinishRecording || action is Copy
        || action is Type || action is Remember
}

/// Throwing a recording away loses it: no transcription, no clipboard, no history.
pub proof fn a_discarded_recording_is_gone(session: Session)
    ensures
        forall|i: int|
            0 <= i < session.cancelled().actions.len() ==> !keeps(
                #[trigger] session.cancelled().actions[i],
            ),
        !session.cancelled().session.microphone,
        session.microphone ==> session.cancelled().session.state is Idle,
{
}

/// Escape throws a recording away and Enter keeps it, in the window and in quick
/// capture alike.
pub proof fn a_recording_ends_the_way_it_was_told_to(session: Session)
    requires
        session.valid(),
        session.state is Recording,
    ensures
        session.takes(Key::Escape) && session.pressed(Key::Escape) == session.cancelled(),
        session.takes(Key::Enter) && session.pressed(Key::Enter).actions
            == seq![Action::FinishRecording],
        session.pressed(Key::Toggle).actions == seq![Action::FinishRecording],
{
}

/// While nothing is being recorded, Enter and Space are left to the focused widget,
/// and so is Escape but in quick capture.
pub proof fn keys_are_not_swallowed(session: Session)
    requires
        !(session.state is Recording),
    ensures
        !session.takes(Key::Enter) && session.pressed(Key::Enter) == session.unmoved(),
        !session.quick ==> !session.takes(Key::Escape) && session.pressed(Key::Escape)
            == session.unmoved(),
{
}

/// Whenever the microphone is shut, or would not open, whatever was paused for it is
/// started again.
pub proof fn the_music_comes_back(session: Session, empty: bool, err: String, trouble: String)
    ensures
        session.finished(empty).actions.contains(Action::ResumePlayers),
        session.not_opened(err, trouble).actions.contains(Action::ResumePlayers),
        session.microphone ==> session.cancelled().actions.contains(Action::ResumePlayers),
        session.microphone && session.state is Recording ==> session.dismissed().actions.contains(
            Action::ResumePlayers,
        ),
{
    assert(session.finished(empty).actions[0] == Action::ResumePlayers);
    assert(session.not_opened(err, trouble).actions[0] == Action::ResumePlayers);
    if session.microphone {
        assert(session.cancelled().actions[1] == Action::ResumePlayers);
    }
}

/// A transcript that arrives is remembered, and put where it was asked for and
/// nowhere else.
pub proof fn a_transcript_goes_where_it_was_asked_to(session: Session, text: String, visible: bool)
    requires
        text@.len() > 0,
    ensures
        ({
            let actions = session.heard_of(Event::Done(text), visible).actions;
            let copies = if session.quick {
                session.copies
            } else {
                session.config.copy_to_clipboard
            };
            let types = if session.quick {
                session.types
            } else {
                session.config.type_on_finish
            };
            &&& actions.contains(Action::Remember(text))
            &&& actions.contains(Action::Copy(text)) == copies
            &&& actions.contains(Action::Type(text)) == types
            &&& forall|i: int|
                0 <= i < actions.len() ==> {
                    &&& (#[trigger] actions[i]) matches Action::Copy(other) ==> other == text
                    &&& actions[i] matches Action::Type(other) ==> other == text
                    &&& actions[i] matches Action::Remember(other) ==> other == text
                }
        }),
{
    let actions = session.heard_of(Event::Done(text), visible).actions;
    let sent = session.delivering(text);
    let count = sent.len() as int;
    assert(forall|i: int| 0 <= i < count ==> #[trigger] actions[1 + i] == sent[i]);
    assert(actions[1 + count] == Action::ClearPreview);
    assert(actions[2 + count] == Action::Remember(text));
    if session.copies && session.quick || session.config.copy_to_clipboard && !session.quick {
        assert(actions[1] == Action::Copy(text));
    }
    if session.types && session.quick || session.config.type_on_finish && !session.quick {
        assert(sent[count - 1] == Action::Type(text));
        assert(actions[count] == Action::Type(text));
    }
    assert forall|i: int| 0 <= i < actions.len() implies {
        &&& (#[trigger] actions[i]) matches Action::Copy(other) ==> other == text
        &&& actions[i] matches Action::Type(other) ==> other == text
        &&& actions[i] matches Action::Remember(other) ==> other == text
    } by {
        if 1 <= i <= count {
            assert(actions[1 + (i - 1)] == sent[i - 1]);
        } else if i > 2 + count {
            assert(actions[i] == session.over()[i - 3 - count]);
        }
    }
    if actions.contains(Action::Copy(text)) {
        let i = choose|i: int| 0 <= i < actions.len() && actions[i] == Action::Copy(text);
        if 1 <= i <= count {
            assert(actions[1 + (i - 1)] == sent[i - 1]);
        } else if i > 2 + count {
            assert(actions[i] == session.over()[i - 3 - count]);
        }
    }
    if actions.contains(Action::Type(text)) {
        let i = choose|i: int| 0 <= i < actions.len() && actions[i] == Action::Type(text);
        if 1 <= i <= count {
            assert(actions[1 + (i - 1)] == sent[i - 1]);
        } else if i > 2 + count {
            assert(actions[i] == session.over()[i - 3 - count]);
        }
    }
}

/// A transcription already under way is not thrown away: closing the panel hides it
/// and changes nothing else.
pub proof fn a_transcription_outlives_its_panel(session: Session)
    requires
        session.state is Working,
    ensures
        session.dismissed().session == session,
        session.dismissed().actions == seq![Action::Hide],
        session.toggled() == session.unmoved(),
{
}

/// Recording does not wait for the model: it can start while one is loading, and
/// goes on whether one arrives or another is loaded in its place.
pub proof fn recording_does_not_wait_for_the_model(session: Session, visible: bool)
    ensures
        session.state is Loading ==> session.toggled() == session.starting(),
        session.state is Recording ==> {
            &&& session.heard_of(Event::ModelReady, visible).session == session
            &&& session.restarted().session.state is Recording
            &&& session.restarted().session.microphone == session.microphone
        },
{
}

/// Once another model is in use, nothing its predecessors say is listened to.
pub proof fn an_old_model_is_not_listened_to(session: Session, generation: u64)
    requires
        session.generation < u64::MAX,
        generation <= session.generation,
    ensures
        session.restarted().session.generation != generation,
        session.restarted().session.generation > session.generation,
{
}

/// However a capture ends, quick capture puts the panel away and is ready for the
/// next keypress.
pub proof fn quick_capture_gets_out_of_the_way(session: Session, event: Event, visible: bool)
    requires
        session.quick,
        event is Done || event is Failed,
    ensures
        session.heard_of(event, visible).session.state is Idle,
        retiring().is_suffix_of(session.heard_of(event, visible).actions),
        session.heard_of(event, visible).session.reopened().actions
            == seq![Action::Present] + session.starting().actions,
{
    let actions = session.heard_of(event, visible).actions;
    assert(actions.skip(actions.len() - 3) =~= retiring());
}

/// What starts a recording: the music stops first where it is to, and the microphone
/// opens last. The key does it, and so does whatever asks from outside or opens quick
/// capture, whenever nothing is being recorded or worked on.
pub proof fn asking_for_a_recording_opens_the_microphone(session: Session)
    requires
        session.state is Idle || session.state is Loading,
    ensures
        ({
            let wanted = if session.config.pause_players {
                seq![Action::PausePlayers, Action::OpenMicrophone]
            } else {
                seq![Action::OpenMicrophone]
            };
            &&& session.takes(Key::Toggle)
            &&& session.pressed(Key::Toggle).actions == wanted
            &&& session.pressed(Key::Toggle).session == session
            &&& session.toggled().actions == wanted
            &&& session.toggled().session == session
            &&& session.starting().actions == wanted
            &&& session.starting().session == session
            &&& session.reopened().actions == if session.quick && session.state is Idle {
                seq![Action::Present] + wanted
            } else {
                seq![Action::Present]
            }
            &&& session.reopened().session == session
        }),
{
}

/// While it is recording, asking again keeps the recording, and a later launch only
/// shows the window; while it is working, or broken, asking does nothing.
pub proof fn asking_again_ends_the_recording(session: Session)
    requires
        session.valid(),
        !(session.state is Idle || session.state is Loading),
    ensures
        session.state is Recording ==> session.toggled().actions == seq![Action::FinishRecording],
        !(session.state is Recording) ==> session.toggled().actions.len() == 0,
        session.toggled().session == session,
        session.pressed(Key::Toggle).actions == session.toggled().actions,
        session.pressed(Key::Toggle).session == session,
        session.reopened().actions == seq![Action::Present],
        session.reopened().session == session,
        session.stopping().session == session,
        session.stopping().actions == if session.microphone {
            seq![Action::FinishRecording]
        } else {
            Seq::empty()
        },
{
}

/// Once the microphone is open this is a recording, with the last transcript cleared
/// away and the bars moving, and nothing else of the session is touched.
pub proof fn an_open_microphone_records(session: Session)
    ensures
        session.opened().session.state is Recording,
        session.opened().session.microphone,
        session.opened().session.animating,
        session.opened().session == (Session {
            state: session.opened().session.state,
            microphone: true,
            animating: true,
            ..session
        }),
        session.opened().actions.take(3) == seq![
            Action::ClearPreview,
            Action::PreviewSpace(session.config.live_preview),
            Action::Refresh,
        ],
        session.opened().actions.len() == if session.animating {
            3nat
        } else {
            4nat
        },
        !session.animating ==> session.opened().actions[3] == Action::Animate,
{
    assert(session.opened().actions.take(3) =~= seq![
        Action::ClearPreview,
        Action::PreviewSpace(session.config.live_preview),
        Action::Refresh,
    ]);
}

/// A microphone that would not open is said so, in the words it was refused with, and
/// leaves the session broken over it and otherwise as it was.
pub proof fn a_refused_microphone_is_reported(session: Session, err: String, trouble: String)
    ensures
        session.not_opened(err, trouble).session == (Session {
            state: State::Broken(Trouble::Microphone(trouble)),
            ..session
        }),
        session.not_opened(err, trouble).actions == seq![
            Action::ResumePlayers,
            Action::Toast(Notice::MicrophoneUnavailable(err)),
            Action::Refresh,
        ],
        State::Broken(Trouble::Microphone(trouble))->Broken_0.shown() == trouble@,
{
}

/// A recording that is kept is transcribed, and one with nothing in it is not: it is
/// said so, and the session waits for the next.
pub proof fn a_recording_that_is_kept_is_transcribed(session: Session)
    ensures
        ({
            let kept = session.finished(false);
            let lost = session.finished(true);
            &&& kept.session.state is Working
            &&& kept.actions.last() == Action::Transcribe
            &&& kept.actions == if session.quick {
                seq![Action::ResumePlayers, Action::Hide, Action::Refresh, Action::Transcribe]
            } else {
                seq![Action::ResumePlayers, Action::Refresh, Action::Transcribe]
            }
            &&& kept.session == (Session {
                state: State::Working,
                microphone: false,
                preview_pending: false,
                ..session
            })
            &&& lost.session == (Session { state: State::Idle, microphone: false, ..session })
            &&& lost.actions == seq![
                Action::ResumePlayers,
                Action::Refresh,
                Action::Toast(Notice::NothingRecorded),
            ]
        }),
{
}

/// A recording that is thrown away shuts the microphone and says so in the window; in
/// quick capture the panel goes. Without a microphone there is nothing to throw away.
pub proof fn a_recording_is_thrown_away_as_a_whole(session: Session)
    ensures
        !session.microphone ==> session.cancelled().session == session
            && session.cancelled().actions.len() == 0,
        session.microphone ==> {
            &&& session.cancelled().session == (Session {
                state: State::Idle,
                microphone: false,
                preview_pending: false,
                ..session
            })
            &&& session.cancelled().actions == seq![
                Action::CloseMicrophone,
                Action::ResumePlayers,
                Action::ClearPreview,
                Action::Refresh,
            ] + if session.quick {
                seq![Action::Hide, Action::ClearPreview, Action::Refresh]
            } else {
                seq![Action::Toast(Notice::Discarded)]
            }
        },
        session.retired().session == (Session { state: State::Idle, ..session }),
        session.retired().actions == seq![Action::Hide, Action::ClearPreview, Action::Refresh],
{
    if session.microphone && !session.quick {
        assert(session.cancelled().actions =~= seq![
            Action::CloseMicrophone,
            Action::ResumePlayers,
            Action::ClearPreview,
            Action::Refresh,
        ] + seq![Action::Toast(Notice::Discarded)]);
    }
}

/// Closing the panel throws a recording away, leaves work alone but for hiding it, and
/// otherwise puts the panel away.
pub proof fn closing_the_panel_means_escape(session: Session)
    requires
        session.valid(),
    ensures
        session.quick ==> session.takes(Key::Escape) && session.pressed(Key::Escape)
            == session.dismissed(),
        session.state is Recording ==> session.dismissed().actions.take(1) == seq![
            Action::CloseMicrophone,
        ] && session.dismissed().session == (Session {
            state: State::Idle,
            microphone: false,
            preview_pending: false,
            ..session
        }),
        session.state is Working ==> session.dismissed().actions == seq![Action::Hide]
            && session.dismissed().session == session,
        !(session.state is Recording || session.state is Working) ==> {
            &&& session.dismissed().session == (Session { state: State::Idle, ..session })
            &&& session.dismissed().actions == seq![
                Action::Hide,
                Action::ClearPreview,
                Action::Refresh,
            ]
        },
        session.takes(Key::Copy) && session.pressed(Key::Copy).actions == seq![
            Action::CopySelected,
        ] && session.pressed(Key::Copy).session == session,
        session.takes(Key::Delete) && session.pressed(Key::Delete).actions == seq![
            Action::DeleteSelected,
        ] && session.pressed(Key::Delete).session == session,
{
    if session.state is Recording {
        assert(session.dismissed().actions.take(1) =~= seq![Action::CloseMicrophone]);
    }
}

/// A model that is ready ends the wait for it, and only that; one that cannot be
/// loaded breaks the session, and ends the process too where nothing is on the screen
/// to say so.
pub proof fn a_model_ends_the_wait_for_it(session: Session, err: String, visible: bool)
    ensures
        ({
            let ready = session.heard_of(Event::ModelReady, visible);
            &&& session.state is Loading ==> ready.session == (Session {
                state: State::Idle,
                ..session
            }) && ready.actions == seq![Action::Refresh, Action::FocusButton]
            &&& !(session.state is Loading) ==> ready.session == session && ready.actions == seq![
                Action::FocusButton,
            ]
        }),
        ({
            let failed = session.heard_of(Event::ModelFailed(err), visible);
            let said = seq![
                Action::Log(Notice::Model(err)),
                Action::ModelUnavailable(err),
                Action::Refresh,
            ];
            &&& failed.session == (Session {
                state: State::Broken(Trouble::NoModel),
                quitting: failed.session.quitting,
                ..session
            })
            &&& session.quick && !visible ==> failed.session.quitting && failed.actions
                == said + seq![Action::Quit]
            &&& !(session.quick && !visible) ==> failed.session.quitting == session.quitting
                && failed.actions == said
        }),
{
    let said = seq![
        Action::Log(Notice::Model(err)),
        Action::ModelUnavailable(err),
        Action::Refresh,
    ];
    assert(said.push(Action::Quit) =~= said + seq![Action::Quit]);
}

/// A running transcript is shown while it is being recorded, and an empty one leaves
/// what is on the screen. Either way the next may be asked for.
pub proof fn a_preview_is_shown_while_recording(session: Session, text: String, visible: bool)
    ensures
        ({
            let step = session.heard_of(Event::Preview(text), visible);
            &&& step.session == (Session { preview_pending: false, ..session })
            &&& session.state is Recording && text@.len() > 0 ==> step.actions == seq![
                Action::ShowPreview(text),
            ]
            &&& !(session.state is Recording && text@.len() > 0) ==> step.actions.len() == 0
        }),
{
}

/// What goes wrong with a transcription is said, in its own words: where it can be
/// looked up in quick capture, on the screen in the window. So is silence, and neither
/// puts anything anywhere.
pub proof fn silence_and_failure_are_said(session: Session, err: String, empty: String, visible: bool)
    requires
        empty@.len() == 0,
    ensures
        ({
            let gone: Seq<Action> = if session.quick {
                seq![Action::Hide, Action::ClearPreview, Action::Refresh]
            } else {
                seq![]
            };
            let failed = session.heard_of(Event::Failed(err), visible);
            let silent = session.heard_of(Event::Done(empty), visible);
            &&& failed.session == (Session { state: State::Idle, ..session })
            &&& silent.session == (Session { state: State::Idle, ..session })
            &&& failed.actions == seq![
                Action::Refresh,
                if session.quick {
                    Action::Log(Notice::TranscriptionFailed(err))
                } else {
                    Action::Toast(Notice::TranscriptionFailed(err))
                },
            ] + gone
            &&& silent.actions == seq![
                Action::Refresh,
                if session.quick {
                    Action::Log(Notice::NoSpeech)
                } else {
                    Action::Toast(Notice::NoSpeech)
                },
            ] + gone
        }),
{
    let silent = session.heard_of(Event::Done(empty), visible);
    assert(silent.actions =~= seq![Action::Refresh, reporting(session.quick, Notice::NoSpeech)]
        + session.over());
}

/// Whatever there is to say is said once, as it is: where it can be looked up in quick
/// capture, on the screen in the window.
pub proof fn the_panel_speaks_to_the_log(session: Session, notice: Notice)
    ensures
        session.quick ==> reporting(session.quick, notice) == Action::Log(notice),
        !session.quick ==> reporting(session.quick, notice) == Action::Toast(notice),
{
}

/// A transcript with anything in it is copied, then typed, as far as either was asked
/// for, and remembered last; the panel of quick capture goes after that.
pub proof fn a_transcript_is_delivered_in_order(session: Session, text: String, visible: bool)
    requires
        text@.len() > 0,
    ensures
        ({
            let step = session.heard_of(Event::Done(text), visible);
            let copied: Seq<Action> = if (session.quick && session.copies) || (!session.quick
                && session.config.copy_to_clipboard) {
                seq![Action::Copy(text)]
            } else {
                seq![]
            };
            let typed: Seq<Action> = if (session.quick && session.types) || (!session.quick
                && session.config.type_on_finish) {
                seq![Action::Type(text)]
            } else {
                seq![]
            };
            let gone: Seq<Action> = if session.quick {
                seq![Action::Hide, Action::ClearPreview, Action::Refresh]
            } else {
                seq![]
            };
            &&& step.session == (Session { state: State::Idle, ..session })
            &&& step.actions == seq![Action::Refresh] + copied + typed + seq![
                Action::ClearPreview,
                Action::Remember(text),
            ] + gone
        }),
{
    let step = session.heard_of(Event::Done(text), visible);
    let copied: Seq<Action> = if (session.quick && session.copies) || (!session.quick
        && session.config.copy_to_clipboard) {
        seq![Action::Copy(text)]
    } else {
        seq![]
    };
    let typed: Seq<Action> = if (session.quick && session.types) || (!session.quick
        && session.config.type_on_finish) {
        seq![Action::Type(text)]
    } else {
        seq![]
    };
    assert(session.delivering(text) =~= copied + typed);
    assert(step.actions =~= seq![Action::Refresh] + copied + typed + seq![
        Action::ClearPreview,
        Action::Remember(text),
    ] + session.over());
}

/// Another model is loaded by another worker, counted one further, whose predecessor
/// has no preview left to answer. Nothing waits for it but what was not recording.
pub proof fn another_model_is_another_worker(session: Session)
    requires
        session.generation < u64::MAX,
    ensures
        ({
            let step = session.restarted();
            &&& step.session.generation == session.generation + 1
            &&& !step.session.preview_pending
            &&& step.session == (Session {
                generation: step.session.generation,
                preview_pending: false,
                state: step.session.state,
                ..session
            })
            &&& session.state is Recording ==> step.session.state == session.state && step.actions
                == seq![Action::StartWorker, Action::HideBanner]
            &&& !(session.state is Recording) ==> step.session.state is Loading && step.actions
                == seq![Action::StartWorker, Action::HideBanner, Action::Refresh]
        }),
{
}

/// Settings take effect at once: the worker is told of them, the history is read again
/// where there is room for more or fewer, a running transcript that is not wanted goes,
/// and another model is loaded, each only where it has to be.
pub proof fn settings_take_effect_at_once(session: Session, config: Config)
    requires
        session.generation < u64::MAX,
    ensures
        ({
            let step = session.configured(config);
            let read: Seq<Action> = if config.history_limit == session.config.history_limit {
                seq![]
            } else {
                seq![Action::ReloadHistory]
            };
            let cleared: Seq<Action> = if config.live_preview {
                seq![]
            } else {
                seq![Action::ClearPreview]
            };
            let loaded: Seq<Action> = if config.model@ == session.config.model@ {
                seq![]
            } else if session.state is Recording {
                seq![Action::StartWorker, Action::HideBanner]
            } else {
                seq![Action::StartWorker, Action::HideBanner, Action::Refresh]
            };
            &&& step.actions == seq![Action::ApplySettings] + read + cleared + loaded
            &&& step.session.config == config
            &&& config.model@ == session.config.model@ ==> step.session == (Session {
                config,
                ..session
            })
            &&& config.model@ != session.config.model@ ==> step.session.generation
                == session.generation + 1 && step.session.microphone == session.microphone && (
            session.state is Recording <==> step.session.state is Recording) && (step.session.state
                is Recording || step.session.state is Loading)
        }),
{
    let step = session.configured(config);
    let read: Seq<Action> = if config.history_limit == session.config.history_limit {
        seq![]
    } else {
        seq![Action::ReloadHistory]
    };
    let cleared: Seq<Action> = if config.live_preview {
        seq![]
    } else {
        seq![Action::ClearPreview]
    };
    let loaded: Seq<Action> = if config.model@ == session.config.model@ {
        seq![]
    } else if session.state is Recording {
        seq![Action::StartWorker, Action::HideBanner]
    } else {
        seq![Action::StartWorker, Action::HideBanner, Action::Refresh]
    };
    assert(step.actions =~= seq![Action::ApplySettings] + read + cleared + loaded);
}

/// Whether the last `left` characters of a text follow the first space among its last
/// `max_chars`, and fall short of them by two dozen at the most.
pub open spec fn follows_the_first_space(s: Seq<char>, max_chars: nat, left: nat) -> bool {
    &&& max_chars - 24 <= left < max_chars <= s.len()
    &&& s[s.len() - left - 1] == ' '
    &&& forall|i: int| s.len() - max_chars <= i < s.len() - left - 1 ==> s[i] != ' '
}

/// A transcript cut to fit is cut as little as a word asks for: all that fits of its
/// end is shown, or what follows a space less than two dozen characters into it.
pub proof fn little_is_cut_of_what_fits(text: Seq<char>, max_chars: nat)
    requires
        trimmed(text).len() > max_chars,
    ensures
        exists|rest: Seq<char>|
            tail_of(text, max_chars) == "…"@ + rest && #[trigger] rest.is_suffix_of(trimmed(text))
                && (rest.len() == max_chars || follows_the_first_space(
                trimmed(text),
                max_chars,
                rest.len(),
            )),
{
    let inner = trimmed(text);
    let cut = inner.skip(inner.len() - max_chars);
    first_space_is_where_it_is(cut);
    let at = first_space(cut);
    let rest = cut.skip(shown_from(cut));
    assert(rest =~= inner.skip(inner.len() - rest.len()));
    assert(rest.is_suffix_of(inner));
    if shown_from(cut) > 0 {
        every_character_has_bytes(cut.take(at));
        let from = inner.len() - rest.len();
        assert(inner[from - 1] == cut[at]);
        assert forall|i: int| inner.len() - max_chars <= i < from - 1 implies inner[i] != ' ' by {
            assert(inner[i] == cut[i - (inner.len() - max_chars)]);
        }
    }
}

proof fn first_space_is_where_it_is(s: Seq<char>)
    ensures
        0 <= first_space(s) <= s.len(),
        first_space(s) < s.len() ==> s[first_space(s)] == ' ',
        forall|i: int| 0 <= i < first_space(s) ==> s[i] != ' ',
    decreases s.len(),
{
    if s.len() > 0 && s[0] != ' ' {
        first_space_is_where_it_is(s.skip(1));
        assert forall|i: int| 0 <= i < first_space(s) implies s[i] != ' ' by {
            if i > 0 {
                assert(s[i] == s.skip(1)[i - 1]);
            }
        }
    }
}

proof fn every_character_has_bytes(s: Seq<char>)
    ensures
        s.len() <= encode_utf8(s).len(),
    decreases s.len(),
{
    if s.len() > 0 {
        every_character_has_bytes(s.drop_last());
        assert(s =~= s.drop_last().push(s.last()));
        bytes_of_more(s.drop_last(), s.last());
    }
}

/// What went wrong is said in the words it came with, at the end of what is said.
pub proof fn what_went_wrong_is_said_in_its_words(err: String)
    ensures
        err@.is_suffix_of(Notice::MicrophoneUnavailable(err).said()),
        err@.is_suffix_of(Notice::TranscriptionFailed(err).said()),
        err@.is_suffix_of(Notice::CopyFailed(err).said()),
        err@.is_suffix_of(Notice::NotSaved(err).said()),
        err@.is_suffix_of(Notice::NotDeleted(err).said()),
        Notice::TypeFailed(err).said() == err@,
        Notice::Model(err).said() == err@,
        Trouble::Microphone(err).shown() == err@,
        Notice::MicrophoneUnavailable(err).said() == "Microphone unavailable: "@ + err@,
        Notice::TranscriptionFailed(err).said() == "Transcription failed: "@ + err@,
        Notice::CopyFailed(err).said() == "Copy failed: "@ + err@,
        Notice::NotSaved(err).said() == "Could not save the recording: "@ + err@,
        Notice::NotDeleted(err).said() == "Could not delete the recording: "@ + err@,
        Notice::NothingRecorded.said() == "Nothing was recorded"@,
        Notice::Discarded.said() == "Recording discarded"@,
        Notice::NoSpeech.said() == "No speech detected"@,
        Notice::Copied.said() == "Copied to clipboard"@,
        Notice::Deleted.said() == "Recording deleted"@,
        Trouble::NoModel.shown() == "no speech model"@,
        Trouble::WorkerStopped.shown() == "the transcription worker stopped"@,
{
    let a = Notice::MicrophoneUnavailable(err).said();
    assert(a.skip(a.len() - err@.len()) =~= err@);
    let b = Notice::TranscriptionFailed(err).said();
    assert(b.skip(b.len() - err@.len()) =~= err@);
    let c = Notice::CopyFailed(err).said();
    assert(c.skip(c.len() - err@.len()) =~= err@);
    let d = Notice::NotSaved(err).said();
    assert(d.skip(d.len() - err@.len()) =~= err@);
    let e = Notice::NotDeleted(err).said();
    assert(e.skip(e.len() - err@.len()) =~= err@);
}

/// The recording clock shows minutes and seconds that come to what has gone by, with the
/// seconds below sixty and always in two digits.
pub proof fn the_clock_shows_what_has_gone_by(secs: u32)
    ensures
        exists|minutes: nat, rest: nat|
            listening_line(secs) == "Listening  "@ + (#[trigger] decimal(minutes) + ":"@
                + #[trigger] two_digits(rest)) && 60 * minutes + rest == secs && rest < 60,
{
    let minutes = (secs / 60) as nat;
    let rest = (secs % 60) as nat;
    assert(60 * minutes + rest == secs);
    assert(listening_line(secs) == "Listening  "@ + (decimal(minutes) + ":"@ + two_digits(rest)));
}

/// What is cut of a transcript to make it fit is cut up to its first space, as long as
/// that is less than two dozen bytes away, and otherwise where the room ends.
pub proof fn a_cut_is_made_at_a_word(text: Seq<char>, max_chars: nat, cut: Seq<char>, at: int)
    requires
        trimmed(text).len() > max_chars,
        cut.len() == max_chars,
        cut.is_suffix_of(trimmed(text)),
        0 <= at <= cut.len(),
        at < cut.len() ==> cut[at] == ' ',
        forall|i: int| 0 <= i < at ==> cut[i] != ' ',
    ensures
        at < cut.len() && encode_utf8(cut.take(at)).len() < 24 ==> tail_of(text, max_chars)
            == "…"@ + cut.skip(at + 1),
        !(at < cut.len() && encode_utf8(cut.take(at)).len() < 24) ==> tail_of(text, max_chars)
            == "…"@ + cut,
{
    let inner = trimmed(text);
    assert(cut =~= inner.skip(inner.len() - max_chars));
    first_space_is(cut, at);
    assert(cut.skip(0) =~= cut);
}

/// Whatever asks for a recording gets one, or keeps the one there is: the key, and what
/// asks from outside, which shows the window first.
pub proof fn asking_is_answered_with_the_microphone(
    session: Session,
    actions: Vec<Action>,
    outside: Vec<Action>,
)
    requires
        session.valid(),
        call_ensures(Session::toggle, (&session,), actions),
        call_ensures(Session::toggle_requested, (&session,), outside),
    ensures
        session.state is Idle || session.state is Loading ==> actions@ == if session.config.pause_players {
            seq![Action::PausePlayers, Action::OpenMicrophone]
        } else {
            seq![Action::OpenMicrophone]
        },
        session.state is Recording ==> actions@ == seq![Action::FinishRecording],
        session.state is Working || session.state is Broken ==> actions@.len() == 0,
        outside@ == seq![Action::Present] + actions@,
{
    if session.state is Idle || session.state is Loading {
        asking_for_a_recording_opens_the_microphone(session);
    } else {
        asking_again_ends_the_recording(session);
    }
}

/// The button can be pressed exactly where pressing it does something, and says that it
/// is recording exactly where pressing it ends the recording.
pub proof fn the_button_is_there_to_be_pressed(session: Session, view: Status)
    requires
        session.valid(),
        call_ensures(status, (&session.state, session.quick), view),
    ensures
        view.can_record <==> session.toggled().actions.len() > 0,
        view.recording <==> session.toggled().actions == seq![Action::FinishRecording],
        view.recording ==> view.can_record && !view.busy,
        view.error ==> !view.can_record && !view.busy && !view.recording,
        view.busy ==> !view.recording,
{
    if session.state is Idle || session.state is Loading {
        asking_for_a_recording_opens_the_microphone(session);
        assert(session.toggled().actions.last() == Action::OpenMicrophone);
    } else {
        asking_again_ends_the_recording(session);
    }
    assert(seq![Action::FinishRecording].last() == Action::FinishRecording);
}

/// While it records, the clock goes on, and silence that has lasted ends the recording as
/// the key would; while it does not, neither happens.
pub proof fn silence_ends_a_recording_as_the_key_does(
    session: Session,
    elapsed: u32,
    quiet: bool,
    actions: Vec<Action>,
)
    requires
        session.valid(),
        call_ensures(Session::clock, (&session, elapsed, quiet), actions),
    ensures
        session.state is Recording ==> actions@ == seq![Action::Listening(elapsed)] + if quiet {
            session.toggled().actions
        } else {
            Seq::empty()
        },
        !(session.state is Recording) ==> actions@.len() == 0,
{
    if session.state is Recording {
        asking_again_ends_the_recording(session);
        assert(actions@ =~= seq![Action::Listening(elapsed)] + if quiet {
            session.toggled().actions
        } else {
            Seq::empty()
        });
    }
}

/// The row selected once one is gone is a row there is, the one in its place or the one
/// before it, as long as there is any.
pub proof fn the_selection_stays_where_it_was(index: usize, remaining: usize, next: Option<usize>)
    requires
        index <= remaining,
        call_ensures(selection_after, (index, remaining), next),
    ensures
        next is None <==> remaining == 0,
        next matches Some(row) ==> row < remaining && row <= index && index <= row + 1,
        index < remaining ==> next == Some(index),
{
}

} // verus!
