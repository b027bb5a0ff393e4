//! User configuration, read from `~/.config/yapper/config.toml`.
use vstd::prelude::*;
use vstd::utf8::{encode_scalar, encode_utf8};

use crate::models::{
    a_clamped_language_is_accepted, accepts, clamp_language, clamped, find, listed_at, offered,
    offers, Engine, Model, ModelView, DEFAULT,
};
use crate::path::{below, join};
use crate::text::{blank, only_blank_text_trims_to_nothing, same, trim, trimmed};

verus! {

/// `dirs::config_dir` says where the user keeps configuration, which rests on the
/// environment: nothing is claimed of the directory it names, nor of whether it
/// names one. The path comes back as its bytes, unchanged.
#[verifier::external_body]
fn config_base() -> Option<Vec<u8>> {
    match dirs::config_dir() {
        Some(path) => Some(path.into_os_string().into_encoded_bytes()),
        None => None,
    }
}

/// `dirs::data_dir` says where the user keeps data, which rests on the
/// environment: nothing is claimed of the directory it names, nor of whether it
/// names one. The path comes back as its bytes, unchanged.
#[verifier::external_body]
fn data_base() -> Option<Vec<u8>> {
    match dirs::data_dir() {
        Some(path) => Some(path.into_os_string().into_encoded_bytes()),
        None => None,
    }
}

/// Whether this is what the system said when it was asked where configuration goes.
pub closed spec fn config_base_says(base: Option<Seq<u8>>) -> bool {
    exists|found: Option<Vec<u8>>| #[trigger]
        call_ensures(config_base, (), found) && base == bytes_of(found)
}

/// Whether this is what the system said when it was asked where data goes.
pub closed spec fn data_base_says(base: Option<Seq<u8>>) -> bool {
    exists|found: Option<Vec<u8>>| #[trigger]
        call_ensures(data_base, (), found) && base == bytes_of(found)
}

/// A directory the system named, or the current one if it named none.
pub open spec fn base_or_here(base: Option<Seq<u8>>) -> Seq<u8> {
    match base {
        Some(base) => base,
        None => seq![0x2eu8],
    }
}

/// The contents of a path there may not be.
pub open spec fn bytes_of(path: Option<Vec<u8>>) -> Option<Seq<u8>> {
    match path {
        Some(path) => Some(path@),
        None => None,
    }
}

/// The directory models are kept in, below the one for data.
pub open spec fn models_dir_at(base: Option<Seq<u8>>) -> Seq<u8> {
    below(base_or_here(base), "yapper/models"@)
}

/// The directory models are kept in, below the one for data.
pub fn models_dir_in(base: Option<Vec<u8>>) -> (path: Vec<u8>)
    ensures
        path@ == models_dir_at(bytes_of(base)),
{
    let base = match base {
        Some(base) => base,
        None => vec![0x2e],
    };
    join(base.as_slice(), "yapper/models")
}

/// The directory models are kept in.
pub fn models_dir() -> (path: Vec<u8>)
    ensures
        exists|base: Option<Seq<u8>>|
            data_base_says(base) && path@ == #[trigger] models_dir_at(base),
{
    let base = data_base();
    assert(data_base_says(bytes_of(base)));
    models_dir_in(base)
}

/// The file settings are kept in, below the directory for configuration.
pub open spec fn config_path_at(base: Option<Seq<u8>>) -> Seq<u8> {
    below(base_or_here(base), "yapper/config.toml"@)
}

/// The file settings are kept in, below the directory for configuration.
pub fn config_path_in(base: Option<Vec<u8>>) -> (path: Vec<u8>)
    ensures
        path@ == config_path_at(bytes_of(base)),
{
    let base = match base {
        Some(base) => base,
        None => vec![0x2e],
    };
    join(base.as_slice(), "yapper/config.toml")
}

/// The file settings are kept in.
pub fn config_path() -> (path: Vec<u8>)
    ensures
        exists|base: Option<Seq<u8>>|
            config_base_says(base) && path@ == #[trigger] config_path_at(base),
{
    let base = config_base();
    assert(config_base_says(bytes_of(base)));
    config_path_in(base)
}

/// Where a model is looked for until another is named, given the directory models
/// are kept in.
pub fn default_model_path_in(models: &[u8]) -> (path: Vec<u8>)
    ensures
        path@ == below(models@, "ggml-base.en.bin"@),
{
    join(models, "ggml-base.en.bin")
}

/// Where a model is looked for until another is named.
pub fn default_model_path() -> (path: Vec<u8>)
    ensures
        exists|base: Option<Seq<u8>>|
            data_base_says(base) && path@ == below(
                #[trigger] models_dir_at(base),
                "ggml-base.en.bin"@,
            ),
{
    let models = models_dir();
    default_model_path_in(models.as_slice())
}

/// What one model has been told to listen for, and to write.
#[derive(Debug, Clone)]
pub struct Choice {
    /// The model's name in the catalogue.
    pub model: String,
    pub hears: String,
    pub writes: String,
}

/// The settings, but for the levels that silence is measured with.
#[derive(Debug, Clone)]
pub struct Config {
    /// Path to a ggml Whisper model.
    pub model_path: Vec<u8>,
    /// The model to transcribe with, by its name in the catalogue.
    pub model: String,
    /// The models that have been told a language of their own.
    pub choices: Vec<Choice>,
    /// ISO language code, or "auto" to let the model detect it.
    pub language: String,
    /// Translate to English instead of transcribing verbatim.
    pub translate: bool,
    /// Inference threads; 0 picks a sensible default from the CPU count.
    pub threads: u32,
    /// Put the transcript on the clipboard as soon as it arrives.
    pub copy_to_clipboard: bool,
    /// Type the transcript into the focused window (needs wtype).
    pub type_on_finish: bool,
    /// How many past transcripts to keep. Older ones fall off the end.
    pub history_limit: usize,
    /// Show a running transcript while you talk. Costs a re-transcription
    /// every half second, so it wants a GPU build to feel free.
    pub live_preview: bool,
    /// Pause anything that is playing while you dictate, and start it again
    /// afterwards. Speakers bleed into the microphone.
    pub pause_players: bool,
    /// Which microphone to record from, as a device id. Empty means whichever one
    /// the system calls default.
    pub input_device: String,
    /// Words to expect: names and jargon a model would otherwise guess at. Kept
    /// for a model that can be given context; the engines of the catalogue cannot.
    pub initial_prompt: String,
}

/// What the settings are before anyone changes one, but for the path of the
/// model.
pub open spec fn untouched(config: Config) -> bool {
    &&& config.model@ == DEFAULT@
    &&& config.choices@.len() == 0
    &&& config.language@ == "auto"@
    &&& !config.translate
    &&& config.threads == 0
    &&& config.copy_to_clipboard
    &&& !config.type_on_finish
    &&& config.history_limit == 200
    &&& config.live_preview
    &&& config.pause_players
    &&& config.input_device@ == ""@
    &&& config.initial_prompt@ == ""@
}

impl Default for Config {
    fn default() -> (config: Config)
        ensures
            untouched(config),
            exists|base: Option<Seq<u8>>|
                data_base_says(base) && config.model_path@ == below(
                    #[trigger] models_dir_at(base),
                    "ggml-base.en.bin"@,
                ),
    {
        Config {
            model_path: default_model_path(),
            model: DEFAULT.to_owned(),
            choices: Vec::new(),
            language: "auto".to_owned(),
            translate: false,
            threads: 0,
            copy_to_clipboard: true,
            type_on_finish: false,
            history_limit: 200,
            live_preview: true,
            pause_players: true,
            input_device: "".to_owned(),
            initial_prompt: "".to_owned(),
        }
    }
}

/// What a model has been told, if it has been told anything: the language to
/// listen for and the one to write.
pub open spec fn told(choices: Seq<Choice>, id: Seq<char>) -> Option<(Seq<char>, Seq<char>)>
    decreases choices.len(),
{
    if choices.len() == 0 {
        None
    } else if choices[0].model@ == id {
        Some((choices[0].hears@, choices[0].writes@))
    } else {
        told(choices.skip(1), id)
    }
}

proof fn told_first(choices: Seq<Choice>, id: Seq<char>, at: int)
    requires
        0 <= at <= choices.len(),
        forall|i: int| 0 <= i < at ==> (#[trigger] choices[i]).model@ != id,
    ensures
        told(choices, id) == told(choices.skip(at), id),
    decreases at,
{
    if at > 0 {
        let rest = choices.skip(1);
        assert forall|i: int| 0 <= i < at - 1 implies (#[trigger] rest[i]).model@ != id by {
            assert(rest[i] == choices[i + 1]);
        }
        told_first(rest, id, at - 1);
        assert(rest.skip(at - 1) =~= choices.skip(at));
    } else {
        assert(choices.skip(0) =~= choices);
    }
}

proof fn told_after_change(choices: Seq<Choice>, at: int, choice: Choice, id: Seq<char>)
    requires
        0 <= at < choices.len(),
        choices[at].model@ == choice.model@,
        forall|i: int| 0 <= i < at ==> (#[trigger] choices[i]).model@ != choice.model@,
    ensures
        told(choices.update(at, choice), id) == if id == choice.model@ {
            Some((choice.hears@, choice.writes@))
        } else {
            told(choices, id)
        },
    decreases at,
{
    let changed = choices.update(at, choice);
    if at == 0 {
        assert(changed.skip(1) =~= choices.skip(1));
    } else {
        let rest = choices.skip(1);
        assert(changed.skip(1) =~= rest.update(at - 1, choice));
        assert forall|i: int| 0 <= i < at - 1 implies (#[trigger] rest[i]).model@ != choice.model@ by {
            assert(rest[i] == choices[i + 1]);
        }
        told_after_change(rest, at - 1, choice, id);
    }
}

proof fn told_after_adding(choices: Seq<Choice>, choice: Choice, id: Seq<char>)
    requires
        forall|i: int| 0 <= i < choices.len() ==> (#[trigger] choices[i]).model@ != choice.model@,
    ensures
        told(choices.push(choice), id) == if id == choice.model@ {
            Some((choice.hears@, choice.writes@))
        } else {
            told(choices, id)
        },
    decreases choices.len(),
{
    let longer = choices.push(choice);
    if choices.len() == 0 {
        assert(longer.skip(1) =~= Seq::empty());
        assert(told(longer.skip(1), id) is None);
        assert(longer[0] == choice);
    } else {
        let rest = choices.skip(1);
        assert(longer.skip(1) =~= rest.push(choice));
        assert forall|i: int| 0 <= i < rest.len() implies (#[trigger] rest[i]).model@
            != choice.model@ by {
            assert(rest[i] == choices[i + 1]);
        }
        told_after_adding(rest, choice, id);
    }
}

impl Config {
    /// The language a model is to listen for: its own, or the one for all, as near
    /// as its engine can come to it.
    pub open spec fn heard(self, model: ModelView) -> Seq<char> {
        clamped(
            model.engine,
            match told(self.choices@, model.id) {
                Some((hears, _)) => hears,
                None => self.language@,
            },
        )
    }

    /// The language a model is to write. An engine that cannot translate writes
    /// what it hears.
    pub open spec fn written(self, model: ModelView) -> Seq<char> {
        if model.engine == Engine::Canary {
            match told(self.choices@, model.id) {
                Some((_, writes)) => clamped(model.engine, writes),
                None => if self.translate {
                    clamped(model.engine, "en"@)
                } else {
                    self.heard(model)
                },
            }
        } else {
            self.heard(model)
        }
    }

    /// The words to expect, as context for a model that can be given any. Empty
    /// means no prompt at all, rather than an empty one.
    pub fn prompt(&self) -> (prompt: Option<&str>)
        ensures
            prompt is None <==> blank(self.initial_prompt@),
            prompt matches Some(prompt) ==> prompt@ == trimmed(self.initial_prompt@),
    {
        proof {
            only_blank_text_trims_to_nothing(self.initial_prompt@);
        }
        let prompt = trim(self.initial_prompt.as_str());
        if prompt.is_empty() {
            None
        } else {
            Some(prompt)
        }
    }

    /// `None` means "auto-detect".
    pub fn language_code(&self) -> (code: Option<&str>)
        ensures
            code is None <==> self.language@ == ""@ || self.language@ == "auto"@,
            code matches Some(code) ==> code@ == self.language@,
    {
        let language = self.language.as_str();
        if same(language, "") || same(language, "auto") {
            None
        } else {
            Some(language)
        }
    }

    /// How many threads to transcribe with. `cores` is how many the machine says
    /// it has, if it says.
    pub fn thread_count(&self, cores: Option<usize>) -> (threads: i32)
        ensures
            threads == thread_count_of(self.threads, cores),
    {
        if self.threads > 0 {
            if self.threads <= 0x7fff_ffff {
                return self.threads as i32;
            }
            return (self.threads as i64 - 0x1_0000_0000) as i32;
        }
        let cores: usize = match cores {
            Some(cores) => cores,
            None => 4,
        };
        // More than eight is slower rather than faster, and the window has to stay
        // responsive.
        if cores <= 2 {
            1
        } else if cores > 8 {
            8
        } else {
            (cores - 1) as i32
        }
    }

    /// The model to transcribe with, if the catalogue has one of that name.
    pub fn model(&self) -> (found: Option<Model>)
        ensures
            match found {
                Some(model) => exists|at: int| #[trigger]
                    listed_at(self.model@, at) && model@ == offers()[at],
                None => forall|at: int| !#[trigger] listed_at(self.model@, at),
            },
    {
        find(self.model.as_str())
    }

    fn told_at(&self, model: &Model) -> (found: Option<usize>)
        ensures
            match found {
                Some(at) => {
                    &&& at < self.choices@.len()
                    &&& self.choices@[at as int].model@ == model.id@
                    &&& told(self.choices@, model.id@) == Some(
                        (self.choices@[at as int].hears@, self.choices@[at as int].writes@),
                    )
                    &&& forall|i: int|
                        0 <= i < at ==> (#[trigger] self.choices@[i]).model@ != model.id@
                },
                None => {
                    &&& told(self.choices@, model.id@) is None
                    &&& forall|i: int|
                        0 <= i < self.choices@.len() ==> (#[trigger] self.choices@[i]).model@
                            != model.id@
                },
            },
    {
        let count: usize = self.choices.len();
        let mut at: usize = 0;
        while at < count
            invariant
                count == self.choices@.len(),
                at <= count,
                forall|i: int| 0 <= i < at ==> (#[trigger] self.choices@[i]).model@ != model.id@,
            decreases count - at,
        {
            if same(self.choices[at].model.as_str(), model.id) {
                proof {
                    told_first(self.choices@, model.id@, at as int);
                }
                return Some(at);
            }
            at += 1;
        }
        proof {
            told_first(self.choices@, model.id@, count as int);
        }
        None
    }

    /// The language a model is to listen for, and the one it is to write, both of
    /// them ones its engine accepts.
    pub fn language(&self, model: &Model) -> (pair: (&'static str, &'static str))
        ensures
            pair.0@ == self.heard(model@),
            pair.1@ == self.written(model@),
    {
        match self.told_at(model) {
            Some(at) => {
                let hears = clamp_language(model.engine, self.choices[at].hears.as_str());
                if model.engine.can_translate() {
                    (hears, clamp_language(model.engine, self.choices[at].writes.as_str()))
                } else {
                    (hears, hears)
                }
            },
            None => {
                let hears = clamp_language(model.engine, self.language.as_str());
                if self.translate && model.engine.can_translate() {
                    (hears, clamp_language(model.engine, "en"))
                } else {
                    (hears, hears)
                }
            },
        }
    }

    /// Tell a model what to listen for and what to write.
    pub fn set_language(&mut self, model: &Model, hears: &str, writes: &str)
        ensures
            told(final(self).choices@, model.id@) == Some((hears@, writes@)),
            forall|id: Seq<char>|
                id != model.id@ ==> #[trigger] told(final(self).choices@, id) == told(
                    old(self).choices@,
                    id,
                ),
            *final(self) == (Config { choices: final(self).choices, ..*old(self) }),
    {
        let choice = Choice {
            model: model.id.to_owned(),
            hears: hears.to_owned(),
            writes: writes.to_owned(),
        };
        let ghost before = self.choices@;
        let ghost added = choice;
        match self.told_at(model) {
            Some(at) => {
                proof {
                    assert forall|id: Seq<char>| #[trigger]
                        told(before.update(at as int, added), id) == if id == model.id@ {
                            Some((hears@, writes@))
                        } else {
                            told(before, id)
                        } by {
                        told_after_change(before, at as int, added, id);
                    }
                }
                self.choices.set(at, choice);
            },
            None => {
                proof {
                    assert forall|id: Seq<char>| #[trigger]
                        told(before.push(added), id) == if id == model.id@ {
                            Some((hears@, writes@))
                        } else {
                            told(before, id)
                        } by {
                        told_after_adding(before, added, id);
                    }
                }
                self.choices.push(choice);
            },
        }
    }
}

/// How many threads to transcribe with: as many as were asked for, or all but one
/// of the cores, from one up to eight.
pub open spec fn thread_count_of(threads: u32, cores: Option<usize>) -> int {
    if threads > 0 {
        // More than a signed number holds comes out as one counted down from zero.
        if threads <= i32::MAX {
            threads as int
        } else {
            threads - 0x1_0000_0000
        }
    } else {
        let spare = match cores {
            Some(cores) => cores - 1,
            None => 3,
        };
        if spare < 1 {
            1
        } else if spare > 8 {
            8
        } else {
            spare
        }
    }
}

/// What a model has been told is what it hears, as near as its engine can come
/// to it; and no other model hears anything else for it.
pub proof fn a_language_told_is_the_language_heard(
    before: Config,
    after: Config,
    model: ModelView,
    hears: Seq<char>,
    writes: Seq<char>,
    other: ModelView,
)
    requires
        told(after.choices@, model.id) == Some((hears, writes)),
        forall|id: Seq<char>|
            id != model.id ==> #[trigger] told(after.choices@, id) == told(before.choices@, id),
        after == (Config { choices: after.choices, ..before }),
        other.id != model.id,
    ensures
        after.heard(model) == clamped(model.engine, hears),
        after.written(model) == if model.engine == Engine::Canary {
            clamped(model.engine, writes)
        } else {
            clamped(model.engine, hears)
        },
        after.heard(other) == before.heard(other),
        after.written(other) == before.written(other),
{
}

/// Whatever the settings say, a model that listens for a language is only ever
/// asked for one it accepts.
pub proof fn no_setting_stops_a_model_loading(config: Config, model: ModelView)
    requires
        offered(model.engine).len() > 0,
    ensures
        accepts(model.engine, config.heard(model)),
        accepts(model.engine, config.written(model)),
{
    match told(config.choices@, model.id) {
        Some((hears, writes)) => {
            a_clamped_language_is_accepted(model.engine, hears);
            a_clamped_language_is_accepted(model.engine, writes);
        },
        None => {
            a_clamped_language_is_accepted(model.engine, config.language@);
            a_clamped_language_is_accepted(model.engine, "en"@);
        },
    }
}

/// Everything is kept below the directory the system named, or below the current one if
/// it named none: the models in one place, the settings in another.
pub proof fn everything_is_kept_below_the_base(base: Seq<u8>)
    requires
        base.len() > 0,
        base.last() != 0x2f,
    ensures
        models_dir_at(Some(base)) == base + seq![0x2fu8] + encode_utf8("yapper/models"@),
        config_path_at(Some(base)) == base + seq![0x2fu8] + encode_utf8("yapper/config.toml"@),
        models_dir_at(None) == seq![0x2eu8, 0x2fu8] + encode_utf8("yapper/models"@),
        config_path_at(None) == seq![0x2eu8, 0x2fu8] + encode_utf8("yapper/config.toml"@),
{
    reveal_strlit("yapper/models");
    reveal_strlit("yapper/config.toml");
    let models = encode_utf8("yapper/models"@);
    let settings = encode_utf8("yapper/config.toml"@);
    assert(models[0] == 0x79 && settings[0] == 0x79) by {
        assert((0x79u32 & 0x7f) as u8 == 0x79) by (bit_vector);
        assert(encode_scalar('y' as u32) =~= seq![0x79u8]);
    }
    assert(models_dir_at(Some(base)) =~= base + seq![0x2fu8] + models);
    assert(config_path_at(Some(base)) =~= base + seq![0x2fu8] + settings);
    assert(models_dir_at(None) =~= seq![0x2eu8, 0x2fu8] + models);
    assert(config_path_at(None) =~= seq![0x2eu8, 0x2fu8] + settings);
}

/// Settings nobody touched: the model of the catalogue that needs no choosing, told
/// nothing of languages, with the transcript shown as it comes, copied but not typed,
/// the music stopped for it, and two hundred of them kept.
pub proof fn untouched_settings_are_these(config: Config)
    requires
        untouched(config),
    ensures
        config.model@ == DEFAULT@,
        config.choices@.len() == 0,
        config.language@ == "auto"@,
        !config.translate,
        config.threads == 0,
        config.copy_to_clipboard,
        !config.type_on_finish,
        config.history_limit == 200,
        config.live_preview,
        config.pause_players,
        config.input_device@.len() == 0,
        config.initial_prompt@.len() == 0,
{
    reveal_strlit("");
}

/// As many threads as were asked for are used. Where that is left open, one core is
/// left to the window, and never more than eight are used, nor none.
pub proof fn one_core_is_left_to_the_window(threads: u32, cores: usize)
    ensures
        0 < threads <= i32::MAX ==> thread_count_of(threads, Some(cores)) == threads
            && thread_count_of(threads, None) == threads,
        threads > i32::MAX ==> thread_count_of(threads, Some(cores)) + 0x1_0000_0000 == threads
            && thread_count_of(threads, None) + 0x1_0000_0000 == threads,
        2 <= cores <= 9 ==> thread_count_of(0, Some(cores)) + 1 == cores,
        cores < 2 ==> thread_count_of(0, Some(cores)) == 1,
        cores > 9 ==> thread_count_of(0, Some(cores)) == 8,
        thread_count_of(0, None) == 3,
{
}

/// A model has been told what the first choice for it says, and nothing where there is
/// none.
pub proof fn the_first_choice_counts(choices: Seq<Choice>, id: Seq<char>)
    ensures
        told(choices, id) is None <==> forall|i: int|
            0 <= i < choices.len() ==> (#[trigger] choices[i]).model@ != id,
        told(choices, id) matches Some(pair) ==> exists|at: int|
            0 <= at < choices.len() && (#[trigger] choices[at]).model@ == id && pair == (
                choices[at].hears@,
                choices[at].writes@,
            ) && forall|i: int| 0 <= i < at ==> (#[trigger] choices[i]).model@ != id,
    decreases choices.len(),
{
    if choices.len() > 0 && choices[0].model@ != id {
        let rest = choices.skip(1);
        the_first_choice_counts(rest, id);
        if told(choices, id) is Some {
            let at = choose|at: int|
                0 <= at < rest.len() && (#[trigger] rest[at]).model@ == id && told(choices, id)->0
                    == (rest[at].hears@, rest[at].writes@) && forall|i: int|
                    0 <= i < at ==> (#[trigger] rest[i]).model@ != id;
            assert(choices[at + 1] == rest[at]);
            assert forall|i: int| 0 <= i < at + 1 implies (#[trigger] choices[i]).model@ != id by {
                if i > 0 {
                    assert(choices[i] == rest[i - 1]);
                }
            }
        } else {
            assert forall|i: int| 0 <= i < choices.len() implies (#[trigger] choices[i]).model@
                != id by {
                if i > 0 {
                    assert(choices[i] == rest[i - 1]);
                }
            }
        }
    }
}

/// A model that was told nothing of its own goes by the language for all, and writes
/// what it hears; where everything is to be translated, and it can, it writes English.
pub proof fn a_model_that_was_told_nothing_goes_by_the_rest(config: Config, model: ModelView)
    requires
        forall|i: int|
            0 <= i < config.choices@.len() ==> (#[trigger] config.choices@[i]).model@ != model.id,
    ensures
        config.heard(model) == clamped(model.engine, config.language@),
        config.translate && model.engine is Canary ==> config.written(model) == clamped(
            model.engine,
            "en"@,
        ),
        !(config.translate && model.engine is Canary) ==> config.written(model) == config.heard(
            model,
        ),
{
    the_first_choice_counts(config.choices@, model.id);
}

} // verus!
