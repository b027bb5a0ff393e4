//! Inference on a dedicated worker thread.
//!
//! Loading a model takes a moment and holding it costs memory, so it lives on
//! its own thread for the life of the process. The window talks to it over
//! channels.
//!
//! sherpa-onnx bakes the language and the thread count into a recognizer when
//! it is built, so changing one reloads the model: under a second, and only
//! when the setting actually moves.
use vstd::prelude::*;
use vstd::utf8::{encode_utf8, valid_utf8};

use crate::audio::TARGET_RATE;
use crate::config::{thread_count_of, Config};
use crate::models::{
    file_in, is_installed, listed_at, offers, there, Engine, Metadata, Model,
};
use crate::path::{as_text, below};
use crate::text::{
    blank, characters, joined, joined3, only_blank_text_trims_to_nothing, trim, trimmed,
    trimming_is_settled, trimming_takes_only_white_space, white_space,
};

verus! {

/// Work sent from the window to the worker. `A` is audio.
#[derive(Debug)]
pub enum Request<A> {
    /// A running transcript of speech so far, while the user is still talking.
    /// Disposable: accuracy matters less than keeping up.
    Preview(A),
    /// The real thing, once recording has stopped.
    Transcribe(A),
}

/// Progress reported back to the window.
#[derive(Debug)]
pub enum Event {
    ModelReady,
    ModelFailed(String),
    /// A live transcript, superseded by the next one and finally by `Done`.
    Preview(String),
    Done(String),
    Failed(String),
}

/// The settings a running worker consults for each job, so that preferences take
/// effect on the next transcription rather than on restart. `L` is what loudness
/// is measured in.
#[derive(Debug, Clone)]
pub struct Settings<L> {
    pub silence_threshold: L,
    /// The language the chosen model listens for, and the one it writes.
    /// Already clamped to codes its engine accepts, so nothing the file says
    /// can stop a model loading.
    pub hears: String,
    pub writes: String,
    pub threads: i32,
}

impl<L> Settings<L> {
    /// The settings for the chosen model. `cores` is how many the machine says it
    /// has, if it says.
    pub fn from_config(config: &Config, silence_threshold: L, cores: Option<usize>) -> (settings:
        Self)
        ensures
            settings.silence_threshold == silence_threshold,
            settings.threads == thread_count_of(config.threads, cores),
            forall|at: int| #[trigger]
                listed_at(config.model@, at) ==> {
                    &&& settings.hears@ == config.heard(offers()[at])
                    &&& settings.writes@ == config.written(offers()[at])
                },
            (forall|at: int| !#[trigger] listed_at(config.model@, at)) ==> settings.hears@ == "en"@
                && settings.writes@ == "en"@,
    {
        let pair = match config.model() {
            Some(model) => {
                proof {
                    assert forall|at: int| #[trigger] listed_at(config.model@, at) implies model@
                        == offers()[at] by {
                        let found = choose|found: int| #[trigger]
                            listed_at(config.model@, found) && model@ == offers()[found];
                        crate::models::no_two_models_share_an_id(config.model@, at, found);
                    }
                }
                config.language(&model)
            },
            // No model, so nothing will be asked of these.
            None => ("en", "en"),
        };
        Settings {
            silence_threshold,
            hears: pair.0.to_owned(),
            writes: pair.1.to_owned(),
            threads: config.thread_count(cores),
        }
    }
}

/// What to say when there is no model of the name that was asked for.
pub fn missing_model(setting: &str) -> (message: String)
    ensures
        message@ == if setting@.len() == 0 {
            "no model chosen yet. Pick one and yapper will download it."@
        } else {
            "no model called "@ + setting@ + ". Pick one and yapper will download it."@
        },
{
    if setting.is_empty() {
        "no model chosen yet. Pick one and yapper will download it.".to_owned()
    } else {
        joined3("no model called ", setting, ". Pick one and yapper will download it.")
    }
}

// --- what is baked in --------------------------------------------------------

/// The settings a recognizer cannot be told about after it is built.
#[derive(Debug, Eq, Clone)]
pub struct Baked {
    pub hears: String,
    pub writes: String,
    pub threads: i32,
}

impl PartialEq for Baked {
    fn eq(&self, other: &Baked) -> (equal: bool) {
        self.hears == other.hears && self.writes == other.writes && self.threads == other.threads
    }
}

impl vstd::std_specs::cmp::PartialEqSpecImpl for Baked {
    open spec fn obeys_eq_spec() -> bool {
        true
    }

    open spec fn eq_spec(&self, other: &Baked) -> bool {
        self.hears@ == other.hears@ && self.writes@ == other.writes@ && self.threads
            == other.threads
    }
}

/// Whether a recognizer was built for these settings.
pub open spec fn built_for<L>(baked: Baked, settings: Settings<L>) -> bool {
    &&& baked.hears@ == settings.hears@
    &&& baked.writes@ == settings.writes@
    &&& baked.threads == settings.threads
}

impl Baked {
    pub fn of<L>(settings: &Settings<L>) -> (baked: Baked)
        ensures
            built_for(baked, *settings),
    {
        Baked {
            hears: settings.hears.clone(),
            writes: settings.writes.clone(),
            threads: settings.threads,
        }
    }
}

/// A loaded model, and the settings it was built for.
#[derive(Debug)]
pub struct Loaded {
    pub model: Model,
    pub baked: Baked,
}

impl Loaded {
    /// Whether the settings have moved somewhere the loaded recognizer cannot
    /// follow, so that it has to be rebuilt.
    pub fn is_stale<L>(&self, settings: &Settings<L>) -> (stale: bool)
        ensures
            stale == !built_for(self.baked, *settings),
    {
        self.baked != Baked::of(settings)
    }

    /// Take in how rebuilding went. The new recognizer is built first, so a failure
    /// leaves the working one in place: a typo in the language box costs a
    /// transcription rather than the session.
    pub fn rebuilt<L>(&mut self, settings: &Settings<L>, succeeded: bool)
        ensures
            final(self).model == old(self).model,
            succeeded ==> built_for(final(self).baked, *settings),
            !succeeded ==> *final(self) == *old(self),
    {
        if succeeded {
            self.baked = Baked::of(settings);
        }
    }
}

/// Nothing but the languages and the thread count costs a reload; the threshold is
/// read per job.
pub proof fn the_threshold_costs_no_reload<L>(baked: Baked, settings: Settings<L>, threshold: L)
    ensures
        built_for(baked, settings) == built_for(
            baked,
            (Settings { silence_threshold: threshold, ..settings }),
        ),
{
}

// --- building a recognizer ---------------------------------------------------

/// The files an engine is handed, in the order they are looked for. Each family
/// names its files differently, which is the only reason they are told apart at
/// all: the decoding itself is one call.
pub open spec fn wanted_by(engine: Engine) -> Seq<&'static str> {
    match engine {
        Engine::Canary => seq!["tokens.txt", "encoder.int8.onnx", "decoder.int8.onnx"],
        Engine::Transducer => seq![
            "tokens.txt",
            "encoder.int8.onnx",
            "decoder.int8.onnx",
            "joiner.int8.onnx",
        ],
        Engine::Moonshine => seq![
            "tokens.txt",
            "preprocess.onnx",
            "encode.int8.onnx",
            "uncached_decode.int8.onnx",
            "cached_decode.int8.onnx",
        ],
        Engine::SenseVoice => seq!["tokens.txt", "model.int8.onnx"],
    }
}

/// The files an engine is handed, in the order they are looked for.
pub fn wanted(engine: Engine) -> (names: &'static [&'static str])
    ensures
        names@ == wanted_by(engine),
{
    match engine {
        Engine::Canary => &["tokens.txt", "encoder.int8.onnx", "decoder.int8.onnx"],
        Engine::Transducer => &[
            "tokens.txt",
            "encoder.int8.onnx",
            "decoder.int8.onnx",
            "joiner.int8.onnx",
        ],
        Engine::Moonshine => &[
            "tokens.txt",
            "preprocess.onnx",
            "encode.int8.onnx",
            "uncached_decode.int8.onnx",
            "cached_decode.int8.onnx",
        ],
        Engine::SenseVoice => &["tokens.txt", "model.int8.onnx"],
    }
}

/// A model of the catalogue comes with every file its engine is handed, and with
/// no other.
pub proof fn a_model_comes_with_what_its_engine_wants(at: int, name: &'static str)
    requires
        0 <= at < offers().len(),
    ensures
        wanted_by(offers()[at].engine).contains(name) <==> offers()[at].files.contains(name),
{
    let files = offers()[at].files;
    let names = wanted_by(offers()[at].engine);
    let count = files.len();
    assert(names.len() == count);
    // The tokens are looked for first and fetched last.
    assert(names[0] == files[count - 1]);
    assert forall|i: int| 0 <= i < count - 1 implies names[i + 1] == #[trigger] files[i] by {}
    if names.contains(name) {
        let i = choose|i: int| 0 <= i < names.len() && names[i] == name;
        if i > 0 {
            assert(files[i - 1] == name);
        } else {
            assert(files[count - 1] == name);
        }
    }
    if files.contains(name) {
        let i = choose|i: int| 0 <= i < files.len() && files[i] == name;
        if i < count - 1 {
            assert(names[i + 1] == name);
        } else {
            assert(names[0] == name);
        }
    }
}

/// Where one of a model's files is, given the directory for all models.
pub open spec fn place_of(models: Seq<u8>, id: Seq<char>, name: Seq<char>) -> Seq<u8> {
    below(below(models, id), name)
}

/// Whether a file can be handed over: it is there, and its path is text.
pub open spec fn usable(models: Seq<u8>, id: Seq<char>, name: Seq<char>, meta: Option<Metadata>) -> bool {
    there(meta) && valid_utf8(place_of(models, id, name))
}

/// What is wrong with a file that cannot be handed over.
pub open spec fn unusable(model: Seq<char>, name: Seq<char>, meta: Option<Metadata>) -> Seq<char> {
    if there(meta) {
        "model path is not valid UTF-8"@
    } else {
        model + " is missing "@ + name + ". Download it again in Preferences."@
    }
}

/// Whether this is the first file that cannot be handed over.
pub open spec fn first_unusable(
    models: Seq<u8>,
    id: Seq<char>,
    names: Seq<&'static str>,
    metas: Seq<Option<Metadata>>,
    at: int,
) -> bool {
    &&& 0 <= at < names.len()
    &&& !usable(models, id, names[at]@, metas[at])
    &&& forall|i: int|
        0 <= i < at ==> #[trigger] usable(models, id, names[i]@, metas[i])
}

/// The path of every file a model's engine is handed, or a clear word about which
/// one is missing. `metas` is what the system says of each.
pub fn model_files(model: &Model, models: &[u8], metas: &[Option<Metadata>]) -> (paths: Result<
    Vec<String>,
    String,
>)
    requires
        metas@.len() == wanted_by(model.engine).len(),
    ensures
        match paths {
            Ok(paths) => {
                &&& paths@.len() == metas@.len()
                &&& forall|i: int|
                    0 <= i < metas@.len() ==> {
                        &&& #[trigger] usable(
                            models@,
                            model.id@,
                            wanted_by(model.engine)[i]@,
                            metas@[i],
                        )
                        &&& encode_utf8(paths@[i]@) == place_of(
                            models@,
                            model.id@,
                            wanted_by(model.engine)[i]@,
                        )
                    }
            },
            Err(message) => exists|at: int| #[trigger]
                first_unusable(models@, model.id@, wanted_by(model.engine), metas@, at) && message@
                    == unusable(model.name@, wanted_by(model.engine)[at]@, metas@[at]),
        },
{
    let names = wanted(model.engine);
    let count: usize = names.len();
    let mut paths: Vec<String> = Vec::new();
    let mut at: usize = 0;
    while at < count
        invariant
            names@ == wanted_by(model.engine),
            count == names@.len(),
            count == metas@.len(),
            at <= count,
            paths@.len() == at,
            forall|i: int|
                0 <= i < at ==> {
                    &&& #[trigger] usable(models@, model.id@, names@[i]@, metas@[i])
                    &&& encode_utf8(paths@[i]@) == place_of(models@, model.id@, names@[i]@)
                },
        decreases count - at,
    {
        let name = names[at];
        let path = match file_in(models, model, name, metas[at]) {
            Some(path) => path,
            None => {
                assert(first_unusable(models@, model.id@, names@, metas@, at as int));
                let mut message = joined3(model.name, " is missing ", name);
                message.append(". Download it again in Preferences.");
                return Err(message);
            },
        };
        match as_text(path) {
            Some(text) => {
                assert(usable(models@, model.id@, names@[at as int]@, metas@[at as int]));
                paths.push(text);
            },
            None => {
                assert(first_unusable(models@, model.id@, names@, metas@, at as int));
                return Err("model path is not valid UTF-8".to_owned());
            },
        }
        at += 1;
    }
    Ok(paths)
}

/// What a family of models is told, beside the tokens and how many threads to use.
#[derive(Debug, Clone)]
pub enum Family {
    /// Canary has to be told which language it is listening to; it does not detect
    /// one. Writing a different language out is what its translation is.
    Canary {
        encoder: String,
        decoder: String,
        src_lang: String,
        tgt_lang: String,
        use_pnc: bool,
    },
    Transducer { encoder: String, decoder: String, joiner: String },
    Moonshine {
        preprocessor: String,
        encoder: String,
        uncached_decoder: String,
        cached_decoder: String,
    },
    /// SenseVoice refuses to load on a language outside its own six, which is why
    /// this has been through the clamp. Numbers come as digits and dates as dates,
    /// which is what you want in the middle of a sentence you are dictating.
    SenseVoice { model: String, language: String, use_itn: bool },
}

/// What a recognizer is built from.
#[derive(Debug, Clone)]
pub struct Recognizer {
    pub tokens: String,
    pub threads: i32,
    pub family: Family,
}

/// Whether a path is that of one of a model's files.
pub open spec fn is_path_of(path: String, models: Seq<u8>, id: Seq<char>, name: Seq<char>) -> bool {
    encode_utf8(path@) == place_of(models, id, name)
}

/// Whether a recognizer is the one for a model and some settings: each of its parts
/// is the file that goes by that name, and it is told the languages and threads
/// that were asked for.
pub open spec fn recognizes<L>(
    recognizer: Recognizer,
    models: Seq<u8>,
    model: Model,
    settings: Settings<L>,
) -> bool {
    let id = model.id@;
    &&& is_path_of(recognizer.tokens, models, id, "tokens.txt"@)
    &&& recognizer.threads == settings.threads
    &&& match recognizer.family {
        Family::Canary { encoder, decoder, src_lang, tgt_lang, use_pnc } => {
            &&& model.engine == Engine::Canary
            &&& is_path_of(encoder, models, id, "encoder.int8.onnx"@)
            &&& is_path_of(decoder, models, id, "decoder.int8.onnx"@)
            &&& src_lang@ == settings.hears@
            &&& tgt_lang@ == settings.writes@
            &&& use_pnc
        },
        Family::Transducer { encoder, decoder, joiner } => {
            &&& model.engine == Engine::Transducer
            &&& is_path_of(encoder, models, id, "encoder.int8.onnx"@)
            &&& is_path_of(decoder, models, id, "decoder.int8.onnx"@)
            &&& is_path_of(joiner, models, id, "joiner.int8.onnx"@)
        },
        Family::Moonshine { preprocessor, encoder, uncached_decoder, cached_decoder } => {
            &&& model.engine == Engine::Moonshine
            &&& is_path_of(preprocessor, models, id, "preprocess.onnx"@)
            &&& is_path_of(encoder, models, id, "encode.int8.onnx"@)
            &&& is_path_of(uncached_decoder, models, id, "uncached_decode.int8.onnx"@)
            &&& is_path_of(cached_decoder, models, id, "cached_decode.int8.onnx"@)
        },
        Family::SenseVoice { model: weights, language, use_itn } => {
            &&& model.engine == Engine::SenseVoice
            &&& is_path_of(weights, models, id, "model.int8.onnx"@)
            &&& language@ == settings.hears@
            &&& use_itn
        },
    }
}

/// What to build a recognizer from, or a clear word about which file is missing
/// rather than sherpa's own silence. `metas` is what the system says of each file
/// the engine wants.
pub fn build<L>(
    model: &Model,
    settings: &Settings<L>,
    models: &[u8],
    metas: &[Option<Metadata>],
) -> (recognizer: Result<Recognizer, String>)
    requires
        metas@.len() == wanted_by(model.engine).len(),
    ensures
        match recognizer {
            Ok(recognizer) => {
                &&& recognizes(recognizer, models@, *model, *settings)
                &&& forall|i: int|
                    0 <= i < metas@.len() ==> #[trigger] usable(
                        models@,
                        model.id@,
                        wanted_by(model.engine)[i]@,
                        metas@[i],
                    )
            },
            Err(message) => exists|at: int| #[trigger]
                first_unusable(models@, model.id@, wanted_by(model.engine), metas@, at) && message@
                    == unusable(model.name@, wanted_by(model.engine)[at]@, metas@[at]),
        },
{
    let paths = match model_files(model, models, metas) {
        Ok(paths) => paths,
        Err(message) => {
            return Err(message);
        },
    };
    let ghost names = wanted_by(model.engine);
    assert forall|i: int| 0 <= i < names.len() implies (#[trigger] usable(
        models@,
        model.id@,
        names[i]@,
        metas@[i],
    )) && is_path_of(paths@[i], models@, model.id@, names[i]@) by {
        assert(usable(models@, model.id@, wanted_by(model.engine)[i]@, metas@[i]));
        assert(encode_utf8(paths@[i]@) == place_of(models@, model.id@, names[i]@));
    }
    assert(usable(models@, model.id@, names[0]@, metas@[0]));
    assert(usable(models@, model.id@, names[1]@, metas@[1]));
    let family = match model.engine {
        Engine::Canary => {
            assert(usable(models@, model.id@, names[2]@, metas@[2]));
            Family::Canary {
                encoder: paths[1].clone(),
                decoder: paths[2].clone(),
                src_lang: settings.hears.clone(),
                tgt_lang: settings.writes.clone(),
                use_pnc: true,
            }
        },
        Engine::Transducer => {
            assert(usable(models@, model.id@, names[2]@, metas@[2]));
            assert(usable(models@, model.id@, names[3]@, metas@[3]));
            Family::Transducer {
                encoder: paths[1].clone(),
                decoder: paths[2].clone(),
                joiner: paths[3].clone(),
            }
        },
        Engine::Moonshine => {
            assert(usable(models@, model.id@, names[2]@, metas@[2]));
            assert(usable(models@, model.id@, names[3]@, metas@[3]));
            assert(usable(models@, model.id@, names[4]@, metas@[4]));
            Family::Moonshine {
                preprocessor: paths[1].clone(),
                encoder: paths[2].clone(),
                uncached_decoder: paths[3].clone(),
                cached_decoder: paths[4].clone(),
            }
        },
        Engine::SenseVoice => Family::SenseVoice {
            model: paths[1].clone(),
            language: settings.hears.clone(),
            use_itn: true,
        },
    };
    Ok(Recognizer { tokens: paths[0].clone(), threads: settings.threads, family })
}

/// What to say when sherpa would not build a recognizer.
pub fn would_not_start(model: &Model) -> (message: String)
    ensures
        message@ == "building the recognizer: loading "@ + model.name@
            + " — sherpa-onnx would not start"@,
{
    joined3("building the recognizer: loading ", model.name, " — sherpa-onnx would not start")
}

/// What to say when a model has not been downloaded.
pub open spec fn not_downloaded(name: Seq<char>) -> Seq<char> {
    name + " is not downloaded yet. Choose it in Preferences and yapper will fetch it."@
}

/// What to build a recognizer from when the worker starts: the chosen model, if
/// there is one of that name and all of it is on the disk. `installed` is what the
/// system says of each file the model comes with, and `metas` of each its engine
/// wants.
pub fn load<L>(
    chosen: Option<&Model>,
    setting: &str,
    settings: &Settings<L>,
    models: &[u8],
    installed: &[Option<Metadata>],
    metas: &[Option<Metadata>],
) -> (recognizer: Result<Recognizer, String>)
    requires
        chosen matches Some(model) ==> installed@.len() == model.files@.len() && metas@.len()
            == wanted_by(model.engine).len(),
    ensures
        match chosen {
            None => recognizer matches Err(message) && message@ == if setting@.len() == 0 {
                "no model chosen yet. Pick one and yapper will download it."@
            } else {
                "no model called "@ + setting@ + ". Pick one and yapper will download it."@
            },
            Some(model) => if exists|i: int|
                0 <= i < installed@.len() && !there(#[trigger] installed@[i]) {
                recognizer matches Err(message) && message@ == not_downloaded(model.name@)
            } else {
                match recognizer {
                    Ok(recognizer) => {
                        &&& recognizes(recognizer, models@, *model, *settings)
                        &&& forall|i: int|
                            0 <= i < metas@.len() ==> #[trigger] usable(
                                models@,
                                model.id@,
                                wanted_by(model.engine)[i]@,
                                metas@[i],
                            )
                    },
                    Err(message) => exists|at: int| #[trigger]
                        first_unusable(models@, model.id@, wanted_by(model.engine), metas@, at)
                            && message@ == unusable(
                            model.name@,
                            wanted_by(model.engine)[at]@,
                            metas@[at],
                        ),
                }
            },
        },
{
    match chosen {
        None => Err(missing_model(setting)),
        Some(model) => if !is_installed(model, installed) {
            Err(
                joined(
                    model.name,
                    " is not downloaded yet. Choose it in Preferences and yapper will fetch it.",
                ),
            )
        } else {
            build(model, settings, models, metas)
        },
    }
}

// --- transcribing ------------------------------------------------------------

/// 30ms at 16 kHz: long enough to be a stable measure, short enough that one
/// word registers.
pub const SILENCE_BLOCK: usize = 480;

/// How many blocks a clip of a given length has.
pub open spec fn block_count(len: nat) -> nat {
    (len + 479) / 480
}

/// Where each block of a clip starts and stops; the last may be short.
pub fn blocks(len: usize) -> (ranges: Vec<(usize, usize)>)
    ensures
        ranges@.len() == block_count(len as nat),
        forall|i: int|
            0 <= i < ranges@.len() ==> {
                &&& (#[trigger] ranges@[i]).0 == i * 480
                &&& ranges@[i].1 == if i * 480 + 480 <= len {
                    i * 480 + 480
                } else {
                    len as int
                }
                &&& ranges@[i].0 < ranges@[i].1
            },
{
    let mut ranges: Vec<(usize, usize)> = Vec::new();
    let mut start: usize = 0;
    while start < len
        invariant
            start <= len,
            start == len || start == ranges@.len() * 480,
            ranges@.len() == block_count(start as nat),
            forall|i: int|
                0 <= i < ranges@.len() ==> {
                    &&& (#[trigger] ranges@[i]).0 == i * 480
                    &&& ranges@[i].1 == if i * 480 + 480 <= len {
                        i * 480 + 480
                    } else {
                        len as int
                    }
                    &&& ranges@[i].0 < ranges@[i].1
                },
        decreases len - start,
    {
        let end: usize = if len - start >= SILENCE_BLOCK {
            start + SILENCE_BLOCK
        } else {
            len
        };
        ranges.push((start, end));
        start = end;
    }
    ranges
}

/// True when no short stretch of the clip rises above the threshold. `loud` says of
/// each of its [`blocks`] whether it does.
///
/// Measured per block rather than across the whole recording, because the two
/// give wildly different numbers for the same audio: a sentence surrounded by
/// pauses averages out low, so a whole-clip average would throw away short or
/// quiet utterances as the threshold rises. The live detector works in blocks,
/// and one setting should mean one thing in both places.
pub fn is_silent(loud: &[bool]) -> (silent: bool)
    ensures
        silent == forall|i: int| 0 <= i < loud@.len() ==> !#[trigger] loud@[i],
{
    let count: usize = loud.len();
    let mut at: usize = 0;
    while at < count
        invariant
            count == loud@.len(),
            at <= count,
            forall|i: int| 0 <= i < at ==> !#[trigger] loud@[i],
        decreases count - at,
    {
        if loud[at] {
            return false;
        }
        at += 1;
    }
    true
}

/// Whether a clip is screened out before it reaches a model. Every model here
/// invents speech when handed silence or a fragment.
pub fn is_screened_out(samples: usize, silent: bool) -> (out: bool)
    ensures
        out == (samples < 8_000 || silent),
{
    samples < (TARGET_RATE / 2) as usize || silent
}

/// Whether two characters are a pair that annotations are put between.
pub open spec fn wraps(open: char, close: char) -> bool {
    ||| open == '[' && close == ']'
    ||| open == '(' && close == ')'
    ||| open == '*' && close == '*'
    ||| open == '{' && close == '}'
}

/// Whether a position is among the marks a segment is wrapped in: nothing but its
/// first character before it, or nothing but its last after it.
pub open spec fn in_wrapping(s: Seq<char>, at: int) -> bool {
    ||| forall|k: int| 0 <= k <= at ==> #[trigger] s[k] == s[0]
    ||| forall|k: int| at <= k < s.len() ==> #[trigger] s[k] == s.last()
}

/// Whether the whole of a segment is an annotation: wrapped, be it in one mark or in
/// several, with nothing between that would have closed it before its end.
pub open spec fn annotation(s: Seq<char>) -> bool {
    &&& s.len() >= 2
    &&& wraps(s[0], s.last())
    &&& forall|i: int| 0 < i < s.len() - 1 ==> s[i] != ']' && s[i] != ')'
    &&& forall|i: int|
        0 < i < s.len() - 1 && s[i] == s.last() ==> #[trigger] in_wrapping(s, i)
}

/// Models narrate non-speech as `[BLANK_AUDIO]`, `(music)`, `*sighs*` and
/// friends. Nobody wants that pasted into their editor. Only a whole-segment
/// annotation counts; real speech can contain brackets, and can start with one
/// aside and end with another.
pub fn is_annotation(segment: &str) -> (yes: bool)
    ensures
        yes == annotation(segment@),
{
    let chars = characters(segment);
    let count: usize = chars.len();
    if count < 2 {
        return false;
    }
    let open = chars[0];
    let close = chars[count - 1];
    let wrapped = (open == '[' && close == ']') || (open == '(' && close == ')') || (open == '*'
        && close == '*') || (open == '{' && close == '}');
    if !wrapped {
        return false;
    }
    // Where the marks it starts with stop, and where those it ends with start.
    let mut lead: usize = 1;
    while lead < count && chars[lead] == open
        invariant
            chars@ == segment@,
            count == chars@.len(),
            1 <= lead <= count,
            open == segment@[0],
            forall|k: int| 0 <= k < lead ==> segment@[k] == open,
        decreases count - lead,
    {
        lead += 1;
    }
    let mut tail: usize = count - 1;
    while tail > 0 && chars[tail - 1] == close
        invariant
            chars@ == segment@,
            count == chars@.len(),
            tail < count,
            close == segment@.last(),
            forall|k: int| tail <= k < count ==> segment@[k] == close,
        decreases tail,
    {
        tail -= 1;
    }
    let mut at: usize = 1;
    while at < count - 1
        invariant
            chars@ == segment@,
            count == chars@.len(),
            count >= 2,
            1 <= at <= count - 1,
            open == segment@[0],
            close == segment@.last(),
            1 <= lead <= count,
            forall|k: int| 0 <= k < lead ==> segment@[k] == open,
            lead < count ==> segment@[lead as int] != open,
            tail < count,
            forall|k: int| tail <= k < count ==> segment@[k] == close,
            tail > 0 ==> segment@[tail - 1] != close,
            forall|i: int| 0 < i < at ==> segment@[i] != ']' && segment@[i] != ')',
            forall|i: int|
                0 < i < at && segment@[i] == close ==> #[trigger] in_wrapping(segment@, i),
        decreases count - at,
    {
        if chars[at] == ']' || chars[at] == ')' {
            return false;
        }
        if chars[at] == close && at >= lead && at < tail {
            assert(segment@[lead as int] != open);
            assert(segment@[tail - 1] != close);
            assert(!in_wrapping(segment@, at as int));
            return false;
        }
        at += 1;
    }
    true
}

/// What is kept of what a recognizer heard.
pub open spec fn kept_of(heard: Seq<char>) -> Seq<char> {
    if annotation(trimmed(heard)) {
        ""@
    } else {
        trimmed(heard)
    }
}

/// What a clip comes to, given what the recognizer made of it, if it made anything.
pub fn transcript(heard: Option<String>) -> (text: Result<String, &'static str>)
    ensures
        match heard {
            Some(heard) => text matches Ok(text) && text@ == kept_of(heard@),
            None => text matches Err(err) && err@ == "the recognizer returned nothing"@,
        },
{
    match heard {
        Some(heard) => {
            let text = trim(heard.as_str());
            if is_annotation(text) {
                Ok("".to_owned())
            } else {
                Ok(text.to_owned())
            }
        },
        None => Err("the recognizer returned nothing"),
    }
}

/// What a clip comes to: nothing if it is screened out, else what the recognizer
/// made of it.
pub fn run(samples: usize, silent: bool, heard: Option<String>) -> (text: Result<
    String,
    &'static str,
>)
    ensures
        if samples < 8_000 || silent {
            text matches Ok(text) && text@ == ""@
        } else {
            match heard {
                Some(heard) => text matches Ok(text) && text@ == kept_of(heard@),
                None => text matches Err(err) && err@ == "the recognizer returned nothing"@,
            }
        },
{
    if is_screened_out(samples, silent) {
        return Ok("".to_owned());
    }
    transcript(heard)
}

// --- the worker --------------------------------------------------------------

/// What the worker says once it has tried to load its model.
pub fn loaded_event(loaded: Result<(), String>) -> (event: Event)
    ensures
        match loaded {
            Ok(_) => event is ModelReady,
            Err(err) => event == Event::ModelFailed(err),
        },
{
    match loaded {
        Ok(_) => Event::ModelReady,
        Err(err) => Event::ModelFailed(err),
    }
}

/// Whether a preview is worth starting on. It is stale the moment the user stops
/// talking: these models decode a whole utterance at once and cannot be stopped
/// part way, so the check happens before the work rather than during it.
pub fn starts_preview(interrupted: bool) -> (starts: bool)
    ensures
        starts == !interrupted,
{
    !interrupted
}

/// What the worker says of a preview it has made. It always answers unless it was
/// cut short, so the window knows the slot is free again even after a failure.
pub fn preview_event(text: Option<String>, interrupted: bool) -> (event: Option<Event>)
    ensures
        event is None <==> interrupted,
        event matches Some(event) ==> event matches Event::Preview(shown) && shown@ == match text {
            Some(text) => text@,
            None => ""@,
        },
{
    if interrupted {
        return None;
    }
    match text {
        Some(text) => Some(Event::Preview(text)),
        None => Some(Event::Preview("".to_owned())),
    }
}

/// What the worker says of a transcription: `refreshed` is how bringing the model
/// up to date went, and `text` what it then made of the clip.
pub fn transcribe_event(refreshed: Result<(), String>, text: Result<String, String>) -> (event:
    Event)
    ensures
        match (refreshed, text) {
            (Err(err), _) => event == Event::Failed(err),
            (Ok(_), Err(err)) => event == Event::Failed(err),
            (Ok(_), Ok(text)) => event == Event::Done(text),
        },
{
    match refreshed {
        Err(err) => Event::Failed(err),
        Ok(_) => match text {
            Ok(text) => Event::Done(text),
            Err(err) => Event::Failed(err),
        },
    }
}

// --- a run of the worker -----------------------------------------------------

/// Where the worker is.
#[derive(Debug, Clone, Copy, PartialEq, Eq, Structural)]
pub enum Stage {
    /// Loading its model.
    Starting,
    /// Waiting for something to do.
    Ready,
    Previewing,
    Transcribing,
    /// Done for good.
    Stopped,
}

/// What the worker does next. `A` is audio.
#[derive(Debug)]
pub enum Work<A> {
    Load,
    /// Wait for a request.
    Wait,
    /// A preview is not worth reloading a model for; it runs with whatever is
    /// already in memory.
    Preview(A),
    /// Lower the interrupt, bring the model up to date, and transcribe.
    Transcribe(A),
    Stop,
}

/// Something that happened to the worker.
#[derive(Debug)]
pub enum Happening<A> {
    /// How loading the model went.
    Loaded(Result<(), String>),
    /// A request, and whether the interrupt is raised as its turn comes.
    Asked { request: Request<A>, interrupted: bool },
    /// There will be no more requests.
    Closed,
    /// What a preview came to, if to anything, and whether it was cut short.
    Previewed { text: Option<String>, interrupted: bool },
    /// How a transcription went: bringing the model up to date, and then the clip.
    Transcribed { refreshed: Result<(), String>, text: Result<String, String> },
}

impl Stage {
    /// Whether this is something that can happen where the worker is.
    pub open spec fn expects<A>(self, happening: Happening<A>) -> bool {
        match self {
            Stage::Starting => happening is Loaded,
            Stage::Ready => happening is Asked || happening is Closed,
            Stage::Previewing => happening is Previewed,
            Stage::Transcribing => happening is Transcribed,
            Stage::Stopped => false,
        }
    }

    /// Where the worker is after something happened.
    pub open spec fn after<A>(self, happening: Happening<A>) -> Stage {
        match happening {
            Happening::Loaded(Ok(_)) => Stage::Ready,
            Happening::Loaded(Err(_)) => Stage::Stopped,
            Happening::Asked { request: Request::Preview(_), interrupted } => if interrupted {
                Stage::Ready
            } else {
                Stage::Previewing
            },
            Happening::Asked { request: Request::Transcribe(_), .. } => Stage::Transcribing,
            Happening::Closed => Stage::Stopped,
            Happening::Previewed { .. } => Stage::Ready,
            Happening::Transcribed { .. } => Stage::Ready,
        }
    }

    /// Whether something is possible where the worker is.
    pub fn can<A>(self, happening: &Happening<A>) -> (can: bool)
        ensures
            can == self.expects(*happening),
    {
        match (self, happening) {
            (Stage::Starting, Happening::Loaded(_)) => true,
            (Stage::Ready, Happening::Asked { .. }) => true,
            (Stage::Ready, Happening::Closed) => true,
            (Stage::Previewing, Happening::Previewed { .. }) => true,
            (Stage::Transcribing, Happening::Transcribed { .. }) => true,
            _ => false,
        }
    }
}

/// Whether this is what the worker says of something that happened: one answer to
/// how loading went and to each transcription, one to a preview that was not cut
/// short, and nothing to a request as it arrives.
pub open spec fn answers<A>(said: Option<Event>, happening: Happening<A>) -> bool {
    match happening {
        Happening::Loaded(Ok(_)) => said == Some(Event::ModelReady),
        Happening::Loaded(Err(err)) => said == Some(Event::ModelFailed(err)),
        Happening::Asked { .. } => said is None,
        Happening::Closed => said is None,
        Happening::Previewed { text, interrupted } => if interrupted {
            said is None
        } else {
            said matches Some(Event::Preview(shown)) && shown@ == match text {
                Some(text) => text@,
                None => ""@,
            }
        },
        Happening::Transcribed { refreshed: Err(err), .. } => said == Some(Event::Failed(err)),
        Happening::Transcribed { refreshed: Ok(_), text: Err(err) } => said == Some(
            Event::Failed(err),
        ),
        Happening::Transcribed { refreshed: Ok(_), text: Ok(text) } => said == Some(
            Event::Done(text),
        ),
    }
}

/// What the worker does once something has happened, and it has said what it has to
/// say.
pub open spec fn work_after<A>(happening: Happening<A>) -> Work<A> {
    match happening {
        Happening::Loaded(Ok(_)) => Work::Wait,
        Happening::Loaded(Err(_)) => Work::Stop,
        // Stale the moment the user stops talking.
        Happening::Asked { request: Request::Preview(audio), interrupted } => if interrupted {
            Work::Wait
        } else {
            Work::Preview(audio)
        },
        Happening::Asked { request: Request::Transcribe(audio), .. } => Work::Transcribe(audio),
        Happening::Closed => Work::Stop,
        Happening::Previewed { .. } => Work::Wait,
        Happening::Transcribed { .. } => Work::Wait,
    }
}

/// The worker, but for the model it holds.
#[derive(Debug)]
pub struct Course {
    pub stage: Stage,
}

impl Course {
    /// Start out, by loading the model.
    pub fn new<A>() -> (start: (Course, Work<A>))
        ensures
            start.0.stage == Stage::Starting,
            start.1 is Load,
    {
        (Course { stage: Stage::Starting }, Work::Load)
    }

    /// Take in something that happened: what to say about it, if anything, and what
    /// to do after that.
    pub fn step<A>(&mut self, happening: Happening<A>) -> (answer: (Option<Event>, Work<A>))
        requires
            old(self).stage.expects(happening),
        ensures
            final(self).stage == old(self).stage.after(happening),
            answers(answer.0, happening),
            answer.1 == work_after(happening),
    {
        match happening {
            Happening::Loaded(loaded) => {
                let work = match &loaded {
                    Ok(_) => {
                        self.stage = Stage::Ready;
                        Work::Wait
                    },
                    Err(_) => {
                        self.stage = Stage::Stopped;
                        Work::Stop
                    },
                };
                (Some(loaded_event(loaded)), work)
            },
            Happening::Asked { request: Request::Preview(audio), interrupted } => if starts_preview(
                interrupted,
            ) {
                self.stage = Stage::Previewing;
                (None, Work::Preview(audio))
            } else {
                self.stage = Stage::Ready;
                (None, Work::Wait)
            },
            Happening::Asked { request: Request::Transcribe(audio), .. } => {
                self.stage = Stage::Transcribing;
                (None, Work::Transcribe(audio))
            },
            Happening::Closed => {
                self.stage = Stage::Stopped;
                (None, Work::Stop)
            },
            Happening::Previewed { text, interrupted } => {
                self.stage = Stage::Ready;
                (preview_event(text, interrupted), Work::Wait)
            },
            Happening::Transcribed { refreshed, text } => {
                self.stage = Stage::Ready;
                (Some(transcribe_event(refreshed, text)), Work::Wait)
            },
        }
    }
}

/// Where the worker is once the first few of some things have happened to it.
pub open spec fn stage_at<A>(happened: Seq<Happening<A>>, n: int) -> Stage
    decreases n,
{
    if n <= 0 {
        Stage::Starting
    } else {
        stage_at(happened, n - 1).after(happened[n - 1])
    }
}

/// Whether this is a run of a worker from its start: what happened to it, each thing
/// one that could, and what it said of each.
pub open spec fn is_run<A>(happened: Seq<Happening<A>>, said: Seq<Option<Event>>) -> bool {
    &&& said.len() == happened.len()
    &&& forall|i: int|
        0 <= i < happened.len() ==> {
            &&& stage_at(happened, i).expects(#[trigger] happened[i])
            &&& answers(said[i], happened[i])
        }
}

/// Whether something that happened is a request of a transcription.
pub open spec fn asks_transcription<A>(happening: Happening<A>) -> bool {
    happening matches Happening::Asked { request, .. } && request is Transcribe
}

/// Whether something that happened is a request of a preview, with the interrupt
/// raised or not as its turn comes.
pub open spec fn asks_preview<A>(happening: Happening<A>, raised: bool) -> bool {
    happening matches Happening::Asked { request, interrupted } && request is Preview
        && interrupted == raised
}

/// Whether an event is the last word on a transcription.
pub open spec fn is_final(said: Option<Event>) -> bool {
    said matches Some(event) && (event is Done || event is Failed)
}

/// Whether an event is about the model.
pub open spec fn is_about_model(said: Option<Event>) -> bool {
    said matches Some(event) && (event is ModelReady || event is ModelFailed)
}

proof fn only_the_start_is_starting<A>(happened: Seq<Happening<A>>, n: int)
    ensures
        n > 0 ==> stage_at(happened, n) != Stage::Starting,
    decreases n,
{
    if n > 1 {
        only_the_start_is_starting(happened, n - 1);
    }
}

/// The first thing a worker says is whether its model is ready or failed, and it
/// says neither again; once it has failed, nothing happens any more and nothing is
/// said.
pub proof fn a_model_is_announced_once<A>(happened: Seq<Happening<A>>, said: Seq<Option<Event>>)
    requires
        is_run(happened, said),
    ensures
        happened.len() > 0 ==> is_about_model(said[0]),
        forall|i: int| 0 < i < said.len() ==> !is_about_model(#[trigger] said[i]),
        happened.len() > 0 && (said[0] matches Some(Event::ModelFailed(_))) ==> said.len() == 1,
{
    if happened.len() > 0 {
        assert(stage_at(happened, 0).expects(happened[0]));
        if (said[0] matches Some(Event::ModelFailed(_))) && said.len() > 1 {
            assert(stage_at(happened, 1).expects(happened[1]));
            assert(stage_at(happened, 1) == stage_at(happened, 0).after(happened[0]));
        }
    }
    assert forall|i: int| 0 < i < said.len() implies !is_about_model(#[trigger] said[i]) by {
        only_the_start_is_starting(happened, i);
        assert(stage_at(happened, i).expects(happened[i]));
    }
}

/// Each transcription gets exactly one answer, in the order they were asked for:
/// the next thing that happens after it is asked for is that it is done, which is
/// answered with the text or with what went wrong; and nothing else is.
pub proof fn each_transcription_is_answered_in_turn<A>(
    happened: Seq<Happening<A>>,
    said: Seq<Option<Event>>,
    i: int,
)
    requires
        is_run(happened, said),
        0 <= i < happened.len(),
    ensures
        asks_transcription(happened[i]) ==> said[i] is None && (i + 1 < said.len() ==> is_final(
            said[i + 1],
        )),
        is_final(said[i]) ==> i > 0 && asks_transcription(happened[i - 1]),
{
    assert(stage_at(happened, i).expects(happened[i]));
    if i + 1 < happened.len() {
        assert(stage_at(happened, i + 1).expects(happened[i + 1]));
        assert(answers(said[i + 1], happened[i + 1]));
    }
    if is_final(said[i]) {
        assert(happened[i] is Transcribed);
        assert(stage_at(happened, i) == Stage::Transcribing);
        assert(stage_at(happened, i) == stage_at(happened, i - 1).after(happened[i - 1]));
    }
}

/// Each preview gets at most one answer, and none if the interrupt is raised as its
/// turn comes or was raised meanwhile: what is shown is what was asked for last.
pub proof fn a_stale_preview_is_not_answered<A>(
    happened: Seq<Happening<A>>,
    said: Seq<Option<Event>>,
    i: int,
)
    requires
        is_run(happened, said),
        0 <= i < happened.len(),
    ensures
        asks_preview(happened[i], true) ==> said[i] is None && (i + 1 < happened.len()
            ==> happened[i + 1] is Asked || happened[i + 1] is Closed),
        asks_preview(happened[i], false) ==> said[i] is None && (i + 1 < happened.len()
            ==> happened[i + 1] is Previewed),
        (said[i] matches Some(Event::Preview(_))) ==> {
            &&& i > 0
            &&& asks_preview(happened[i - 1], false)
            &&& happened[i] matches Happening::Previewed { interrupted, .. } && !interrupted
        },
{
    assert(stage_at(happened, i).expects(happened[i]));
    if i + 1 < happened.len() {
        assert(stage_at(happened, i + 1).expects(happened[i + 1]));
    }
    if said[i] matches Some(Event::Preview(_)) {
        assert(happened[i] is Previewed);
        assert(stage_at(happened, i) == Stage::Previewing);
        assert(stage_at(happened, i) == stage_at(happened, i - 1).after(happened[i - 1]));
    }
}

/// How many of some things meet a condition.
pub open spec fn count_of<T>(things: Seq<T>, meets: spec_fn(T) -> bool) -> nat
    decreases things.len(),
{
    if things.len() == 0 {
        0
    } else {
        count_of(things.drop_last(), meets) + if meets(things.last()) {
            1nat
        } else {
            0
        }
    }
}

/// At every point of a run there are as many last words as there were
/// transcriptions asked for, but for the one under way; and no more previews shown
/// than were asked for.
pub proof fn no_answer_is_owed_or_invented<A>(
    happened: Seq<Happening<A>>,
    said: Seq<Option<Event>>,
)
    requires
        is_run(happened, said),
    ensures
        count_of(happened, |h: Happening<A>| asks_transcription(h)) == count_of(
            said,
            |s: Option<Event>| is_final(s),
        ) + if stage_at(happened, happened.len() as int) == Stage::Transcribing {
            1nat
        } else {
            0
        },
        count_of(said, |s: Option<Event>| s matches Some(Event::Preview(_))) <= count_of(
            happened,
            |h: Happening<A>| asks_preview(h, false),
        ) - if stage_at(happened, happened.len() as int) == Stage::Previewing {
            1int
        } else {
            0
        },
    decreases happened.len(),
{
    if happened.len() > 0 {
        let n = happened.len() - 1;
        let shorter = happened.drop_last();
        let less = said.drop_last();
        stages_of_a_start(happened, shorter, n);
        assert forall|i: int| 0 <= i < shorter.len() implies {
            &&& stage_at(shorter, i).expects(#[trigger] shorter[i])
            &&& answers(less[i], shorter[i])
        } by {
            stages_of_a_start(happened, shorter, i);
            assert(stage_at(happened, i).expects(happened[i]));
            assert(shorter[i] == happened[i]);
        }
        no_answer_is_owed_or_invented(shorter, less);
        assert(stage_at(happened, n).expects(happened[n]));
        assert(answers(said[n], happened[n]));
    }
}

proof fn stages_of_a_start<A>(happened: Seq<Happening<A>>, start: Seq<Happening<A>>, n: int)
    requires
        n <= start.len() <= happened.len(),
        start == happened.take(start.len() as int),
    ensures
        stage_at(start, n) == stage_at(happened, n),
    decreases n,
{
    if n > 0 {
        stages_of_a_start(happened, start, n - 1);
        assert(start[n - 1] == happened[n - 1]);
    }
}

// --- what is kept of what was heard ------------------------------------------

/// What was heard is kept as it was, but for the white space around it: it stands in
/// what was heard between two stretches of nothing else, and neither starts nor ends
/// with any. Only a segment that is an annotation as a whole is dropped.
pub proof fn what_was_heard_is_kept(heard: Seq<char>)
    ensures
        exists|lead: Seq<char>, text: Seq<char>, rest: Seq<char>|
            heard == #[trigger] (lead + text + rest) && blank(lead) && blank(rest) && (text.len() > 0
                ==> !white_space(text[0]) && !white_space(text.last())) && kept_of(heard)
                == if annotation(text) {
                Seq::empty()
            } else {
                text
            },
{
    reveal_strlit("");
    trimming_takes_only_white_space(heard);
    let text = trimmed(heard);
    let (lead, rest): (Seq<char>, Seq<char>) = choose|lead: Seq<char>, rest: Seq<char>|
        heard == #[trigger] (lead + text + rest) && blank(lead) && blank(rest);
    assert(heard == lead + text + rest);
    assert(""@ =~= Seq::empty());
}

/// Speech between two stretches of white space comes out whole.
pub proof fn speech_comes_out_whole(lead: Seq<char>, text: Seq<char>, rest: Seq<char>)
    requires
        blank(lead),
        blank(rest),
        text.len() > 0,
        !white_space(text[0]),
        !white_space(text.last()),
        text.len() < 2 || !(text[0] == '[' || text[0] == '(' || text[0] == '*' || text[0] == '{')
            || !(text.last() == ']' || text.last() == ')' || text.last() == '*' || text.last()
            == '}'),
    ensures
        kept_of(lead + text + rest) == text,
{
    trimming_is_settled(lead + text + rest, lead, text, rest);
}

/// An annotation between two stretches of white space comes to nothing.
pub proof fn an_annotation_comes_to_nothing(lead: Seq<char>, text: Seq<char>, rest: Seq<char>)
    requires
        blank(lead),
        blank(rest),
        annotation(text),
    ensures
        kept_of(lead + text + rest) == Seq::<char>::empty(),
{
    reveal_strlit("");
    trimming_is_settled(lead + text + rest, lead, text, rest);
    assert(""@ =~= Seq::empty());
}

/// Nothing but white space comes to nothing.
pub proof fn silence_comes_to_nothing(heard: Seq<char>)
    requires
        blank(heard),
    ensures
        kept_of(heard) == Seq::<char>::empty(),
{
    reveal_strlit("");
    only_blank_text_trims_to_nothing(heard);
    assert(""@ =~= Seq::empty());
    assert(kept_of(heard) =~= Seq::empty());
}

/// Whatever is put between brackets, parentheses, asterisks or braces is an
/// annotation, as long as nothing in it closes it.
pub proof fn what_is_bracketed_is_an_annotation(open: char, inner: Seq<char>, close: char)
    requires
        (open, close) == ('[', ']') || (open, close) == ('(', ')') || (open, close) == ('*', '*')
            || (open, close) == ('{', '}'),
        forall|i: int|
            0 <= i < inner.len() ==> #[trigger] inner[i] != close && inner[i] != ']' && inner[i]
                != ')',
    ensures
        annotation(seq![open] + inner + seq![close]),
{
    let s = seq![open] + inner + seq![close];
    assert(forall|i: int| 0 < i < s.len() - 1 ==> #[trigger] s[i] == inner[i - 1]);
    assert(s.last() == close);
}

/// Marks may be doubled, asterisks and braces that is.
pub proof fn marks_may_be_doubled(s: Seq<char>)
    requires
        annotation(s),
        s[0] == '*' || s[0] == '{',
    ensures
        annotation(seq![s[0]] + s + seq![s.last()]),
{
    let t = seq![s[0]] + s + seq![s.last()];
    let count = t.len() as int;
    assert(forall|i: int| 0 < i < count - 1 ==> #[trigger] t[i] == s[i - 1]);
    assert(t[0] == s[0]);
    assert(t.last() == s.last());
    assert forall|i: int| 0 < i < count - 1 && t[i] == t.last() implies #[trigger] in_wrapping(
        t,
        i,
    ) by {
        let at = i - 1;
        if at == 0 {
            assert(forall|k: int| 0 <= k <= i ==> #[trigger] t[k] == t[0]);
        } else if at == s.len() - 1 {
            assert(forall|k: int| i <= k < count ==> #[trigger] t[k] == t.last());
        } else {
            assert(in_wrapping(s, at));
            if forall|k: int| 0 <= k <= at ==> #[trigger] s[k] == s[0] {
                assert forall|k: int| 0 <= k <= i implies #[trigger] t[k] == t[0] by {
                    if k > 0 {
                        assert(t[k] == s[k - 1]);
                    }
                }
            } else {
                assert forall|k: int| i <= k < count implies #[trigger] t[k] == t.last() by {
                    if k < count - 1 {
                        assert(t[k] == s[k - 1]);
                    }
                }
            }
        }
    }
}

/// An annotation starts with one of the marks and ends with the one that goes with it,
/// and neither a closing bracket nor a closing parenthesis comes before its end.
pub proof fn an_annotation_is_bracketed(s: Seq<char>)
    requires
        annotation(s),
    ensures
        s.len() >= 2,
        s[0] == '[' <==> s.last() == ']',
        s[0] == '(' <==> s.last() == ')',
        s[0] == '*' <==> s.last() == '*',
        s[0] == '{' <==> s.last() == '}',
        s[0] == '[' || s[0] == '(' || s[0] == '*' || s[0] == '{',
        forall|i: int| 0 < i < s.len() - 1 ==> #[trigger] s[i] != ']' && s[i] != ')',
{
}

/// A segment that starts with one aside and ends with another is speech: the first is
/// closed before the end, with something else on both sides.
pub proof fn an_aside_at_each_end_is_speech(s: Seq<char>, before: int, closed: int, after: int)
    requires
        0 < before < closed < after < s.len() - 1,
        s[before] != s[0],
        s[closed] == s.last(),
        s[after] != s.last(),
    ensures
        !annotation(s),
{
    if annotation(s) {
        assert(in_wrapping(s, closed));
    }
}

/// A clip has as many blocks as it takes to cover it, the last perhaps in part.
pub proof fn the_blocks_cover_a_clip(len: nat)
    ensures
        len <= block_count(len) * 480 < len + 480,
{
}

/// A recognizer is handed the files of its own model, each in the place it is for, and
/// told how many threads to use, the language it hears where it has to be, and the one
/// it writes where it can translate.
pub proof fn a_recognizer_is_handed_its_own_files<L>(
    recognizer: Recognizer,
    models: Seq<u8>,
    model: Model,
    settings: Settings<L>,
)
    requires
        recognizes(recognizer, models, model, settings),
    ensures
        ({
            let home = below(models, model.id@);
            &&& encode_utf8(recognizer.tokens@) == below(home, "tokens.txt"@)
            &&& recognizer.threads == settings.threads
            &&& model.engine is Canary <==> recognizer.family is Canary
            &&& model.engine is Transducer <==> recognizer.family is Transducer
            &&& model.engine is Moonshine <==> recognizer.family is Moonshine
            &&& model.engine is SenseVoice <==> recognizer.family is SenseVoice
            &&& recognizer.family matches Family::Canary {
                encoder,
                decoder,
                src_lang,
                tgt_lang,
                use_pnc,
            } ==> {
                &&& encode_utf8(encoder@) == below(home, "encoder.int8.onnx"@)
                &&& encode_utf8(decoder@) == below(home, "decoder.int8.onnx"@)
                &&& src_lang@ == settings.hears@
                &&& tgt_lang@ == settings.writes@
                &&& use_pnc
            }
            &&& recognizer.family matches Family::Transducer { encoder, decoder, joiner } ==> {
                &&& encode_utf8(encoder@) == below(home, "encoder.int8.onnx"@)
                &&& encode_utf8(decoder@) == below(home, "decoder.int8.onnx"@)
                &&& encode_utf8(joiner@) == below(home, "joiner.int8.onnx"@)
            }
            &&& recognizer.family matches Family::Moonshine {
                preprocessor,
                encoder,
                uncached_decoder,
                cached_decoder,
            } ==> {
                &&& encode_utf8(preprocessor@) == below(home, "preprocess.onnx"@)
                &&& encode_utf8(encoder@) == below(home, "encode.int8.onnx"@)
                &&& encode_utf8(uncached_decoder@) == below(home, "uncached_decode.int8.onnx"@)
                &&& encode_utf8(cached_decoder@) == below(home, "cached_decode.int8.onnx"@)
            }
            &&& recognizer.family matches Family::SenseVoice {
                model: weights,
                language,
                use_itn,
            } ==> {
                &&& encode_utf8(weights@) == below(home, "model.int8.onnx"@)
                &&& language@ == settings.hears@
                &&& use_itn
            }
        }),
{
}

/// A file that cannot be handed over is named, with the model it belongs to and the way
/// out; one whose path is no text is said to be that.
pub proof fn a_missing_file_is_named(model: Seq<char>, name: Seq<char>, meta: Option<Metadata>)
    ensures
        !there(meta) ==> model.is_prefix_of(unusable(model, name, meta)) && unusable(
            model,
            name,
            meta,
        ) == model + (" is missing "@ + (name + ". Download it again in Preferences."@)),
        there(meta) ==> unusable(model, name, meta) == "model path is not valid UTF-8"@,
{
    if !there(meta) {
        assert(unusable(model, name, meta) =~= model + (" is missing "@ + (name
            + ". Download it again in Preferences."@)));
        assert(unusable(model, name, meta).take(model.len() as int) =~= model);
    }
}

/// The audio of a request is what is worked on, whole: a transcription whatever is
/// raised, and a preview unless it is. A preview that is passed over is not answered,
/// and no request is answered as it comes.
pub proof fn a_request_is_worked_on<A>(stage: Stage, audio: A, interrupted: bool, said: Option<Event>)
    ensures
        work_after(
            Happening::Asked { request: Request::Transcribe(audio), interrupted },
        ) == Work::Transcribe(audio),
        stage.after(
            Happening::Asked { request: Request::Transcribe(audio), interrupted },
        ) == Stage::Transcribing,
        !interrupted ==> work_after(
            Happening::Asked { request: Request::Preview(audio), interrupted },
        ) == Work::Preview(audio) && stage.after(
            Happening::Asked { request: Request::Preview(audio), interrupted },
        ) == Stage::Previewing,
        interrupted ==> work_after(
            Happening::Asked { request: Request::Preview(audio), interrupted },
        ) is Wait && stage.after(
            Happening::Asked { request: Request::Preview(audio), interrupted },
        ) == Stage::Ready,
        answers(said, Happening::Asked { request: Request::Transcribe(audio), interrupted }) ==> said
            is None,
        answers(said, Happening::Asked { request: Request::Preview(audio), interrupted }) ==> said
            is None,
        Stage::Ready.expects(Happening::Asked { request: Request::Preview(audio), interrupted }),
        Stage::Ready.expects(Happening::Asked { request: Request::Transcribe(audio), interrupted }),
        Stage::Ready.expects(Happening::<A>::Closed),
        work_after(Happening::<A>::Closed) is Stop,
        stage.after(Happening::<A>::Closed) == Stage::Stopped,
{
}

/// What comes of the work is said as it is: the text of a transcription, or the first
/// thing that went wrong with it. After that the worker waits for the next.
pub proof fn what_comes_of_the_work_is_said<A>(
    stage: Stage,
    refreshed: Result<(), String>,
    text: Result<String, String>,
    said: Option<Event>,
)
    requires
        answers(said, Happening::<A>::Transcribed { refreshed, text }),
    ensures
        refreshed matches Err(err) ==> said == Some(Event::Failed(err)),
        refreshed is Ok ==> (text matches Err(err) ==> said == Some(Event::Failed(err))),
        refreshed is Ok ==> (text matches Ok(text) ==> said == Some(Event::Done(text))),
        stage.after(Happening::<A>::Transcribed { refreshed, text }) == Stage::Ready,
        work_after(Happening::<A>::Transcribed { refreshed, text }) is Wait,
        Stage::Transcribing.expects(Happening::<A>::Transcribed { refreshed, text }),
{
}

/// A preview that was not cut short is answered with its text, or with an empty one
/// where it came to nothing; one that was is not answered.
pub proof fn a_preview_is_answered_unless_cut_short<A>(
    stage: Stage,
    text: Option<String>,
    interrupted: bool,
    said: Option<Event>,
)
    requires
        answers(said, Happening::<A>::Previewed { text, interrupted }),
    ensures
        interrupted <==> said is None,
        said matches Some(event) ==> event is Preview,
        said matches Some(Event::Preview(shown)) ==> (text matches Some(text) ==> shown@ == text@),
        said matches Some(Event::Preview(shown)) ==> (text is None ==> shown@.len() == 0),
        stage.after(Happening::<A>::Previewed { text, interrupted }) == Stage::Ready,
        work_after(Happening::<A>::Previewed { text, interrupted }) is Wait,
        Stage::Previewing.expects(Happening::<A>::Previewed { text, interrupted }),
{
    reveal_strlit("");
}

/// A model that loads is announced and work is waited for; one that does not is
/// announced as what went wrong, and that is the end.
pub proof fn loading_decides_whether_there_is_work<A>(
    stage: Stage,
    loaded: Result<(), String>,
    said: Option<Event>,
)
    requires
        answers(said, Happening::<A>::Loaded(loaded)),
    ensures
        loaded is Ok ==> said == Some(Event::ModelReady) && stage.after(
            Happening::<A>::Loaded(loaded),
        ) == Stage::Ready && work_after(Happening::<A>::Loaded(loaded)) is Wait,
        loaded matches Err(err) ==> said == Some(Event::ModelFailed(err)) && stage.after(
            Happening::<A>::Loaded(loaded),
        ) == Stage::Stopped && work_after(Happening::<A>::Loaded(loaded)) is Stop,
        Stage::Starting.expects(Happening::<A>::Loaded(loaded)),
{
}

/// A recognizer is rebuilt for another language, heard or written, and for another number
/// of threads: one that was built for two settings finds them the same in all of these.
pub proof fn a_reload_is_for_languages_and_threads<L>(
    baked: Baked,
    settings: Settings<L>,
    other: Settings<L>,
)
    requires
        built_for(baked, settings),
    ensures
        built_for(baked, other) <==> other.hears@ == settings.hears@ && other.writes@
            == settings.writes@ && other.threads == settings.threads,
        baked.hears@ == settings.hears@,
        baked.writes@ == settings.writes@,
        baked.threads == settings.threads,
{
}

/// A file can be handed over where there is one with anything in it, at a path that is
/// text, and nowhere else.
pub proof fn a_file_is_handed_over_where_it_is(
    models: Seq<u8>,
    id: Seq<char>,
    name: Seq<char>,
    meta: Metadata,
)
    ensures
        usable(models, id, name, Some(meta)) <==> meta.is_file && meta.len > 0 && valid_utf8(
            below(below(models, id), name),
        ),
        !usable(models, id, name, None),
        place_of(models, id, name) == below(below(models, id), name),
        not_downloaded(name) == name
            + " is not downloaded yet. Choose it in Preferences and yapper will fetch it."@,
{
}

/// The file that is reported is the first that cannot be handed over: every one before it
/// can be.
pub proof fn the_first_missing_file_is_reported(
    models: Seq<u8>,
    id: Seq<char>,
    names: Seq<&'static str>,
    metas: Seq<Option<Metadata>>,
    at: int,
    other: int,
)
    requires
        first_unusable(models, id, names, metas, at),
        0 <= other < names.len(),
        !usable(models, id, names[other]@, metas[other]),
    ensures
        0 <= at <= other,
        !usable(models, id, names[at]@, metas[at]),
{
    if other < at {
        assert(usable(models, id, names[other]@, metas[other]));
    }
}

/// A clip of less than half a second is screened out, however loud, and any other exactly
/// where it is silent.
pub proof fn half_a_second_is_heard(samples: usize, silent: bool, out: bool)
    requires
        call_ensures(is_screened_out, (samples, silent), out),
    ensures
        2 * samples < TARGET_RATE ==> out,
        2 * samples >= TARGET_RATE ==> out == silent,
        TARGET_RATE == 16_000,
{
}

/// A clip that is screened out comes to nothing, whatever was heard in it; in any other,
/// what was heard is kept but for the white space around it and for a segment that is
/// an annotation as a whole.
pub proof fn a_clip_comes_to_what_was_heard(
    samples: usize,
    silent: bool,
    heard: String,
    text: Result<String, &'static str>,
)
    requires
        call_ensures(run, (samples, silent, Some(heard)), text),
    ensures
        text is Ok,
        2 * samples < TARGET_RATE || silent ==> text->Ok_0@.len() == 0,
        2 * samples >= TARGET_RATE && !silent ==> exists|
            lead: Seq<char>,
            whole: Seq<char>,
            rest: Seq<char>,
        |
            heard@ == #[trigger] (lead + whole + rest) && blank(lead) && blank(rest) && (whole.len()
                > 0 ==> !white_space(whole[0]) && !white_space(whole.last())) && text->Ok_0@
                == if annotation(whole) {
                Seq::empty()
            } else {
                whole
            },
{
    reveal_strlit("");
    what_was_heard_is_kept(heard@);
}

} // verus!
