//! The speech models yapper knows about, and getting them onto the disk.
//!
//! All of them run through sherpa-onnx, on the CPU, entirely on this machine:
//! NVIDIA's Canary and Parakeet, Moonshine, SenseVoice. They are small, they
//! are quick, and they punctuate as they go. The network is touched to fetch
//! one and never again.
//!
//! Each model lives in a directory of its own under the models directory, named
//! after its id, holding the files the engine needs under the names it expects.
use vstd::arithmetic::power2::{lemma2_to64, lemma_pow2_pos, lemma_pow2_unfold, pow2};
use vstd::prelude::*;

use crate::config::{data_base_says, models_dir, models_dir_at};
use crate::number::{decimal, digit, push_decimal, push_signed, signed_decimal};
use crate::path::{below, join};
use crate::text::{joined, joined3, same};

verus! {

/// Which family a model belongs to. They all decode the same way; what differs
/// is the files they want handed over, and what they can be told.
#[derive(Debug, Clone, Copy, PartialEq, Eq, Structural)]
pub enum Engine {
    /// NVIDIA Canary: an encoder-decoder that also translates.
    Canary,
    /// A transducer in three parts, which is how NVIDIA's Parakeet ships.
    Transducer,
    /// Moonshine, whose decoder comes in a cached and an uncached half.
    Moonshine,
    /// SenseVoice: one file, five languages.
    SenseVoice,
}

/// The languages an engine can be told to listen for, as a code and the word for
/// it.
pub open spec fn offered(engine: Engine) -> Seq<(&'static str, &'static str)> {
    match engine {
        Engine::Canary => seq![
            ("en", "English"),
            ("de", "German"),
            ("es", "Spanish"),
            ("fr", "French"),
        ],
        Engine::SenseVoice => seq![
            ("auto", "Detect automatically"),
            ("zh", "Chinese"),
            ("en", "English"),
            ("ja", "Japanese"),
            ("ko", "Korean"),
            ("yue", "Cantonese"),
        ],
        Engine::Transducer => seq![],
        Engine::Moonshine => seq![],
    }
}

/// What an engine falls back on.
pub open spec fn fallback(engine: Engine) -> Seq<char> {
    if engine == Engine::SenseVoice {
        "auto"@
    } else {
        "en"@
    }
}

/// Whether an engine can be told to listen for a language.
pub open spec fn accepts(engine: Engine, code: Seq<char>) -> bool {
    exists|i: int| 0 <= i < offered(engine).len() && (#[trigger] offered(engine)[i]).0@ == code
}

/// The nearest language an engine will actually accept.
pub open spec fn clamped(engine: Engine, wanted: Seq<char>) -> Seq<char> {
    if accepts(engine, wanted) {
        wanted
    } else {
        fallback(engine)
    }
}

impl Engine {
    /// The languages this family can be told to listen for, as a code and the
    /// word for it. Empty when the model has no say in the matter: Parakeet
    /// works it out for itself and Moonshine only knows English.
    ///
    /// These sets are not advice. Canary silently hears English if it is asked
    /// for a language it was not trained on, and SenseVoice refuses to load at
    /// all, so a language only ever reaches a model through
    /// [`clamp_language`].
    pub fn languages(self) -> (codes: &'static [(&'static str, &'static str)])
        ensures
            codes@ == offered(self),
    {
        match self {
            Engine::Canary => &[
                ("en", "English"),
                ("de", "German"),
                ("es", "Spanish"),
                ("fr", "French"),
            ],
            Engine::SenseVoice => &[
                ("auto", "Detect automatically"),
                ("zh", "Chinese"),
                ("en", "English"),
                ("ja", "Japanese"),
                ("ko", "Korean"),
                ("yue", "Cantonese"),
            ],
            Engine::Transducer => &[],
            Engine::Moonshine => &[],
        }
    }

    /// Whether naming a language does anything at all.
    pub fn takes_language(self) -> (takes: bool)
        ensures
            takes == (offered(self).len() > 0),
            takes == (self == Engine::Canary || self == Engine::SenseVoice),
    {
        self.languages().len() > 0
    }

    /// Whether it can write a language other than the one it hears, which is
    /// what translation is, and only Canary does it.
    pub fn can_translate(self) -> (can: bool)
        ensures
            can == (self == Engine::Canary),
    {
        self == Engine::Canary
    }

    /// What to fall back on: the one language Canary is happiest in, and for
    /// SenseVoice the option of not choosing.
    pub fn default_language(self) -> (code: &'static str)
        ensures
            code@ == fallback(self),
    {
        match self {
            Engine::SenseVoice => "auto",
            _ => "en",
        }
    }

    /// The word for a language code, for a line of prose about a model.
    pub fn language_name(self, code: &str) -> (name: &'static str)
        ensures
            name@ == named(self, code@),
    {
        let codes = self.languages();
        let count: usize = codes.len();
        let mut at: usize = 0;
        while at < count
            invariant
                codes@ == offered(self),
                count == codes@.len(),
                at <= count,
                forall|i: int| 0 <= i < at ==> (#[trigger] offered(self)[i]).0@ != code@,
            decreases count - at,
        {
            if same(codes[at].0, code) {
                assert(first_of(self, code@, at as int));
                proof {
                    first_is_first(self, code@, at as int);
                }
                return codes[at].1;
            }
            at += 1;
        }
        "English"
    }
}

/// Whether this is where an engine first lists a language.
pub open spec fn first_of(engine: Engine, code: Seq<char>, at: int) -> bool {
    &&& 0 <= at < offered(engine).len()
    &&& offered(engine)[at].0@ == code
    &&& forall|i: int| 0 <= i < at ==> (#[trigger] offered(engine)[i]).0@ != code
}

/// The word for a language an engine lists, and English for any other.
pub open spec fn named(engine: Engine, code: Seq<char>) -> Seq<char> {
    if accepts(engine, code) {
        offered(engine)[choose|at: int| first_of(engine, code, at)].1@
    } else {
        "English"@
    }
}

proof fn first_is_first(engine: Engine, code: Seq<char>, at: int)
    requires
        first_of(engine, code, at),
    ensures
        accepts(engine, code),
        at == choose|i: int| first_of(engine, code, i),
{
    let other = choose|i: int| first_of(engine, code, i);
    assert(first_of(engine, code, other));
    assert(offered(engine)[at].0@ == code);
    assert(offered(engine)[other].0@ == code);
}

/// The nearest language an engine will actually accept.
///
/// Every language reaches an engine through here. Canary would otherwise
/// transcribe English without saying it had ignored you, and SenseVoice
/// rejects anything outside its six, which stops the model loading, so a
/// setting left over from another model must never travel unchecked.
pub fn clamp_language(engine: Engine, wanted: &str) -> (code: &'static str)
    ensures
        code@ == clamped(engine, wanted@),
{
    let codes = engine.languages();
    let count: usize = codes.len();
    let mut at: usize = 0;
    while at < count
        invariant
            codes@ == offered(engine),
            count == codes@.len(),
            at <= count,
            forall|i: int| 0 <= i < at ==> (#[trigger] offered(engine)[i]).0@ != wanted@,
        decreases count - at,
    {
        if same(codes[at].0, wanted) {
            assert(offered(engine)[at as int].0@ == wanted@);
            return codes[at].0;
        }
        at += 1;
    }
    engine.default_language()
}

/// Whatever is asked for, what reaches an engine that listens for a language is
/// one it lists.
pub proof fn a_clamped_language_is_accepted(engine: Engine, wanted: Seq<char>)
    requires
        offered(engine).len() > 0,
    ensures
        accepts(engine, clamped(engine, wanted)),
{
    assert(offered(Engine::Canary)[0].0@ == "en"@);
    assert(offered(Engine::SenseVoice)[0].0@ == "auto"@);
}

/// Clamping a second time changes nothing.
pub proof fn a_clamped_language_stays(engine: Engine, wanted: Seq<char>)
    ensures
        clamped(engine, clamped(engine, wanted)) == clamped(engine, wanted),
{
    if offered(engine).len() > 0 {
        a_clamped_language_is_accepted(engine, wanted);
    }
}

proof fn codes_differ()
    ensures
        "en"@ != "de"@,
        "en"@ != "es"@,
        "en"@ != "fr"@,
        "de"@ != "es"@,
        "de"@ != "fr"@,
        "es"@ != "fr"@,
        "en"@ != "auto"@,
        "en"@ != "zh"@,
        "en"@ != "ja"@,
        "en"@ != "ko"@,
        "en"@ != "yue"@,
        "zh"@ != "auto"@,
        "ja"@ != "auto"@,
        "ko"@ != "auto"@,
        "yue"@ != "auto"@,
        "zh"@ != "ja"@,
        "zh"@ != "ko"@,
        "zh"@ != "yue"@,
        "ja"@ != "ko"@,
        "ja"@ != "yue"@,
        "ko"@ != "yue"@,
        "de"@ != "auto"@,
        "es"@ != "auto"@,
        "fr"@ != "auto"@,
{
    reveal_strlit("en");
    reveal_strlit("de");
    reveal_strlit("es");
    reveal_strlit("fr");
    reveal_strlit("auto");
    reveal_strlit("zh");
    reveal_strlit("ja");
    reveal_strlit("ko");
    reveal_strlit("yue");
    assert("en"@[0] == 'e' && "en"@[1] == 'n');
    assert("de"@[0] == 'd');
    assert("es"@[0] == 'e' && "es"@[1] == 's');
    assert("fr"@[0] == 'f');
    assert("auto"@[0] == 'a');
    assert("zh"@[0] == 'z');
    assert("ja"@[0] == 'j');
    assert("ko"@[0] == 'k');
    assert("yue"@[0] == 'y');
}

/// No engine lists a language twice.
pub proof fn a_language_is_listed_once(engine: Engine, i: int, j: int)
    requires
        0 <= i < j < offered(engine).len(),
    ensures
        offered(engine)[i].0@ != offered(engine)[j].0@,
{
    codes_differ();
}

/// Every language a row offers survives the clamp, and goes by the name it was
/// offered under.
pub proof fn every_offered_language_survives(engine: Engine, i: int)
    requires
        0 <= i < offered(engine).len(),
    ensures
        clamped(engine, offered(engine)[i].0@) == offered(engine)[i].0@,
        named(engine, offered(engine)[i].0@) == offered(engine)[i].1@,
{
    let code = offered(engine)[i].0@;
    assert forall|k: int| 0 <= k < i implies (#[trigger] offered(engine)[k]).0@ != code by {
        a_language_is_listed_once(engine, k, i);
    }
    assert(first_of(engine, code, i));
    first_is_first(engine, code, i);
}

/// Only SenseVoice can be left to detect the language.
pub proof fn only_sense_voice_detects(engine: Engine)
    ensures
        accepts(engine, "auto"@) <==> engine == Engine::SenseVoice,
{
    codes_differ();
    if engine == Engine::SenseVoice {
        assert(offered(engine)[0].0@ == "auto"@);
    }
}

/// One model in the catalogue: what it is, and where its files come from.
#[derive(Debug, Clone, Copy)]
pub struct Model {
    /// Stable name for the config file, and the directory the files live in.
    pub id: &'static str,
    pub name: &'static str,
    pub maker: &'static str,
    /// Spelled out for a human, not as codes.
    pub languages: &'static str,
    /// The one thing worth knowing before choosing it.
    pub note: &'static str,
    /// Total download, for the size in the list and the progress bar.
    pub bytes: u64,
    pub engine: Engine,
    /// Everything the engine needs, fetched in this order from `base`. The
    /// names double as the file names on the disk.
    pub files: &'static [&'static str],
    pub base: &'static str,
}

/// A model as its contents.
pub struct ModelView {
    pub id: Seq<char>,
    pub name: Seq<char>,
    pub maker: Seq<char>,
    pub languages: Seq<char>,
    pub note: Seq<char>,
    pub bytes: u64,
    pub engine: Engine,
    pub files: Seq<&'static str>,
    pub base: Seq<char>,
}

impl View for Model {
    type V = ModelView;

    open spec fn view(&self) -> ModelView {
        ModelView {
            id: self.id@,
            name: self.name@,
            maker: self.maker@,
            languages: self.languages@,
            note: self.note@,
            bytes: self.bytes,
            engine: self.engine,
            files: self.files@,
            base: self.base@,
        }
    }
}

/// What the picker offers.
///
/// The list is deliberately short. Every model here earns its place by being
/// the best at something, whether fastest, smallest or in most languages, rather
/// than by existing. Each is mirrored as a directory of plain files, which needs
/// no unpacking step and lets a cancelled download resume a file at a time.
pub open spec fn offers() -> Seq<ModelView> {
    seq![
        ModelView {
            id: "canary-180m-flash"@,
            name: "Canary 180M flash"@,
            maker: "NVIDIA"@,
            languages: "English, German, Spanish, French"@,
            note: "Punctuation and capitals for free, and a sentence back in a sixth of a second"@,
            bytes: 207_170_046,
            engine: Engine::Canary,
            files: seq!["encoder.int8.onnx", "decoder.int8.onnx", "tokens.txt"],
            base: "https://huggingface.co/csukuangfj/sherpa-onnx-nemo-canary-180m-flash-en-es-de-fr-int8/resolve/main"@,
        },
        ModelView {
            id: "parakeet-tdt-0.6b-v3"@,
            name: "Parakeet TDT 0.6B v3"@,
            maker: "NVIDIA"@,
            languages: "25 European languages, detected as it listens"@,
            note: "The most accurate here, and the one to reach for if you dictate in more than one language"@,
            bytes: 670_478_772,
            engine: Engine::Transducer,
            files: seq!["encoder.int8.onnx", "decoder.int8.onnx", "joiner.int8.onnx", "tokens.txt"],
            base: "https://huggingface.co/csukuangfj/sherpa-onnx-nemo-parakeet-tdt-0.6b-v3-int8/resolve/main"@,
        },
        ModelView {
            id: "moonshine-base-en"@,
            name: "Moonshine base"@,
            maker: "Useful Sensors"@,
            languages: "English"@,
            note: "Built for short dictation, and faster than anything else here at its accuracy"@,
            bytes: 286_929_760,
            engine: Engine::Moonshine,
            files: seq![
                "preprocess.onnx",
                "encode.int8.onnx",
                "uncached_decode.int8.onnx",
                "cached_decode.int8.onnx",
                "tokens.txt",
            ],
            base: "https://huggingface.co/csukuangfj/sherpa-onnx-moonshine-base-en-int8/resolve/main"@,
        },
        ModelView {
            id: "moonshine-tiny-en"@,
            name: "Moonshine tiny"@,
            maker: "Useful Sensors"@,
            languages: "English"@,
            note: "The smallest and fastest of the lot — a sentence comes back in a few hundredths of a second"@,
            bytes: 123_967_539,
            engine: Engine::Moonshine,
            files: seq![
                "preprocess.onnx",
                "encode.int8.onnx",
                "uncached_decode.int8.onnx",
                "cached_decode.int8.onnx",
                "tokens.txt",
            ],
            base: "https://huggingface.co/csukuangfj/sherpa-onnx-moonshine-tiny-en-int8/resolve/main"@,
        },
        ModelView {
            id: "sense-voice"@,
            name: "SenseVoice small"@,
            maker: "FunAudioLLM"@,
            languages: "Chinese, English, Japanese, Korean, Cantonese"@,
            note: "The pick for East Asian languages, and it writes numbers as digits"@,
            bytes: 239_549_735,
            engine: Engine::SenseVoice,
            files: seq!["model.int8.onnx", "tokens.txt"],
            base: "https://huggingface.co/csukuangfj/sherpa-onnx-sense-voice-zh-en-ja-ko-yue-2024-07-17/resolve/main"@,
        },
    ]
}

/// The contents of a list of models.
pub open spec fn model_views(models: Seq<Model>) -> Seq<ModelView> {
    models.map_values(|model: Model| model@)
}

/// What the picker offers.
pub fn catalogue() -> (models: Vec<Model>)
    ensures
        model_views(models@) == offers(),
{
    let canary = Model {
        id: "canary-180m-flash",
        name: "Canary 180M flash",
        maker: "NVIDIA",
        languages: "English, German, Spanish, French",
        note: "Punctuation and capitals for free, and a sentence back in a sixth of a second",
        bytes: 207_170_046,
        engine: Engine::Canary,
        files: &["encoder.int8.onnx", "decoder.int8.onnx", "tokens.txt"],
        base: "https://huggingface.co/csukuangfj/sherpa-onnx-nemo-canary-180m-flash-en-es-de-fr-int8/resolve/main",
    };
    let parakeet = Model {
        id: "parakeet-tdt-0.6b-v3",
        name: "Parakeet TDT 0.6B v3",
        maker: "NVIDIA",
        languages: "25 European languages, detected as it listens",
        note: "The most accurate here, and the one to reach for if you dictate in more than one language",
        bytes: 670_478_772,
        engine: Engine::Transducer,
        files: &["encoder.int8.onnx", "decoder.int8.onnx", "joiner.int8.onnx", "tokens.txt"],
        base: "https://huggingface.co/csukuangfj/sherpa-onnx-nemo-parakeet-tdt-0.6b-v3-int8/resolve/main",
    };
    let moonshine_base = Model {
        id: "moonshine-base-en",
        name: "Moonshine base",
        maker: "Useful Sensors",
        languages: "English",
        note: "Built for short dictation, and faster than anything else here at its accuracy",
        bytes: 286_929_760,
        engine: Engine::Moonshine,
        files: &[
            "preprocess.onnx",
            "encode.int8.onnx",
            "uncached_decode.int8.onnx",
            "cached_decode.int8.onnx",
            "tokens.txt",
        ],
        base: "https://huggingface.co/csukuangfj/sherpa-onnx-moonshine-base-en-int8/resolve/main",
    };
    let moonshine_tiny = Model {
        id: "moonshine-tiny-en",
        name: "Moonshine tiny",
        maker: "Useful Sensors",
        languages: "English",
        note: "The smallest and fastest of the lot — a sentence comes back in a few hundredths of a second",
        bytes: 123_967_539,
        engine: Engine::Moonshine,
        files: &[
            "preprocess.onnx",
            "encode.int8.onnx",
            "uncached_decode.int8.onnx",
            "cached_decode.int8.onnx",
            "tokens.txt",
        ],
        base: "https://huggingface.co/csukuangfj/sherpa-onnx-moonshine-tiny-en-int8/resolve/main",
    };
    let sense_voice = Model {
        id: "sense-voice",
        name: "SenseVoice small",
        maker: "FunAudioLLM",
        languages: "Chinese, English, Japanese, Korean, Cantonese",
        note: "The pick for East Asian languages, and it writes numbers as digits",
        bytes: 239_549_735,
        engine: Engine::SenseVoice,
        files: &["model.int8.onnx", "tokens.txt"],
        base: "https://huggingface.co/csukuangfj/sherpa-onnx-sense-voice-zh-en-ja-ko-yue-2024-07-17/resolve/main",
    };
    assert(canary.files@ =~= offers()[0].files);
    assert(parakeet.files@ =~= offers()[1].files);
    assert(moonshine_base.files@ =~= offers()[2].files);
    assert(moonshine_tiny.files@ =~= offers()[3].files);
    assert(sense_voice.files@ =~= offers()[4].files);
    let models = vec![canary, parakeet, moonshine_base, moonshine_tiny, sense_voice];
    assert(model_views(models@) =~= offers());
    models
}

/// What a fresh install is pointed at: small, fast, punctuated.
pub const DEFAULT: &'static str = "canary-180m-flash";

/// Whether this is where the catalogue lists a model of that name.
pub open spec fn listed_at(id: Seq<char>, at: int) -> bool {
    0 <= at < offers().len() && offers()[at].id == id
}

/// The model a setting names, or `None` if nothing in the catalogue answers to
/// it.
pub fn find(id: &str) -> (found: Option<Model>)
    ensures
        match found {
            Some(model) => exists|at: int| #[trigger] listed_at(id@, at) && model@ == offers()[at],
            None => forall|at: int| !#[trigger] listed_at(id@, at),
        },
{
    let models = catalogue();
    let count: usize = models.len();
    let mut at: usize = 0;
    assert(count == offers().len()) by {
        assert(model_views(models@).len() == models@.len());
    }
    while at < count
        invariant
            model_views(models@) == offers(),
            count == models@.len(),
            count == offers().len(),
            at <= count,
            forall|i: int| 0 <= i < at ==> !#[trigger] listed_at(id@, i),
        decreases count - at,
    {
        assert(model_views(models@)[at as int] == models@[at as int]@);
        if same(models[at].id, id) {
            assert(listed_at(id@, at as int));
            return Some(models[at]);
        }
        at += 1;
    }
    None
}

// --- what the catalogue keeps to ---------------------------------------------

/// Whether a name makes a sane directory name.
pub open spec fn sane_directory(id: Seq<char>) -> bool {
    &&& id.len() > 0
    &&& id[0] != '.'
    &&& !id.contains('/')
}

proof fn ids_are_sane()
    ensures
        forall|at: int|
            0 <= at < offers().len() ==> sane_directory((#[trigger] offers()[at]).id),
{
    reveal_strlit("canary-180m-flash");
    reveal_strlit("parakeet-tdt-0.6b-v3");
    reveal_strlit("moonshine-base-en");
    reveal_strlit("moonshine-tiny-en");
    reveal_strlit("sense-voice");
}

proof fn ids_differ()
    ensures
        forall|i: int, j: int|
            0 <= i < j < offers().len() ==> (#[trigger] offers()[i]).id != (#[trigger] offers()[j]).id,
{
    reveal_strlit("canary-180m-flash");
    reveal_strlit("parakeet-tdt-0.6b-v3");
    reveal_strlit("moonshine-base-en");
    reveal_strlit("moonshine-tiny-en");
    reveal_strlit("sense-voice");
    assert("canary-180m-flash"@[0] == 'c');
    assert("parakeet-tdt-0.6b-v3"@[0] == 'p');
    assert("moonshine-base-en"@[0] == 'm');
    assert("moonshine-base-en"@[10] == 'b');
    assert("moonshine-tiny-en"@[0] == 'm');
    assert("moonshine-tiny-en"@[10] == 't');
    assert("sense-voice"@[0] == 's');
}

proof fn bases_are_https()
    ensures
        forall|at: int|
            0 <= at < offers().len() ==> "https://"@.is_prefix_of((#[trigger] offers()[at]).base),
{
    reveal_strlit("https://");
    reveal_strlit("https://huggingface.co/csukuangfj/sherpa-onnx-nemo-canary-180m-flash-en-es-de-fr-int8/resolve/main");
    reveal_strlit("https://huggingface.co/csukuangfj/sherpa-onnx-nemo-parakeet-tdt-0.6b-v3-int8/resolve/main");
    reveal_strlit("https://huggingface.co/csukuangfj/sherpa-onnx-moonshine-base-en-int8/resolve/main");
    reveal_strlit("https://huggingface.co/csukuangfj/sherpa-onnx-moonshine-tiny-en-int8/resolve/main");
    reveal_strlit("https://huggingface.co/csukuangfj/sherpa-onnx-sense-voice-zh-en-ja-ko-yue-2024-07-17/resolve/main");
}

/// The catalogue is coherent: every model lists files, a tokens file among them,
/// and a size, goes by a name that makes a sane directory, and is fetched over
/// https.
pub proof fn the_catalogue_is_coherent(at: int)
    requires
        0 <= at < offers().len(),
    ensures
        offers()[at].files.len() > 0,
        offers()[at].bytes > 0,
        offers()[at].files.contains("tokens.txt"),
        sane_directory(offers()[at].id),
        "https://"@.is_prefix_of(offers()[at].base),
{
    ids_are_sane();
    bases_are_https();
    assert(offers()[at].files.last() == "tokens.txt");
}

/// No two models share a name, so a setting names one model or nothing.
pub proof fn no_two_models_share_an_id(id: Seq<char>, i: int, j: int)
    requires
        listed_at(id, i),
        listed_at(id, j),
    ensures
        i == j,
{
    ids_differ();
}

/// A fresh install is pointed at a model of the catalogue.
pub proof fn the_default_is_in_the_catalogue()
    ensures
        listed_at(DEFAULT@, 0),
        offers()[0].engine == Engine::Canary,
{
}

/// Every model of the catalogue is the one its own name finds.
pub proof fn every_model_is_found_by_its_id(at: int)
    requires
        0 <= at < offers().len(),
    ensures
        listed_at(offers()[at].id, at),
        forall|other: int| #[trigger] listed_at(offers()[at].id, other) ==> other == at,
{
    ids_differ();
}

// --- what is on the disk -----------------------------------------------------

/// What the system says of a file.
#[derive(Debug, Clone, Copy, PartialEq, Eq, Structural)]
pub struct Metadata {
    pub is_file: bool,
    pub len: u64,
}

/// Whether a file exists and has something in it.
pub open spec fn there(meta: Option<Metadata>) -> bool {
    meta matches Some(meta) && meta.is_file && meta.len > 0
}

/// A file that exists and has something in it. A zero-length file is what a
/// download killed at the wrong moment leaves behind. `None` is a file the
/// system will not speak of.
pub fn is_present(meta: Option<Metadata>) -> (present: bool)
    ensures
        present == there(meta),
{
    match meta {
        Some(meta) => meta.is_file && meta.len > 0,
        None => false,
    }
}

/// The directory a model's files live in, given the one for all models.
pub fn dir_in(models: &[u8], model: &Model) -> (path: Vec<u8>)
    ensures
        path@ == below(models@, model.id@),
{
    join(models, model.id)
}

/// The directory a model's files live in.
pub fn dir(model: &Model) -> (path: Vec<u8>)
    ensures
        exists|base: Option<Seq<u8>>|
            data_base_says(base) && path@ == below(#[trigger] models_dir_at(base), model.id@),
{
    let models = models_dir();
    dir_in(models.as_slice(), model)
}

/// Where one of a model's files is, if it is there at all, given the directory
/// for all models and what the system says of that place.
///
/// Only its own directory is consulted. The families share file names, and three
/// of them want an `encoder.int8.onnx`, so a file belonging to one model must
/// never stand in for another's.
pub fn file_in(models: &[u8], model: &Model, name: &str, meta: Option<Metadata>) -> (path: Option<
    Vec<u8>,
>)
    ensures
        path is Some <==> there(meta),
        path matches Some(path) ==> path@ == below(below(models@, model.id@), name@),
{
    if is_present(meta) {
        let own = dir_in(models, model);
        Some(join(own.as_slice(), name))
    } else {
        None
    }
}

/// As [`file_in`], in the directory models are kept in.
pub fn file(model: &Model, name: &str, meta: Option<Metadata>) -> (path: Option<Vec<u8>>)
    ensures
        path is Some <==> there(meta),
        path matches Some(path) ==> exists|base: Option<Seq<u8>>|
            data_base_says(base) && path@ == below(
                below(#[trigger] models_dir_at(base), model.id@),
                name@,
            ),
{
    let models = models_dir();
    file_in(models.as_slice(), model, name, meta)
}

/// Whether every one of a model's files is there. `metas` is what the system says
/// of each, in the order the model lists them.
pub fn is_installed(model: &Model, metas: &[Option<Metadata>]) -> (installed: bool)
    requires
        metas@.len() == model.files@.len(),
    ensures
        installed == forall|i: int| 0 <= i < metas@.len() ==> there(#[trigger] metas@[i]),
{
    let count: usize = metas.len();
    let mut at: usize = 0;
    while at < count
        invariant
            count == metas@.len(),
            at <= count,
            forall|i: int| 0 <= i < at ==> there(#[trigger] metas@[i]),
        decreases count - at,
    {
        if !is_present(metas[at]) {
            assert(!there(metas@[at as int]));
            return false;
        }
        at += 1;
    }
    true
}

/// What one file adds to the room a model takes up.
pub open spec fn room(meta: Option<Metadata>) -> nat {
    if there(meta) {
        meta->0.len as nat
    } else {
        0
    }
}

/// The room a model's files take up between them.
pub open spec fn rooms(metas: Seq<Option<Metadata>>) -> nat
    decreases metas.len(),
{
    if metas.len() == 0 {
        0
    } else {
        rooms(metas.drop_last()) + room(metas.last())
    }
}

proof fn rooms_grow(metas: Seq<Option<Metadata>>, at: int)
    requires
        0 <= at <= metas.len(),
    ensures
        rooms(metas.take(at)) <= rooms(metas),
    decreases metas.len() - at,
{
    if at < metas.len() {
        rooms_grow(metas, at + 1);
        assert(metas.take(at + 1).drop_last() =~= metas.take(at));
    } else {
        assert(metas.take(at) =~= metas);
    }
}

/// How much room a model takes up, for the line under its name once it is
/// installed. `metas` is as for [`is_installed`].
pub fn size_on_disk(model: &Model, metas: &[Option<Metadata>]) -> (bytes: u64)
    requires
        metas@.len() == model.files@.len(),
        rooms(metas@) <= u64::MAX,
    ensures
        bytes == rooms(metas@),
{
    let count: usize = metas.len();
    let mut at: usize = 0;
    let mut bytes: u64 = 0;
    while at < count
        invariant
            count == metas@.len(),
            at <= count,
            bytes == rooms(metas@.take(at as int)),
            rooms(metas@) <= u64::MAX,
        decreases count - at,
    {
        proof {
            rooms_grow(metas@, at + 1);
            assert(metas@.take(at + 1).drop_last() =~= metas@.take(at as int));
        }
        if is_present(metas[at]) {
            if let Some(meta) = metas[at] {
                bytes += meta.len;
            }
        }
        at += 1;
    }
    assert(metas@.take(count as int) =~= metas@);
    bytes
}

/// A model that is installed takes up room.
pub proof fn an_installed_model_takes_up_room(metas: Seq<Option<Metadata>>)
    requires
        metas.len() > 0,
        forall|i: int| 0 <= i < metas.len() ==> there(#[trigger] metas[i]),
    ensures
        rooms(metas) >= metas.len(),
    decreases metas.len(),
{
    assert(there(metas[metas.len() - 1]));
    if metas.len() > 1 {
        assert forall|i: int| 0 <= i < metas.drop_last().len() implies there(
            #[trigger] metas.drop_last()[i],
        ) by {
            assert(there(metas[i]));
        }
        an_installed_model_takes_up_room(metas.drop_last());
    }
}

// --- sizes -------------------------------------------------------------------

/// The whole number nearest to a quotient; the even one of two that are as near.
pub open spec fn nearest(n: nat, d: nat) -> nat {
    let whole = n / d;
    let rest = n % d;
    if 2 * rest < d || (2 * rest == d && whole % 2 == 0) {
        whole
    } else {
        whole + 1
    }
}

/// How far apart the doubles around a whole number are.
pub open spec fn spacing(n: nat) -> nat
    decreases n,
{
    if n < 0x20_0000_0000_0000 {
        1
    } else {
        2 * spacing(n / 2)
    }
}

/// The double nearest to a whole number.
pub open spec fn as_double(n: nat) -> nat {
    nearest(n, spacing(n)) * spacing(n)
}

/// A numerator and a denominator, doubled together until the first is at least
/// as large as the mantissa of a double of gigabytes.
pub open spec fn widened(n: nat, scale: nat) -> (nat, nat)
    decreases
            (if n < 0x10_0000_0000_0000 * 1_000_000_000 {
                0x10_0000_0000_0000 * 1_000_000_000 - n
            } else {
                0
            }),
{
    if n == 0 || n >= 0x10_0000_0000_0000 * 1_000_000_000 {
        (n, scale)
    } else {
        widened(2 * n, 2 * scale)
    }
}

/// Tenths of a gigabyte, as the double nearest to the gigabytes is rounded to one
/// decimal place.
pub open spec fn tenths(bytes: nat) -> nat {
    let (n, scale) = widened(as_double(bytes), 1);
    nearest(10 * nearest(n, 1_000_000_000), scale)
}

/// A size as a person would say it.
pub open spec fn spoken_size(bytes: nat) -> Seq<char> {
    if bytes >= 1_000_000_000 {
        decimal(tenths(bytes) / 10) + seq!['.', digit(tenths(bytes) % 10)] + " GB"@
    } else {
        decimal(nearest(bytes, 1_000_000)) + " MB"@
    }
}

fn nearest_whole(n: u128, d: u128) -> (whole: u128)
    requires
        0 < d < 0x8000_0000_0000_0000_0000_0000_0000_0000,
        n < 0x8000_0000_0000_0000_0000_0000_0000_0000,
    ensures
        whole == nearest(n as nat, d as nat),
{
    let whole: u128 = n / d;
    let rest: u128 = n % d;
    assert(n as int / d as int <= n) by (nonlinear_arith)
        requires
            0 <= n,
            0 < d,
    ;
    if 2 * rest < d || (2 * rest == d && whole % 2 == 0) {
        whole
    } else {
        whole + 1
    }
}

proof fn spacing_bounds(n: nat)
    ensures
        spacing(n) >= 1,
        n <= u64::MAX ==> spacing(n) <= 0x800,
        n < 0x20_0000_0000_0000 ==> spacing(n) == 1,
    decreases n,
{
    reveal_with_fuel(spacing, 13);
    if n >= 0x20_0000_0000_0000 {
        spacing_bounds(n / 2);
    }
}

fn find_spacing(n: u64) -> (space: u64)
    ensures
        space == spacing(n as nat),
        1 <= space <= 0x800,
    decreases n,
{
    proof {
        spacing_bounds(n as nat);
    }
    if n < 0x20_0000_0000_0000 {
        1
    } else {
        2 * find_spacing(n / 2)
    }
}

proof fn nearest_stays_close(n: nat, d: nat)
    requires
        d > 0,
    ensures
        2 * nearest(n, d) * d <= 2 * n + d,
        2 * nearest(n, d) * d + d >= 2 * n,
{
    let whole = n / d;
    let rest = n % d;
    assert(n == whole * d + rest && rest < d) by (nonlinear_arith)
        requires
            d > 0,
            whole == n / d,
            rest == n % d,
    ;
    assert((whole + 1) * d == whole * d + d) by (nonlinear_arith);
    assert(2 * whole * d == 2 * (whole * d)) by (nonlinear_arith);
    assert(2 * (whole + 1) * d == 2 * ((whole + 1) * d)) by (nonlinear_arith);
}

proof fn nearest_is_no_larger(n: nat, d: nat)
    requires
        d > 0,
    ensures
        nearest(n, d) <= n + 1,
{
    assert(n / d <= n) by (nonlinear_arith)
        requires
            d > 0,
    ;
}

/// The double nearest to a number of bytes.
fn bytes_as_double(bytes: u64) -> (double: u128)
    ensures
        double == as_double(bytes as nat),
        double <= 0x1_0000_0000_0000_0400,
        bytes >= 1_000_000_000 ==> double >= 1_000_000_000,
{
    let space: u64 = find_spacing(bytes);
    let steps: u128 = nearest_whole(bytes as u128, space as u128);
    let ghost b = bytes as nat;
    let ghost d = space as nat;
    proof {
        nearest_stays_close(b, d);
        assert(2 * steps * d == 2 * (steps * d)) by (nonlinear_arith);
        spacing_bounds(b);
        if b < 0x20_0000_0000_0000 {
            assert(d == 1);
            assert(steps * 1 == steps);
            assert(nearest(b, 1) == b);
        }
    }
    steps * (space as u128)
}

/// A size as a person would say it. Model sizes are the sort of number where
/// one decimal place is the difference between useful and noise.
pub fn human_size(bytes: u64) -> (text: String)
    ensures
        text@ == spoken_size(bytes as nat),
{
    let mut text = String::new();
    if bytes >= 1_000_000_000 {
        let start: u128 = bytes_as_double(bytes);
        let mut n: u128 = start;
        let mut scale: u128 = 1;
        while n < 0x10_0000_0000_0000 * 1_000_000_000
            invariant
                widened(start as nat, 1) == widened(n as nat, scale as nat),
                1_000_000_000 <= start <= 0x1_0000_0000_0000_0400,
                start <= n,
                n < 0x20_0000_0000_0000 * 1_000_000_000,
                1 <= scale,
                scale * 1_000_000_000 <= n,
            decreases 0x20_0000_0000_0000 * 1_000_000_000 - n,
        {
            n = 2 * n;
            scale = 2 * scale;
        }
        let mantissa: u128 = nearest_whole(n, 1_000_000_000);
        proof {
            nearest_stays_close(n as nat, 1_000_000_000);
        }
        let total: u128 = nearest_whole(10 * mantissa, scale);
        assert(total == tenths(bytes as nat));
        proof {
            nearest_is_no_larger((10 * mantissa) as nat, scale as nat);
        }
        push_decimal(&mut text, (total / 10) as u64);
        text.push('.');
        let last: u8 = (total % 10) as u8;
        text.push((48 + last) as char);
        text.append(" GB");
        assert(text@ =~= spoken_size(bytes as nat));
    } else {
        let whole: u128 = nearest_whole(bytes as u128, 1_000_000);
        push_decimal(&mut text, whole as u64);
        text.append(" MB");
        assert(text@ =~= spoken_size(bytes as nat));
    }
    text
}

// --- downloading -------------------------------------------------------------

/// How a download ended.
#[derive(Debug)]
pub enum Outcome {
    Done,
    /// The user pressed cancel; nothing to report.
    Cancelled,
    Failed(String),
}

/// How a run of curl ended.
#[derive(Debug)]
pub enum Curl {
    /// It stopped, with this exit status, or with none because it was killed.
    Ended(Option<i32>),
    /// It was taken away to be killed, which is what cancelling does.
    Taken,
    /// It could not be started.
    NotStarted(String),
    /// It could not be waited for.
    Lost(String),
}

/// What becomes of a download once curl has finished with a file.
pub enum Fetched {
    Arrived,
    Stopped,
    Broke(Seq<char>),
}

/// What a run of curl means for the file it was fetching.
pub open spec fn fetched(url: Seq<char>, curl: Curl) -> Fetched {
    match curl {
        Curl::Ended(Some(code)) => if code == 0 {
            Fetched::Arrived
        } else {
            Fetched::Broke(
                "curl could not fetch "@ + url + ": exit status "@ + signed_decimal(code as int),
            )
        },
        // Being killed is how cancelling gets curl to stop, so it is not an
        // error.
        Curl::Ended(None) => Fetched::Stopped,
        Curl::Taken => Fetched::Stopped,
        Curl::NotStarted(err) => Fetched::Broke("running curl: "@ + err@),
        Curl::Lost(err) => Fetched::Broke("waiting for curl: "@ + err@),
    }
}

/// What a run of curl means for the file it was fetching. `false` means it was
/// cancelled rather than that it failed.
pub fn curl_result(url: &str, curl: Curl) -> (result: Result<bool, String>)
    ensures
        match fetched(url@, curl) {
            Fetched::Arrived => result == Ok::<bool, String>(true),
            Fetched::Stopped => result == Ok::<bool, String>(false),
            Fetched::Broke(message) => result matches Err(err) && err@ == message,
        },
{
    match curl {
        Curl::Ended(Some(code)) => if code == 0 {
            Ok(true)
        } else {
            let mut err = joined3("curl could not fetch ", url, ": exit status ");
            push_signed(&mut err, code as i64);
            Err(err)
        },
        Curl::Ended(None) => Ok(false),
        Curl::Taken => Ok(false),
        Curl::NotStarted(err) => Err(joined("running curl: ", err.as_str())),
        Curl::Lost(err) => Err(joined("waiting for curl: ", err.as_str())),
    }
}

/// What curl is always told, ahead of where to put the file and where to get it:
/// to fail on an error from the server, to follow the redirect to the CDN, to try
/// again, to be quiet but for what went wrong, and to carry on with a file that
/// is half there rather than start it again.
pub fn curl_arguments() -> (arguments: Vec<&'static str>)
    ensures
        arguments@ == seq![
            "--fail",
            "--location",
            "--retry",
            "3",
            "--retry-delay",
            "2",
            "--connect-timeout",
            "20",
            "--silent",
            "--show-error",
            "--continue-at",
            "-",
            "--output",
        ],
{
    vec![
        "--fail",
        "--location",
        "--retry",
        "3",
        "--retry-delay",
        "2",
        "--connect-timeout",
        "20",
        "--silent",
        "--show-error",
        "--continue-at",
        "-",
        "--output",
    ]
}

/// Where one of a model's files is fetched from.
pub open spec fn url_of(base: Seq<char>, name: Seq<char>) -> Seq<char> {
    base + "/"@ + name
}

/// Where one of a model's files is fetched from.
pub fn url(model: &Model, name: &str) -> (url: String)
    ensures
        url@ == url_of(model.base@, name@),
{
    joined3(model.base, "/", name)
}

/// The name of the directory a model is assembled in.
pub open spec fn part(id: Seq<char>) -> Seq<char> {
    "."@ + id + ".part"@
}

/// The name of the directory a model is assembled in. Hidden, and beside the
/// eventual directory so finishing is a rename on the same filesystem rather than
/// a copy.
pub fn staging_name(model: &Model) -> (name: String)
    ensures
        name@ == part(model.id@),
{
    joined3(".", model.id, ".part")
}

/// A model half fetched is never where a whole one is looked for.
pub proof fn staging_is_never_a_model(staged: Seq<char>, at: int)
    requires
        0 <= at < offers().len(),
    ensures
        part(staged) != offers()[at].id,
{
    ids_are_sane();
    reveal_strlit(".");
    assert(part(staged)[0] == '.');
    assert(sane_directory(offers()[at].id));
}

/// What to do next in a download.
#[derive(Debug)]
pub enum Task {
    /// Fetch this file, from there.
    Fetch { name: &'static str, url: String },
    /// Every file has arrived: put them where they belong.
    Install,
    Stop,
}

/// A download in progress.
#[derive(Debug)]
pub struct Download {
    pub model: Model,
    /// Where the files are put until all of them are there.
    pub staging: Vec<u8>,
    /// How many have arrived.
    pub arrived: usize,
}

/// Why a download cannot start.
pub const NO_CURL: &'static str = "curl is not installed, and it is what yapper downloads models with";

/// Start fetching a model, given the directory for all models and whether there
/// is a curl to fetch it with.
///
/// Files are fetched with curl rather than by linking an HTTP client: it
/// handles the redirect to the CDN and the retries, and it keeps TLS out of
/// this program.
pub fn fetch_in(models: &[u8], model: Model, has_curl: bool) -> (download: Result<
    Download,
    &'static str,
>)
    ensures
        match download {
            Ok(download) => {
                &&& has_curl
                &&& download.model == model
                &&& download.staging@ == below(models@, part(model.id@))
                &&& download.arrived == 0
            },
            Err(message) => !has_curl && message@ == NO_CURL@,
        },
{
    if !has_curl {
        return Err(NO_CURL);
    }
    let name = staging_name(&model);
    Ok(Download { model, staging: join(models, name.as_str()), arrived: 0 })
}

/// As [`fetch_in`], in the directory models are kept in.
pub fn fetch(model: Model, has_curl: bool) -> (download: Result<Download, &'static str>)
    ensures
        match download {
            Ok(download) => {
                &&& has_curl
                &&& download.model == model
                &&& exists|base: Option<Seq<u8>>|
                    data_base_says(base) && download.staging@ == below(
                        #[trigger] models_dir_at(base),
                        part(model.id@),
                    )
                &&& download.arrived == 0
            },
            Err(message) => !has_curl && message@ == NO_CURL@,
        },
{
    let models = models_dir();
    fetch_in(models.as_slice(), model, has_curl)
}

/// The sum of some sizes.
pub open spec fn sum(sizes: Seq<u64>) -> nat
    decreases sizes.len(),
{
    if sizes.len() == 0 {
        0
    } else {
        sum(sizes.drop_last()) + sizes.last() as nat
    }
}

proof fn sums_grow(sizes: Seq<u64>, at: int)
    requires
        0 <= at <= sizes.len(),
    ensures
        sum(sizes.take(at)) <= sum(sizes),
    decreases sizes.len() - at,
{
    if at < sizes.len() {
        sums_grow(sizes, at + 1);
        assert(sizes.take(at + 1).drop_last() =~= sizes.take(at));
    } else {
        assert(sizes.take(at) =~= sizes);
    }
}

impl Download {
    /// Whether no more files have arrived than there are.
    pub open spec fn valid(self) -> bool {
        self.arrived <= self.model.files@.len()
    }

    /// Whether every file has arrived, so that they are to be installed.
    pub open spec fn installs(self) -> bool {
        self.arrived == self.model.files@.len()
    }

    /// Whether it is to stop, having been cancelled or not.
    pub open spec fn stops(self, cancelled: bool) -> bool {
        self.arrived < self.model.files@.len() && cancelled
    }

    /// Whether it is to fetch another file, having been cancelled or not.
    pub open spec fn fetches(self, cancelled: bool) -> bool {
        self.arrived < self.model.files@.len() && !cancelled
    }

    /// What a run of curl means for the file that is due.
    pub open spec fn made_of(self, curl: Curl) -> Fetched {
        fetched(url_of(self.model.base@, self.model.files@[self.arrived as int]@), curl)
    }

    /// Whether this is what a download becomes once curl has been sent for a file.
    pub open spec fn follows(self, before: Download, curl: Curl) -> bool {
        &&& self.model == before.model
        &&& self.staging == before.staging
        &&& self.arrived == before.arrived + if before.made_of(curl) is Arrived {
            1int
        } else {
            0
        }
    }

    /// What to do next. Cancelling is noticed ahead of each file.
    pub fn next(&self, cancelled: bool) -> (task: Task)
        requires
            self.valid(),
        ensures
            task is Install <==> self.installs(),
            task is Stop <==> self.stops(cancelled),
            task is Fetch <==> self.fetches(cancelled),
            task matches Task::Fetch { name, url } ==> {
                &&& name@ == self.model.files@[self.arrived as int]@
                &&& url@ == url_of(self.model.base@, name@)
            },
    {
        if self.arrived == self.model.files.len() {
            return Task::Install;
        }
        if cancelled {
            return Task::Stop;
        }
        let name = self.model.files[self.arrived];
        Task::Fetch { name, url: url(&self.model, name) }
    }

    /// Take in how curl got on with the file it was sent for. The download is
    /// over, one way or the other, unless that file arrived.
    pub fn curl_ended(&mut self, curl: Curl) -> (over: Option<Outcome>)
        requires
            old(self).valid(),
            old(self).arrived < old(self).model.files@.len(),
        ensures
            final(self).valid(),
            final(self).follows(*old(self), curl),
            match old(self).made_of(curl) {
                Fetched::Arrived => over is None,
                Fetched::Stopped => over == Some(Outcome::Cancelled),
                Fetched::Broke(message) => over matches Some(Outcome::Failed(err)) && err@
                    == message,
            },
    {
        let url = url(&self.model, self.model.files[self.arrived]);
        match curl_result(url.as_str(), curl) {
            Ok(true) => {
                self.arrived += 1;
                None
            },
            Ok(false) => Some(Outcome::Cancelled),
            Err(err) => Some(Outcome::Failed(err)),
        }
    }

    /// Bytes on the disk so far, given the sizes of what is in the staging
    /// directory. Reading the sizes back is simpler than parsing curl's progress,
    /// and it stays right when a file is resumed.
    pub fn bytes(&self, sizes: &[u64]) -> (total: u64)
        requires
            sum(sizes@) <= u64::MAX,
        ensures
            total == sum(sizes@),
    {
        let count: usize = sizes.len();
        let mut at: usize = 0;
        let mut total: u64 = 0;
        while at < count
            invariant
                count == sizes@.len(),
                at <= count,
                total == sum(sizes@.take(at as int)),
                sum(sizes@) <= u64::MAX,
            decreases count - at,
        {
            proof {
                sums_grow(sizes@, at + 1);
                assert(sizes@.take(at + 1).drop_last() =~= sizes@.take(at as int));
            }
            total += sizes[at];
            at += 1;
        }
        assert(sizes@.take(count as int) =~= sizes@);
        total
    }
}

/// How putting the files where they belong ended.
#[derive(Debug)]
pub enum Installed {
    /// What was there before could not be cleared away.
    NotReplaced,
    /// The files could not be moved.
    NotMoved(String),
    Moved,
}

/// How a download ends whose files have all arrived. `shown` is the model's own
/// directory, as it is shown.
pub fn install_outcome(shown: &str, installed: Installed) -> (outcome: Outcome)
    ensures
        match installed {
            Installed::NotReplaced => outcome matches Outcome::Failed(err) && err@
                == "could not replace "@ + shown@,
            Installed::NotMoved(why) => outcome matches Outcome::Failed(err) && err@
                == "could not install "@ + shown@ + ": "@ + why@,
            Installed::Moved => outcome is Done,
        },
{
    match installed {
        Installed::NotReplaced => Outcome::Failed(joined("could not replace ", shown)),
        Installed::NotMoved(why) => {
            let mut err = joined3("could not install ", shown, ": ");
            err.append(why.as_str());
            Outcome::Failed(err)
        },
        Installed::Moved => Outcome::Done,
    }
}

/// Whether the staging directory has to be cleared away. A cancelled or failed
/// download leaves nothing behind to be mistaken for a usable model.
pub fn clears_staging(outcome: &Outcome) -> (clears: bool)
    ensures
        clears == !(outcome is Done),
{
    match outcome {
        Outcome::Done => false,
        _ => true,
    }
}

/// Whether this is a run of a download from its start: it as it stood ahead of each
/// file and at the end, whether it was cancelled by then, and how curl got on with
/// that file. Only a file that arrived is followed by another.
pub open spec fn is_download(stood: Seq<Download>, cancelled: Seq<bool>, curls: Seq<Curl>) -> bool {
    &&& stood.len() == curls.len() + 1
    &&& cancelled.len() == curls.len()
    &&& stood[0].valid()
    &&& stood[0].arrived == 0
    &&& forall|i: int|
        0 <= i < curls.len() ==> {
            &&& (#[trigger] stood[i]).fetches(cancelled[i])
            &&& stood[i + 1].follows(stood[i], curls[i])
            &&& i + 1 < curls.len() ==> stood[i].made_of(curls[i]) is Arrived
        }
}

proof fn files_arrive_one_by_one(
    stood: Seq<Download>,
    cancelled: Seq<bool>,
    curls: Seq<Curl>,
    at: int,
)
    requires
        is_download(stood, cancelled, curls),
        0 <= at < stood.len(),
    ensures
        stood[at].model == stood[0].model,
        at < curls.len() ==> stood[at].arrived == at,
        at > 0 ==> stood[at].arrived == if stood[at - 1].made_of(curls[at - 1]) is Arrived {
            at
        } else {
            at - 1
        },
    decreases at,
{
    if at > 0 {
        files_arrive_one_by_one(stood, cancelled, curls, at - 1);
        assert(stood[at - 1].fetches(cancelled[at - 1]));
        assert(stood[at - 1 + 1].follows(stood[at - 1], curls[at - 1]));
    }
}

/// Nothing is installed until everything has arrived: a download gets to installing
/// exactly when curl was sent for every file, in the order the model lists them, and
/// got every one of them; and being cancelled ahead of any file stops it.
pub proof fn nothing_is_installed_until_everything_arrived(
    stood: Seq<Download>,
    cancelled: Seq<bool>,
    curls: Seq<Curl>,
)
    requires
        is_download(stood, cancelled, curls),
    ensures
        stood.last().installs() <==> curls.len() == stood[0].model.files@.len() && forall|i: int|
            0 <= i < curls.len() ==> #[trigger] curls[i] == Curl::Ended(Some(0i32)),
        forall|i: int| 0 <= i < curls.len() ==> (#[trigger] stood[i]).arrived == i,
        forall|i: int| 0 <= i < cancelled.len() ==> !#[trigger] cancelled[i],
        !stood.last().installs() ==> stood.last().stops(true),
{
    let count = curls.len() as int;
    assert forall|i: int| 0 <= i < count implies (#[trigger] stood[i]).arrived == i by {
        files_arrive_one_by_one(stood, cancelled, curls, i);
    }
    assert forall|i: int| 0 <= i < cancelled.len() implies !#[trigger] cancelled[i] by {
        assert(stood[i].fetches(cancelled[i]));
    }
    files_arrive_one_by_one(stood, cancelled, curls, count);
    assert forall|i: int| 0 <= i < count - 1 implies #[trigger] curls[i] == Curl::Ended(
        Some(0i32),
    ) by {
        assert(stood[i].fetches(cancelled[i]));
        assert(stood[i].made_of(curls[i]) is Arrived);
    }
    if count > 0 {
        assert(stood[count - 1].fetches(cancelled[count - 1]));
        files_arrive_one_by_one(stood, cancelled, curls, count - 1);
    }
}

// --- what the catalogue and the sizes keep to --------------------------------

/// What each engine can be told to listen for, and what it is told instead of anything
/// else.
pub proof fn each_engine_has_its_languages(code: Seq<char>)
    ensures
        accepts(Engine::Canary, code) <==> code == "en"@ || code == "de"@ || code == "es"@ || code
            == "fr"@,
        accepts(Engine::SenseVoice, code) <==> code == "auto"@ || code == "zh"@ || code == "en"@
            || code == "ja"@ || code == "ko"@ || code == "yue"@,
        !accepts(Engine::Transducer, code),
        !accepts(Engine::Moonshine, code),
        accepts(Engine::Canary, code) ==> clamped(Engine::Canary, code) == code,
        !accepts(Engine::Canary, code) ==> clamped(Engine::Canary, code) == "en"@,
        accepts(Engine::SenseVoice, code) ==> clamped(Engine::SenseVoice, code) == code,
        !accepts(Engine::SenseVoice, code) ==> clamped(Engine::SenseVoice, code) == "auto"@,
        clamped(Engine::Transducer, code) == "en"@,
        clamped(Engine::Moonshine, code) == "en"@,
{
    let canary = offered(Engine::Canary);
    let sense = offered(Engine::SenseVoice);
    assert(canary[0].0@ == "en"@ && canary[1].0@ == "de"@ && canary[2].0@ == "es"@
        && canary[3].0@ == "fr"@);
    assert(sense[0].0@ == "auto"@ && sense[1].0@ == "zh"@ && sense[2].0@ == "en"@ && sense[3].0@
        == "ja"@ && sense[4].0@ == "ko"@ && sense[5].0@ == "yue"@);
}

/// A language goes by the word listed beside it, and any other by that for English.
pub proof fn a_language_goes_by_its_word(engine: Engine, i: int, code: Seq<char>)
    ensures
        0 <= i < offered(engine).len() ==> named(engine, offered(engine)[i].0@)
            == offered(engine)[i].1@,
        !accepts(engine, code) ==> named(engine, code) == "English"@,
        named(Engine::Canary, "de"@) == "German"@,
        named(Engine::Canary, "es"@) == "Spanish"@,
        named(Engine::Canary, "fr"@) == "French"@,
        named(Engine::Canary, "en"@) == "English"@,
        named(Engine::SenseVoice, "zh"@) == "Chinese"@,
        named(Engine::SenseVoice, "ja"@) == "Japanese"@,
        named(Engine::SenseVoice, "ko"@) == "Korean"@,
        named(Engine::SenseVoice, "yue"@) == "Cantonese"@,
        named(Engine::SenseVoice, "en"@) == "English"@,
{
    listed_words(engine, i);
    listed_words(Engine::Canary, 0);
    listed_words(Engine::Canary, 1);
    listed_words(Engine::Canary, 2);
    listed_words(Engine::Canary, 3);
    listed_words(Engine::SenseVoice, 1);
    listed_words(Engine::SenseVoice, 2);
    listed_words(Engine::SenseVoice, 3);
    listed_words(Engine::SenseVoice, 4);
    listed_words(Engine::SenseVoice, 5);
}

proof fn listed_words(engine: Engine, i: int)
    ensures
        0 <= i < offered(engine).len() ==> named(engine, offered(engine)[i].0@)
            == offered(engine)[i].1@,
{
    if 0 <= i < offered(engine).len() {
        let code = offered(engine)[i].0@;
        assert forall|k: int| 0 <= k < i implies (#[trigger] offered(engine)[k]).0@ != code by {
            a_language_is_listed_once(engine, k, i);
        }
        assert(first_of(engine, code, i));
        first_is_first(engine, code, i);
    }
}

/// A file counts for what is in it, and for nothing where it is not there; a model for
/// all of its files together.
pub proof fn files_add_up(a: Seq<Option<Metadata>>, b: Seq<Option<Metadata>>, meta: Metadata)
    ensures
        rooms(a + b) == rooms(a) + rooms(b),
        rooms(Seq::empty()) == 0,
        rooms(seq![None::<Metadata>]) == 0,
        rooms(seq![Some(meta)]) == if meta.is_file {
            meta.len as nat
        } else {
            0
        },
        there(Some(meta)) <==> meta.is_file && meta.len > 0,
        !there(None),
    decreases b.len(),
{
    reveal_with_fuel(rooms, 2);
    assert(seq![None::<Metadata>].drop_last() =~= Seq::empty());
    assert(seq![Some(meta)].drop_last() =~= Seq::empty());
    if b.len() == 0 {
        assert(a + b =~= a);
    } else {
        assert((a + b).drop_last() =~= a + b.drop_last());
        files_add_up(a, b.drop_last(), meta);
    }
}

/// What has arrived of a download is what has arrived of each of its files.
pub proof fn sizes_add_up(a: Seq<u64>, b: Seq<u64>, size: u64)
    ensures
        sum(a + b) == sum(a) + sum(b),
        sum(Seq::empty()) == 0,
        sum(seq![size]) == size,
    decreases b.len(),
{
    reveal_with_fuel(sum, 2);
    assert(seq![size].drop_last() =~= Seq::empty());
    if b.len() == 0 {
        assert(a + b =~= a);
    } else {
        assert((a + b).drop_last() =~= a + b.drop_last());
        sizes_add_up(a, b.drop_last(), size);
    }
}

/// Below a gigabyte, a size is spoken of in whole megabytes, the nearest to it, and of
/// two as near the even one.
pub proof fn small_sizes_are_spoken_of_in_megabytes(bytes: nat)
    requires
        bytes < 1_000_000_000,
    ensures
        exists|whole: nat|
            spoken_size(bytes) == #[trigger] decimal(whole) + " MB"@ && whole * 1_000_000 <= bytes
                + 500_000 && bytes <= whole * 1_000_000 + 500_000 && (whole * 1_000_000 == bytes
                + 500_000 || bytes == whole * 1_000_000 + 500_000 ==> whole % 2 == 0),
{
    let whole = nearest(bytes, 1_000_000);
    nearest_stays_close(bytes, 1_000_000);
    assert(spoken_size(bytes) == decimal(whole) + " MB"@);
}

proof fn widening_keeps_the_ratio(n: nat, scale: nat)
    requires
        n > 0,
    ensures
        widened(n, scale).0 * scale == n * widened(n, scale).1,
        widened(n, scale).0 >= 0x10_0000_0000_0000 * 1_000_000_000,
    decreases
            (if n < 0x10_0000_0000_0000 * 1_000_000_000 {
                0x10_0000_0000_0000 * 1_000_000_000 - n
            } else {
                0
            }),
{
    if n < 0x10_0000_0000_0000 * 1_000_000_000 {
        widening_keeps_the_ratio(2 * n, 2 * scale);
        let (m, k) = widened(2 * n, 2 * scale);
        assert(m * scale == n * k) by (nonlinear_arith)
            requires
                m * (2 * scale) == (2 * n) * k,
        ;
    }
}

proof fn a_double_is_close(bytes: nat)
    requires
        bytes <= u64::MAX,
    ensures
        bytes <= as_double(bytes) + 1024,
        as_double(bytes) <= bytes + 1024,
{
    let space = spacing(bytes);
    spacing_bounds(bytes);
    nearest_stays_close(bytes, space);
    let steps = nearest(bytes, space);
    assert(2 * steps * space == 2 * (steps * space)) by (nonlinear_arith);
}

proof fn tenths_are_close(double: nat)
    requires
        0 < double <= u64::MAX + 1024,
    ensures
        ({
            let (n, scale) = widened(double, 1);
            let tenths = nearest(10 * nearest(n, 1_000_000_000), scale);
            &&& tenths * 100_000_000 <= double + 50_002_050
            &&& double <= tenths * 100_000_000 + 50_002_050
        }),
{
    let (n, k) = widened(double, 1);
    widening_keeps_the_ratio(double, 1);
    assert(n == double * k);
    assert(k >= 244_000) by (nonlinear_arith)
        requires
            double * k >= 0x10_0000_0000_0000 * 1_000_000_000,
            0 < double <= 0xffff_ffff_ffff_ffff + 1024,
    ;
    let q = nearest(n, 1_000_000_000);
    let t = nearest(10 * q, k);
    nearest_stays_close(n, 1_000_000_000);
    nearest_stays_close(10 * q, k);
    let tk = t * k;
    assert(2 * t * k == 2 * tk) by (nonlinear_arith)
        requires
            tk == t * k,
    ;
    assert(100_000_000 * tk <= n + 50_002_050 * k);
    assert(n <= 100_000_000 * tk + 50_002_050 * k);
    assert(t * 100_000_000 <= double + 50_002_050) by (nonlinear_arith)
        requires
            100_000_000 * (t * k) <= double * k + 50_002_050 * k,
            k > 0,
    ;
    assert(double <= t * 100_000_000 + 50_002_050) by (nonlinear_arith)
        requires
            double * k <= 100_000_000 * (t * k) + 50_002_050 * k,
            k > 0,
    ;
}

/// Whether this is the nearest of some parts of a whole to a number of them: no more than
/// half a part away, and even where it is that far.
pub open spec fn is_nearest(whole: nat, n: nat, d: nat) -> bool {
    &&& 2 * (whole * d) <= 2 * n + d
    &&& 2 * n <= 2 * (whole * d) + d
    &&& 2 * (whole * d) == 2 * n + d || 2 * n == 2 * (whole * d) + d ==> whole % 2 == 0
}

proof fn nearest_is_nearest(n: nat, d: nat)
    requires
        d > 0,
    ensures
        is_nearest(nearest(n, d), n, d),
{
    let whole = n / d;
    let rest = n % d;
    assert(n == whole * d + rest && rest < d) by (nonlinear_arith)
        requires
            d > 0,
            whole == n / d,
            rest == n % d,
    ;
    assert((whole + 1) * d == whole * d + d) by (nonlinear_arith);
}

proof fn widening_by_doubling(n: nat, e: nat) -> (more: nat)
    requires
        0 < n < 2 * 0x10_0000_0000_0000 * 1_000_000_000,
    ensures
        widened(n, pow2(e)).1 == pow2(more),
        widened(n, pow2(e)).0 < 2 * 0x10_0000_0000_0000 * 1_000_000_000,
    decreases
            (if n < 0x10_0000_0000_0000 * 1_000_000_000 {
                0x10_0000_0000_0000 * 1_000_000_000 - n
            } else {
                0
            }),
{
    if n < 0x10_0000_0000_0000 * 1_000_000_000 {
        lemma_pow2_unfold(e + 1);
        widening_by_doubling(2 * n, e + 1)
    } else {
        e
    }
}

/// Whether a mantissa of fifty-three bits over a power of two is the double nearest to so
/// many gigabytes, the bytes given.
pub open spec fn is_double_of(mantissa: nat, exponent: nat, bytes: nat) -> bool {
    &&& 0x10_0000_0000_0000 <= mantissa <= 0x20_0000_0000_0000
    &&& is_nearest(mantissa, bytes * pow2(exponent), 1_000_000_000)
}

/// The tenths of a gigabyte that are spoken of are the nearest to the double that is
/// nearest to the gigabytes, of any size a double counts byte by byte.
pub proof fn gigabytes_are_rounded_as_doubles_are(bytes: nat)
    requires
        1_000_000_000 <= bytes < 0x20_0000_0000_0000,
    ensures
        exists|mantissa: nat, exponent: nat, tenths: nat|
            #[trigger] is_double_of(mantissa, exponent, bytes) && #[trigger] is_nearest(
                tenths,
                10 * mantissa,
                pow2(exponent),
            ) && spoken_size(bytes) == decimal(tenths / 10) + seq!['.'] + decimal(tenths % 10)
                + " GB"@,
{
    spacing_bounds(bytes);
    nearest_is_nearest(bytes, 1);
    assert(as_double(bytes) == bytes) by {
        assert(nearest(bytes, 1) * 1 == nearest(bytes, 1));
        assert(nearest(bytes, 1) == bytes);
    }
    lemma2_to64();
    assert(pow2(0) == 1);
    let exponent = widening_by_doubling(bytes, 0);
    widening_keeps_the_ratio(bytes, 1);
    let (n, scale) = widened(bytes, 1);
    assert(scale == pow2(exponent));
    assert(n == bytes * scale);
    lemma_pow2_pos(exponent);
    let mantissa = nearest(n, 1_000_000_000);
    nearest_is_nearest(n, 1_000_000_000);
    nearest_is_nearest(10 * mantissa, scale);
    let t = tenths(bytes);
    assert(is_double_of(mantissa, exponent, bytes));
    assert(is_nearest(t, 10 * mantissa, pow2(exponent)));
    assert(decimal(t % 10) =~= seq![digit(t % 10)]);
    assert(decimal(t / 10) + seq!['.'] + decimal(t % 10) =~= decimal(t / 10) + seq![
        '.',
        digit(t % 10),
    ]);
}

/// From a gigabyte on, a size is spoken of in gigabytes and tenths of one, the nearest
/// to it but for what a double leaves out, which is next to nothing.
pub proof fn large_sizes_are_spoken_of_in_gigabytes(bytes: nat)
    requires
        1_000_000_000 <= bytes <= u64::MAX,
    ensures
        exists|tenths: nat|
            spoken_size(bytes) == #[trigger] decimal(tenths / 10) + seq!['.'] + decimal(tenths % 10)
                + " GB"@ && tenths * 100_000_000 <= bytes + 50_004_096 && bytes <= tenths
                * 100_000_000 + 50_004_096,
{
    let double = as_double(bytes);
    a_double_is_close(bytes);
    tenths_are_close(double);
    let t = tenths(bytes);
    assert(decimal(t % 10) =~= seq![digit(t % 10)]);
    assert(decimal(t / 10) + seq!['.'] + decimal(t % 10) =~= decimal(t / 10) + seq![
        '.',
        digit(t % 10),
    ]);
    assert(spoken_size(bytes) == decimal(t / 10) + seq!['.'] + decimal(t % 10) + " GB"@);
}

/// A file has arrived exactly where curl came to its end without complaint. Killed or
/// taken away, it was stopped; and whatever else went wrong is said, with what is known
/// of it.
pub proof fn curl_decides_what_arrived(url: Seq<char>, code: i32, err: String)
    ensures
        fetched(url, Curl::Ended(Some(0))) is Arrived,
        code != 0 ==> fetched(url, Curl::Ended(Some(code))) == Fetched::Broke(
            "curl could not fetch "@ + url + ": exit status "@ + signed_decimal(code as int),
        ),
        fetched(url, Curl::Ended(None)) is Stopped,
        fetched(url, Curl::Taken) is Stopped,
        fetched(url, Curl::NotStarted(err)) == Fetched::Broke("running curl: "@ + err@),
        fetched(url, Curl::Lost(err)) == Fetched::Broke("waiting for curl: "@ + err@),
{
}

/// A file is fetched from its model's place on the network, under its own name, and put
/// into a hidden directory named after its model.
pub proof fn a_file_is_fetched_by_its_name(base: Seq<char>, name: Seq<char>, id: Seq<char>)
    ensures
        base.is_prefix_of(url_of(base, name)),
        name.is_suffix_of(url_of(base, name)),
        url_of(base, name).len() == base.len() + 1 + name.len(),
        url_of(base, name)[base.len() as int] == '/',
        part(id)[0] == '.',
        part(id).subrange(1, id.len() as int + 1) == id,
        part(id).skip(id.len() as int + 1) == ".part"@,
{
    reveal_strlit("/");
    reveal_strlit(".");
    let url = url_of(base, name);
    assert(url.take(base.len() as int) =~= base);
    assert(url.skip(url.len() - name.len()) =~= name);
    assert(part(id).subrange(1, id.len() as int + 1) =~= id);
    assert(part(id).skip(id.len() as int + 1) =~= ".part"@);
}

/// A download fetches its next file until all are there or it is cancelled, and installs
/// them once they are; it comes one file further with each that arrives, and no further
/// with any other.
pub proof fn a_download_goes_file_by_file(
    before: Download,
    after: Download,
    curl: Curl,
    cancelled: bool,
)
    requires
        before.valid(),
    ensures
        before.arrived == before.model.files@.len() ==> before.installs() && !before.stops(
            cancelled,
        ) && !before.fetches(cancelled),
        before.arrived < before.model.files@.len() ==> !before.installs() && before.stops(cancelled)
            == cancelled && before.fetches(cancelled) == !cancelled,
        after.follows(before, curl) ==> {
            &&& after.model == before.model
            &&& after.staging == before.staging
            &&& curl == Curl::Ended(Some(0)) ==> after.arrived == before.arrived + 1
            &&& curl != Curl::Ended(Some(0)) ==> after.arrived == before.arrived
        },
        after.follows(before, curl) && before.fetches(cancelled) ==> after.valid(),
        before.fetches(cancelled) ==> before.made_of(curl) == fetched(
            before.model.base@ + "/"@ + before.model.files@[before.arrived as int]@,
            curl,
        ),
{
}

} // verus!
