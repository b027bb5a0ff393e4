//! The model picker: choose a model, set its language, download or delete one.
//!
//! Every model yapper can run is a row with its size and its languages on it,
//! and picking one is a single click whether or not it is already on the disk.
//!
//! A model's language lives here too, on its own row, because the codes that
//! mean anything are the model's own: Canary has to be told one of its four and
//! cannot detect, SenseVoice knows six and will not load if asked for a
//! seventh, and Parakeet and Moonshine have nothing to be told. One box of ISO
//! codes for all of them could only ever be wrong for most of them.
use vstd::prelude::*;

use crate::config::{told, Config};
use crate::models::{
    a_clamped_language_is_accepted, accepts, clamp_language, clamped, each_engine_has_its_languages,
    human_size,
    is_installed, named, offered, rooms, size_on_disk, spoken_size, there, Engine, Metadata, Model,
    ModelView, Outcome,
};
use crate::text::{joined, joined3, same};

verus! {

/// What the picker asks the window to remember. Both arrive as they happen:
/// there is no OK button to forget.
#[derive(Debug, Clone, Copy)]
pub enum Change {
    /// Transcribe with this model from now on.
    Model(Model),
    /// This model should listen for `hears` and write `writes`: the same
    /// unless it is translating.
    Language { model: Model, hears: &'static str, writes: &'static str },
}

/// The picker's own copy of the settings, so a row can say what its model has been
/// told without asking the window back.
#[derive(Debug)]
pub struct Picker {
    pub config: Config,
}

impl Picker {
    /// Use a model from now on.
    pub fn use_model(&mut self, model: Model) -> (change: Change)
        ensures
            change == Change::Model(model),
            final(self).config.model@ == model.id@,
            final(self).config == (Config {
                model: final(self).config.model,
                ..old(self).config
            }),
    {
        self.config.model = model.id.to_owned();
        Change::Model(model)
    }

    /// Have a model listen for one language and write another, or the same.
    pub fn set_language(&mut self, model: Model, hears: &'static str, writes: &'static str) -> (change:
        Change)
        ensures
            change == (Change::Language { model, hears, writes }),
            told(final(self).config.choices@, model.id@) == Some((hears@, writes@)),
            forall|id: Seq<char>|
                id != model.id@ ==> #[trigger] told(final(self).config.choices@, id) == told(
                    old(self).config.choices@,
                    id,
                ),
            final(self).config == (Config {
                choices: final(self).config.choices,
                ..old(self).config
            }),
    {
        self.config.set_language(&model, hears, writes);
        Change::Language { model, hears, writes }
    }
}

/// The pages of a row's button stack, by name.
pub const GET: &'static str = "get";

pub const BUSY: &'static str = "busy";

pub const HAVE: &'static str = "have";

/// Whether every one of a model's files is there.
pub open spec fn all_there(metas: Seq<Option<Metadata>>) -> bool {
    forall|i: int| 0 <= i < metas.len() ==> there(#[trigger] metas[i])
}

/// What the picker says a model costs: the room it takes up, or what is to be
/// downloaded.
pub open spec fn cost(model: ModelView, metas: Seq<Option<Metadata>>) -> Seq<char> {
    if all_there(metas) {
        spoken_size(rooms(metas)) + " on disk"@
    } else {
        spoken_size(model.bytes as nat) + " to download"@
    }
}

/// The line under a model's name.
pub open spec fn described(model: ModelView, metas: Seq<Option<Metadata>>) -> Seq<char> {
    model.maker + " · "@ + cost(model, metas) + " · "@ + model.languages + "\n"@ + model.note
}

/// The line under a model's name: who made it, what it costs, what it speaks,
/// and the one thing worth knowing before choosing it. `metas` is what the system
/// says of each of its files.
pub fn describe(model: &Model, metas: &[Option<Metadata>]) -> (text: String)
    requires
        metas@.len() == model.files@.len(),
        rooms(metas@) <= u64::MAX,
    ensures
        text@ == described(model@, metas@),
{
    let size = if is_installed(model, metas) {
        joined(human_size(size_on_disk(model, metas)).as_str(), " on disk")
    } else {
        joined(human_size(model.bytes).as_str(), " to download")
    };
    let mut text = joined3(model.maker, " · ", size.as_str());
    text.append(" · ");
    text.append(model.languages);
    text.append("\n");
    text.append(model.note);
    text
}

/// What the language button says.
pub open spec fn labelled(config: Config, model: ModelView) -> Seq<char> {
    let hears = config.heard(model);
    let writes = config.written(model);
    if hears == "auto"@ {
        "Detect"@
    } else if hears == writes {
        named(model.engine, hears)
    } else {
        named(model.engine, hears) + " → "@ + named(model.engine, writes)
    }
}

/// What the language button says: the language, the pair when it is writing a
/// different one, or that it is left to decide.
pub fn language_label(config: &Config, model: &Model) -> (text: String)
    ensures
        text@ == labelled(*config, model@),
{
    let (hears, writes) = config.language(model);
    if same(hears, "auto") {
        return "Detect".to_owned();
    }
    let heard = model.engine.language_name(hears);
    if same(hears, writes) {
        heard.to_owned()
    } else {
        joined3(heard, " → ", model.engine.language_name(writes))
    }
}

/// What a row shows.
#[derive(Debug)]
pub struct RowView {
    /// The tick and the accent, on the model in use: the row you should not have
    /// to hunt for.
    pub in_use: bool,
    /// The button that would use it, hidden on the model in use, where it would do
    /// nothing.
    pub can_use: bool,
    /// Which of the buttons apply.
    pub page: &'static str,
    pub subtitle: String,
    /// What the language button says, on a model that has one.
    pub language: Option<String>,
}

/// Bring a row back in line with the disk and the settings. `downloading` is
/// whether its model is on its way.
pub fn row(model: &Model, config: &Config, downloading: bool, metas: &[Option<Metadata>]) -> (view:
    RowView)
    requires
        metas@.len() == model.files@.len(),
        rooms(metas@) <= u64::MAX,
    ensures
        view.in_use == (model.id@ == config.model@),
        view.can_use == !view.in_use,
        view.page@ == if downloading {
            BUSY@
        } else if all_there(metas@) {
            HAVE@
        } else {
            GET@
        },
        view.subtitle@ == described(model@, metas@),
        view.language is Some <==> offered(model.engine).len() > 0,
        view.language matches Some(label) ==> label@ == labelled(*config, model@),
{
    let in_use = same(model.id, config.model.as_str());
    let page = if downloading {
        BUSY
    } else if is_installed(model, metas) {
        HAVE
    } else {
        GET
    };
    let language = if model.engine.takes_language() {
        Some(language_label(config, model))
    } else {
        None
    };
    RowView { in_use, can_use: !in_use, page, subtitle: describe(model, metas), language }
}

/// What activating a row does.
#[derive(Debug, Clone, Copy, PartialEq, Eq, Structural)]
pub enum Activation {
    Nothing,
    Use,
    Fetch,
}

/// Activating a row does the obvious thing: use the model if it is here, fetch it
/// if it is not, and nothing at all while it is on its way.
pub fn activate(model: &Model, downloading: bool, metas: &[Option<Metadata>]) -> (activation:
    Activation)
    requires
        metas@.len() == model.files@.len(),
    ensures
        activation == if downloading {
            Activation::Nothing
        } else if all_there(metas@) {
            Activation::Use
        } else {
            Activation::Fetch
        },
{
    if downloading {
        Activation::Nothing
    } else if is_installed(model, metas) {
        Activation::Use
    } else {
        Activation::Fetch
    }
}

// --- the language control ----------------------------------------------------

/// The names in a model's dropdown, in order.
pub fn language_names(engine: Engine) -> (names: Vec<&'static str>)
    ensures
        names@ == offered(engine).map_values(|pair: (&'static str, &'static str)| pair.1),
{
    let codes = engine.languages();
    let count: usize = codes.len();
    let mut names: Vec<&'static str> = Vec::new();
    let mut at: usize = 0;
    while at < count
        invariant
            codes@ == offered(engine),
            count == codes@.len(),
            at <= count,
            names@ == offered(engine).map_values(
                |pair: (&'static str, &'static str)| pair.1,
            ).take(at as int),
        decreases count - at,
    {
        names.push(codes[at].1);
        at += 1;
    }
    names
}

/// Whether this is where a dropdown lists a language: where it first does, or at
/// the top if it does not.
pub open spec fn dropdown_place(engine: Engine, code: Seq<char>, at: int) -> bool {
    if accepts(engine, code) {
        &&& 0 <= at < offered(engine).len()
        &&& offered(engine)[at].0@ == code
        &&& forall|i: int| 0 <= i < at ==> (#[trigger] offered(engine)[i]).0@ != code
    } else {
        at == 0
    }
}

/// Where a dropdown lists a language.
pub fn index_of(engine: Engine, wanted: &str) -> (index: u32)
    ensures
        dropdown_place(engine, wanted@, index as int),
{
    let codes = engine.languages();
    let count: usize = codes.len();
    let mut at: usize = 0;
    while at < count
        invariant
            codes@ == offered(engine),
            count == codes@.len(),
            count <= 6,
            at <= count,
            forall|i: int| 0 <= i < at ==> (#[trigger] offered(engine)[i]).0@ != wanted@,
        decreases count - at,
    {
        if same(codes[at].0, wanted) {
            assert(offered(engine)[at as int].0@ == wanted@);
            return at as u32;
        }
        at += 1;
    }
    0
}

/// The language a dropdown's selection stands for. GTK answers with an invalid
/// position when nothing is selected, which must not be an index into the list.
pub open spec fn picked(engine: Engine, selected: u32) -> Seq<char> {
    if selected < offered(engine).len() {
        offered(engine)[selected as int].0@
    } else {
        clamped(engine, ""@)
    }
}

/// The language a dropdown's selection stands for.
pub fn pick(engine: Engine, selected: u32) -> (code: &'static str)
    ensures
        code@ == picked(engine, selected),
{
    let codes = engine.languages();
    if (selected as usize) < codes.len() {
        codes[selected as usize].0
    } else {
        clamp_language(engine, "")
    }
}

/// What a model is to be told, given what its dropdowns have selected; only a model
/// that translates has a second. Either dropdown changing sends both values, so the
/// pair is always saved as the model was actually asked for.
pub fn remembered(engine: Engine, hears: u32, writes: Option<u32>) -> (pair: (
    &'static str,
    &'static str,
))
    ensures
        pair.0@ == picked(engine, hears),
        pair.1@ == match writes {
            Some(writes) => picked(engine, writes),
            None => picked(engine, hears),
        },
{
    let heard = pick(engine, hears);
    match writes {
        Some(writes) => (heard, pick(engine, writes)),
        None => (heard, heard),
    }
}

/// Whatever a dropdown has selected, the model is asked for a language it accepts.
pub proof fn a_pick_is_accepted(engine: Engine, selected: u32)
    requires
        offered(engine).len() > 0,
    ensures
        accepts(engine, picked(engine, selected)),
{
    if selected < offered(engine).len() {
        assert(offered(engine)[selected as int].0@ == picked(engine, selected));
    } else {
        a_clamped_language_is_accepted(engine, ""@);
    }
}

/// A dropdown set to a language it lists stands for that language.
pub proof fn a_dropdown_stands_for_what_it_shows(engine: Engine, code: Seq<char>, index: u32)
    requires
        accepts(engine, code),
        dropdown_place(engine, code, index as int),
    ensures
        picked(engine, index) == code,
{
}

/// What hangs over the language button.
pub fn language_tooltip(engine: Engine) -> (text: &'static str)
    ensures
        text@ == if engine == Engine::Canary {
            "The language this model listens for, and the one it writes"@
        } else {
            "The language this model listens for"@
        },
{
    if engine.can_translate() {
        "The language this model listens for, and the one it writes"
    } else {
        "The language this model listens for"
    }
}

// --- downloading and deleting ------------------------------------------------

/// What becomes of a download that has ended.
#[derive(Debug)]
pub struct Ending {
    /// What to say, if anything.
    pub notice: Option<String>,
    /// What to write down for whoever looks into it.
    pub log: Option<String>,
    /// Whether to use the model now.
    pub use_it: bool,
}

/// The contents of a notice there may not be.
pub open spec fn notice_text(notice: Option<String>) -> Option<Seq<char>> {
    match notice {
        Some(notice) => Some(notice@),
        None => None,
    }
}

/// What becomes of a download that has ended, or whose worker went away without a
/// word, which should not happen but is not worth a crash.
///
/// You asked for it, so you get it: switching now saves a second click, and
/// switching back is one more.
pub fn download_ended(model: &Model, outcome: Option<Outcome>) -> (ending: Ending)
    ensures
        ending.use_it == (outcome matches Some(Outcome::Done)),
        match outcome {
            Some(Outcome::Done) => {
                &&& notice_text(ending.notice) == Some(model.name@ + " is ready"@)
                &&& ending.log is None
            },
            Some(Outcome::Cancelled) => {
                &&& notice_text(ending.notice) == Some("Stopped downloading "@ + model.name@)
                &&& ending.log is None
            },
            Some(Outcome::Failed(err)) => {
                &&& notice_text(ending.notice) == Some("Could not download "@ + model.name@)
                &&& notice_text(ending.log) == Some(
                    "yapper: downloading "@ + model.name@ + ": "@ + err@,
                )
            },
            None => ending.notice is None && ending.log is None,
        },
{
    match outcome {
        Some(Outcome::Done) => Ending {
            notice: Some(joined(model.name, " is ready")),
            log: None,
            use_it: true,
        },
        Some(Outcome::Cancelled) => Ending {
            notice: Some(joined("Stopped downloading ", model.name)),
            log: None,
            use_it: false,
        },
        Some(Outcome::Failed(err)) => {
            let mut log = joined3("yapper: downloading ", model.name, ": ");
            log.append(err.as_str());
            Ending {
                notice: Some(joined("Could not download ", model.name)),
                log: Some(log),
                use_it: false,
            }
        },
        None => Ending { notice: None, log: None, use_it: false },
    }
}

/// What is asked before a model is deleted.
#[derive(Debug)]
pub struct Question {
    pub heading: String,
    pub body: String,
}

/// Deleting is a click that costs a re-download of up to 670 MB, so it asks.
pub fn delete_question(model: &Model, config: &Config, metas: &[Option<Metadata>]) -> (question:
    Question)
    requires
        metas@.len() == model.files@.len(),
        rooms(metas@) <= u64::MAX,
    ensures
        question.heading@ == "Delete "@ + model.name@ + "?"@,
        question.body@ == "Its "@ + spoken_size(rooms(metas@)) + if config.model@ == model.id@ {
            " of files are removed. It is the model in use, so pick another one afterwards — the one in memory keeps working until yapper restarts."@
        } else {
            " of files are removed. You can download it again at any time."@
        },
{
    let size = human_size(size_on_disk(model, metas));
    let body = if same(config.model.as_str(), model.id) {
        joined3(
            "Its ",
            size.as_str(),
            " of files are removed. It is the model in use, so pick another one afterwards — the one in memory keeps working until yapper restarts.",
        )
    } else {
        joined3(
            "Its ",
            size.as_str(),
            " of files are removed. You can download it again at any time.",
        )
    };
    Question { heading: joined3("Delete ", model.name, "?"), body }
}

/// Whether an answer to that question is to go ahead.
pub fn goes_ahead(response: &str) -> (yes: bool)
    ensures
        yes == (response@ == "delete"@),
{
    same(response, "delete")
}

/// What to say once a model has been deleted, or could not be.
pub fn deleted_notice(model: &Model, deleted: bool) -> (notice: String)
    ensures
        notice@ == if deleted {
            "Deleted "@ + model.name@
        } else {
            "Could not delete "@ + model.name@
        },
{
    if deleted {
        joined("Deleted ", model.name)
    } else {
        joined("Could not delete ", model.name)
    }
}

// --- what the picker keeps to ------------------------------------------------

/// The line under a model's name has all there is to say of it, in order, with what it
/// costs: the room its files take up once all of them are there, and until then what is
/// to be downloaded.
pub proof fn a_model_is_described_by_what_it_costs(model: ModelView, metas: Seq<Option<Metadata>>)
    ensures
        (forall|i: int| 0 <= i < metas.len() ==> there(#[trigger] metas[i])) ==> described(
            model,
            metas,
        ) == model.maker + " · "@ + (spoken_size(rooms(metas)) + " on disk"@) + " · "@
            + model.languages + "\n"@ + model.note,
        (exists|i: int| 0 <= i < metas.len() && !there(#[trigger] metas[i])) ==> described(
            model,
            metas,
        ) == model.maker + " · "@ + (spoken_size(model.bytes as nat) + " to download"@) + " · "@
            + model.languages + "\n"@ + model.note,
{
}

/// The language button says what a model hears, or both where it writes another; and
/// that it detects it where that is left to it.
pub proof fn the_button_says_what_is_heard(config: Config, model: ModelView)
    ensures
        ({
            let hears = config.heard(model);
            let writes = config.written(model);
            &&& hears == "auto"@ ==> labelled(config, model) == "Detect"@
            &&& hears != "auto"@ && hears == writes ==> labelled(config, model) == named(
                model.engine,
                hears,
            )
            &&& hears != "auto"@ && hears != writes ==> labelled(config, model) == named(
                model.engine,
                hears,
            ) + " → "@ + named(model.engine, writes)
        }),
{
}

/// Each place in a dropdown stands for the language listed there, and no place at all
/// for the one the engine falls back on.
pub proof fn a_place_stands_for_its_language(engine: Engine, selected: u32)
    ensures
        (selected as int) < offered(engine).len() ==> picked(engine, selected)
            == offered(engine)[selected as int].0@,
        (selected as int) >= offered(engine).len() ==> picked(engine, selected)
            == if engine is SenseVoice {
            "auto"@
        } else {
            "en"@
        },
{
    reveal_strlit("");
    reveal_strlit("en");
    reveal_strlit("de");
    reveal_strlit("es");
    reveal_strlit("fr");
    reveal_strlit("auto");
    reveal_strlit("zh");
    reveal_strlit("ja");
    reveal_strlit("ko");
    reveal_strlit("yue");
    each_engine_has_its_languages(""@);
}

/// The buttons of a row are those for what activating it does: nothing while its model is
/// on its way, using it where every file is there, and fetching it where one is not.
pub proof fn a_row_offers_what_it_does(
    model: Model,
    config: Config,
    downloading: bool,
    metas: &[Option<Metadata>],
    view: RowView,
    activation: Activation,
)
    requires
        call_ensures(row, (&model, &config, downloading, metas), view),
        call_ensures(activate, (&model, downloading, metas), activation),
    ensures
        downloading <==> activation is Nothing,
        !downloading ==> (activation is Use <==> forall|i: int|
            0 <= i < metas@.len() ==> there(#[trigger] metas@[i])),
        activation is Nothing ==> view.page@ == "busy"@,
        activation is Use ==> view.page@ == "have"@,
        activation is Fetch ==> view.page@ == "get"@,
        view.in_use <==> model.id@ == config.model@,
        view.can_use <==> !view.in_use,
{
}

} // verus!
