//! The preferences dialog: everything in `config.toml`, with a widget each.
//!
//! Changes apply and save as you make them, which is the GNOME convention and
//! saves having an OK button that can be forgotten.
use vstd::prelude::*;

use crate::audio::InputDevice;
use crate::config::Config;
use crate::text::{
    blank, contents, joined, only_blank_text_trims_to_nothing, same, trim, trimmed,
    trimming_is_settled, white_space,
};

verus! {

/// Where the ggml models live.
pub const MODELS_URL: &'static str = "https://huggingface.co/ggerganov/whisper.cpp/tree/main";

/// What the language box sets: the code in it, or "auto" if there is none. An
/// empty box means "auto" rather than a broken setting.
pub open spec fn language_of(text: Seq<char>) -> Seq<char> {
    if blank(text) {
        "auto"@
    } else {
        trimmed(text)
    }
}

/// What the language box sets.
pub fn language_setting(text: &str) -> (language: String)
    ensures
        language@ == language_of(text@),
{
    proof {
        only_blank_text_trims_to_nothing(text@);
    }
    let code = trim(text);
    if code.is_empty() {
        "auto".to_owned()
    } else {
        code.to_owned()
    }
}

/// A change made in the dialog.
#[derive(Debug)]
pub enum Edit {
    ModelPath(Vec<u8>),
    /// What is in the language box.
    Language(String),
    Translate(bool),
    Threads(u32),
    /// What is in the vocabulary box.
    Prompt(String),
    Copy(bool),
    Type(bool),
    LivePreview(bool),
    InputDevice(String),
    PausePlayers(bool),
    HistoryLimit(usize),
}

/// Make a change: the one setting it is about, and no other.
pub fn edit(config: &mut Config, edit: Edit)
    ensures
        match edit {
            Edit::ModelPath(path) => *final(config) == (Config { model_path: path, ..*old(config) }),
            Edit::Language(text) => {
                &&& final(config).language@ == language_of(text@)
                &&& *final(config) == (Config { language: final(config).language, ..*old(config) })
            },
            Edit::Translate(on) => *final(config) == (Config { translate: on, ..*old(config) }),
            Edit::Threads(threads) => *final(config) == (Config { threads, ..*old(config) }),
            Edit::Prompt(text) => *final(config) == (Config { initial_prompt: text, ..*old(config)
            }),
            Edit::Copy(on) => *final(config) == (Config { copy_to_clipboard: on, ..*old(config) }),
            Edit::Type(on) => *final(config) == (Config { type_on_finish: on, ..*old(config) }),
            Edit::LivePreview(on) => *final(config) == (Config { live_preview: on, ..*old(config)
            }),
            Edit::InputDevice(id) => *final(config) == (Config { input_device: id, ..*old(config)
            }),
            Edit::PausePlayers(on) => *final(config) == (Config { pause_players: on, ..*old(config)
            }),
            Edit::HistoryLimit(limit) => *final(config) == (Config {
                history_limit: limit,
                ..*old(config)
            }),
        },
{
    match edit {
        Edit::ModelPath(path) => {
            config.model_path = path;
        },
        Edit::Language(text) => {
            config.language = language_setting(text.as_str());
        },
        Edit::Translate(on) => {
            config.translate = on;
        },
        Edit::Threads(threads) => {
            config.threads = threads;
        },
        Edit::Prompt(text) => {
            config.initial_prompt = text;
        },
        Edit::Copy(on) => {
            config.copy_to_clipboard = on;
        },
        Edit::Type(on) => {
            config.type_on_finish = on;
        },
        Edit::LivePreview(on) => {
            config.live_preview = on;
        },
        Edit::InputDevice(id) => {
            config.input_device = id;
        },
        Edit::PausePlayers(on) => {
            config.pause_players = on;
        },
        Edit::HistoryLimit(limit) => {
            config.history_limit = limit;
        },
    }
}

// --- the microphone picker ---------------------------------------------------

/// What the microphone picker lists: the ids it stands for, the names it shows, and
/// which is selected.
#[derive(Debug)]
pub struct Microphones {
    pub ids: Vec<String>,
    pub names: Vec<String>,
    pub selected: usize,
}

/// The ids of the devices that are connected, after the empty one that stands for
/// the system's default.
pub open spec fn connected_ids(devices: Seq<InputDevice>) -> Seq<Seq<char>> {
    seq![""@] + devices.map_values(|device: InputDevice| device.id@)
}

/// The names of the devices that are connected, after the system's default.
pub open spec fn connected_names(devices: Seq<InputDevice>) -> Seq<Seq<char>> {
    seq!["System default"@] + devices.map_values(|device: InputDevice| device.name@)
}

/// Whether a microphone that was chosen is not connected.
pub open spec fn unplugged(devices: Seq<InputDevice>, chosen: Seq<char>) -> bool {
    !connected_ids(devices).contains(chosen)
}

/// What the microphone picker lists. "System default" comes first and is what most
/// people want. A microphone that has been unplugged since it was chosen still
/// shows, so the setting does not silently look like it was never made.
pub fn microphones(devices: &[InputDevice], chosen: &str) -> (list: Microphones)
    ensures
        contents(list.ids@) == if unplugged(devices@, chosen@) {
            connected_ids(devices@).push(chosen@)
        } else {
            connected_ids(devices@)
        },
        contents(list.names@) == if unplugged(devices@, chosen@) {
            connected_names(devices@).push(chosen@ + " (not connected)"@)
        } else {
            connected_names(devices@)
        },
        list.selected < list.ids@.len(),
        list.ids@[list.selected as int]@ == chosen@,
        forall|i: int| 0 <= i < list.selected ==> (#[trigger] list.ids@[i])@ != chosen@,
{
    let mut ids: Vec<String> = vec!["".to_owned()];
    let mut names: Vec<String> = vec!["System default".to_owned()];
    assert(contents(ids@) =~= seq![""@]);
    assert(contents(names@) =~= seq!["System default"@]);
    let count: usize = devices.len();
    let mut at: usize = 0;
    let ghost all_ids = devices@.map_values(|device: InputDevice| device.id@);
    let ghost all_names = devices@.map_values(|device: InputDevice| device.name@);
    assert(seq![""@] + all_ids.take(0) =~= seq![""@]);
    assert(seq!["System default"@] + all_names.take(0) =~= seq!["System default"@]);
    while at < count
        invariant
            count == devices@.len(),
            at <= count,
            all_ids == devices@.map_values(|device: InputDevice| device.id@),
            all_names == devices@.map_values(|device: InputDevice| device.name@),
            contents(ids@) == seq![""@] + all_ids.take(at as int),
            contents(names@) == seq!["System default"@] + all_names.take(at as int),
        decreases count - at,
    {
        let ghost some_ids = contents(ids@);
        let ghost some_names = contents(names@);
        ids.push(devices[at].id.clone());
        names.push(devices[at].name.clone());
        at += 1;
        proof {
            assert(contents(ids@) =~= some_ids.push(all_ids[at - 1]));
            assert(contents(names@) =~= some_names.push(all_names[at - 1]));
            assert(seq![""@] + all_ids.take(at as int) =~= some_ids.push(all_ids[at - 1]));
            assert(seq!["System default"@] + all_names.take(at as int) =~= some_names.push(
                all_names[at - 1],
            ));
        }
    }
    assert(all_ids.take(count as int) =~= all_ids);
    assert(all_names.take(count as int) =~= all_names);
    let total: usize = ids.len();
    let mut selected: usize = 0;
    while selected < total && !same(ids[selected].as_str(), chosen)
        invariant
            total == ids@.len(),
            selected <= total,
            forall|i: int| 0 <= i < selected ==> (#[trigger] ids@[i])@ != chosen@,
        decreases total - selected,
    {
        selected += 1;
    }
    let ghost listed = contents(ids@);
    let ghost shown = contents(names@);
    assert(forall|i: int| 0 <= i < ids@.len() ==> listed[i] == (#[trigger] ids@[i])@);
    if selected == total {
        proof {
            if listed.contains(chosen@) {
                let i = choose|i: int| 0 <= i < listed.len() && listed[i] == chosen@;
                assert(ids@[i]@ == chosen@);
            }
        }
        ids.push(chosen.to_owned());
        names.push(joined(chosen, " (not connected)"));
        assert(contents(ids@) =~= listed.push(chosen@));
        assert(contents(names@) =~= shown.push(chosen@ + " (not connected)"@));
    } else {
        assert(listed[selected as int] == chosen@);
        assert(listed.contains(chosen@));
    }
    Microphones { ids, names, selected }
}

impl Microphones {
    /// The id a selection stands for. GTK answers with an invalid position when
    /// nothing is selected, and then nothing changes.
    pub fn id_at(&self, selected: u32) -> (id: Option<String>)
        ensures
            id is Some <==> (selected as int) < self.ids@.len(),
            id matches Some(id) ==> id@ == self.ids@[selected as int]@,
    {
        if (selected as usize) < self.ids.len() {
            Some(self.ids[selected as usize].clone())
        } else {
            None
        }
    }
}

// --- typing ------------------------------------------------------------------

/// What the row about typing shows.
#[derive(Debug, Clone, Copy)]
pub struct TypeRow {
    pub active: bool,
    pub sensitive: bool,
    pub subtitle: &'static str,
}

/// What the row about typing shows, given whether there is anything to type with.
pub fn type_row(config: &Config, can_type: bool) -> (row: TypeRow)
    ensures
        row.active == (config.type_on_finish && can_type),
        row.sensitive == can_type,
        row.subtitle@ == if can_type {
            "Using wtype"@
        } else {
            "Needs wtype installed"@
        },
{
    TypeRow {
        active: config.type_on_finish && can_type,
        sensitive: can_type,
        subtitle: if can_type {
            "Using wtype"
        } else {
            "Needs wtype installed"
        },
    }
}

// --- what the dialog keeps to ------------------------------------------------

/// The language box sets what is in it, but for the white space around it; and leaves
/// the language to be detected where there is nothing else in it.
pub proof fn the_language_box_sets_what_is_in_it(lead: Seq<char>, code: Seq<char>, rest: Seq<char>)
    requires
        blank(lead),
        blank(rest),
    ensures
        code.len() > 0 && !white_space(code[0]) && !white_space(code.last()) ==> language_of(
            lead + code + rest,
        ) == code,
        language_of(lead) == "auto"@,
{
    if code.len() > 0 && !white_space(code[0]) && !white_space(code.last()) {
        let text = lead + code + rest;
        trimming_is_settled(text, lead, code, rest);
        only_blank_text_trims_to_nothing(text);
    }
}

/// The picker lists the system's default first, under an id that stands for it, and then
/// every device that is connected, in order, under its own id and name. One that was
/// chosen and is not among them is not connected.
pub proof fn every_device_is_listed_after_the_default(
    devices: Seq<InputDevice>,
    chosen: Seq<char>,
    i: int,
)
    ensures
        connected_ids(devices).len() == devices.len() + 1,
        connected_names(devices).len() == devices.len() + 1,
        connected_ids(devices)[0].len() == 0,
        connected_names(devices)[0] == "System default"@,
        0 <= i < devices.len() ==> connected_ids(devices)[i + 1] == devices[i].id@
            && connected_names(devices)[i + 1] == devices[i].name@,
        unplugged(devices, chosen) <==> chosen.len() > 0 && forall|k: int|
            0 <= k < devices.len() ==> (#[trigger] devices[k]).id@ != chosen,
{
    reveal_strlit("");
    let ids = connected_ids(devices);
    assert(ids[0] == ""@);
    assert forall|k: int| 0 <= k < devices.len() implies ids[k + 1] == (#[trigger] devices[k]).id@ by {}
    if chosen.len() == 0 {
        assert(chosen =~= ""@);
        assert(ids[0] == chosen);
    }
    if !unplugged(devices, chosen) {
        let k = choose|k: int| 0 <= k < ids.len() && ids[k] == chosen;
        if k > 0 {
            assert(devices[k - 1].id@ == chosen);
        }
    }
    if exists|k: int| 0 <= k < devices.len() && (#[trigger] devices[k]).id@ == chosen {
        let k = choose|k: int| 0 <= k < devices.len() && (#[trigger] devices[k]).id@ == chosen;
        assert(ids[k + 1] == chosen);
    }
}

} // verus!
