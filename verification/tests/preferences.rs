use yapper::audio::InputDevice;
use yapper::config::Config;
use yapper::preferences::{edit, language_setting, microphones, type_row, Edit};

#[test]
fn an_empty_language_box_means_auto() {
    assert_eq!(language_setting(""), "auto");
    assert_eq!(language_setting(" \t"), "auto");
    assert_eq!(language_setting(" de "), "de");
    assert_eq!(language_setting("auto"), "auto");
}

#[test]
fn a_change_is_to_one_setting() {
    let mut config = Config::default();
    edit(&mut config, Edit::ModelPath(b"/m.bin".to_vec()));
    edit(&mut config, Edit::Language(" fr ".into()));
    edit(&mut config, Edit::Translate(true));
    edit(&mut config, Edit::Threads(12));
    edit(&mut config, Edit::Prompt(" Niamh ".into()));
    edit(&mut config, Edit::Copy(false));
    edit(&mut config, Edit::Type(true));
    edit(&mut config, Edit::LivePreview(false));
    edit(&mut config, Edit::InputDevice("mic".into()));
    edit(&mut config, Edit::PausePlayers(false));
    edit(&mut config, Edit::HistoryLimit(10));
    assert_eq!(config.model_path, b"/m.bin");
    assert_eq!(config.language, "fr");
    assert!(config.translate);
    assert_eq!(config.threads, 12);
    assert_eq!(config.initial_prompt, " Niamh ");
    assert!(!config.copy_to_clipboard && config.type_on_finish);
    assert!(!config.live_preview && !config.pause_players);
    assert_eq!(config.input_device, "mic");
    assert_eq!(config.history_limit, 10);
    assert_eq!(config.model, Config::default().model);
}

fn device(id: &str, name: &str) -> InputDevice {
    InputDevice { id: id.to_string(), name: name.to_string() }
}

#[test]
fn an_unplugged_microphone_still_shows() {
    let devices = [device("a", "Webcam"), device("b", "Headset")];
    let list = microphones(&devices, "b");
    assert_eq!(list.ids, ["", "a", "b"]);
    assert_eq!(list.names, ["System default", "Webcam", "Headset"]);
    assert_eq!(list.selected, 2);
    let list = microphones(&devices, "");
    assert_eq!((list.ids.len(), list.selected), (3, 0));
    let list = microphones(&devices, "gone");
    assert_eq!(list.ids, ["", "a", "b", "gone"]);
    assert_eq!(list.names[3], "gone (not connected)");
    assert_eq!(list.selected, 3);
    assert_eq!(list.id_at(1), Some("a".to_string()));
    // Nothing selected.
    assert_eq!(list.id_at(u32::MAX), None);
    assert_eq!(list.id_at(4), None);
}

#[test]
fn typing_is_offered_only_where_it_can_be_done() {
    let mut config = Config::default();
    config.type_on_finish = true;
    let row = type_row(&config, false);
    assert!(!row.active && !row.sensitive);
    assert_eq!(row.subtitle, "Needs wtype installed");
    let row = type_row(&config, true);
    assert!(row.active && row.sensitive);
    assert_eq!(row.subtitle, "Using wtype");
    config.type_on_finish = false;
    assert!(!type_row(&config, true).active);
}
