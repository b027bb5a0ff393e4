use yapper::config::{
    config_path, config_path_in, default_model_path, default_model_path_in, models_dir,
    models_dir_in, Config,
};
use yapper::models::{find, DEFAULT};

#[test]
fn a_blank_prompt_is_no_prompt() {
    let mut config = Config::default();
    assert_eq!(config.prompt(), None);
    config.initial_prompt = "   \n ".into();
    assert_eq!(config.prompt(), None, "whitespace is not a prompt");
    config.initial_prompt = "  Hyprland, libadwaita  ".into();
    assert_eq!(config.prompt(), Some("Hyprland, libadwaita"));
}

#[test]
fn auto_and_empty_both_mean_detect_the_language() {
    let mut config = Config::default();
    assert_eq!(config.language_code(), None);
    config.language = String::new();
    assert_eq!(config.language_code(), None);
    config.language = "en".into();
    assert_eq!(config.language_code(), Some("en"));
}

#[test]
fn the_defaults_are_what_the_documentation_says() {
    let config = Config::default();
    assert_eq!(config.model, DEFAULT);
    assert_eq!(config.language, "auto");
    assert!(!config.translate && config.threads == 0);
    assert!(config.copy_to_clipboard && !config.type_on_finish);
    assert_eq!(config.history_limit, 200);
    assert!(config.live_preview && config.pause_players);
    assert_eq!(config.input_device, "");
    assert_eq!(config.initial_prompt, "");
    assert!(config.choices.is_empty());
    assert!(config.model_path.ends_with(b"yapper/models/ggml-base.en.bin"));
}

#[test]
fn files_live_where_the_documentation_says() {
    let home = |rest: &str| Some(format!("/home/you/{rest}").into_bytes());
    assert_eq!(
        config_path_in(home(".config")),
        b"/home/you/.config/yapper/config.toml"
    );
    assert_eq!(
        models_dir_in(home(".local/share")),
        b"/home/you/.local/share/yapper/models"
    );
    assert_eq!(
        default_model_path_in(b"/home/you/.local/share/yapper/models"),
        b"/home/you/.local/share/yapper/models/ggml-base.en.bin"
    );
    // Somewhere is better than nowhere.
    assert_eq!(config_path_in(None), b"./yapper/config.toml");
    assert_eq!(models_dir_in(None), b"./yapper/models");
}

#[test]
fn the_system_says_where_files_live() {
    let expected = |base: Option<std::path::PathBuf>, rest: &str| {
        base.unwrap_or_else(|| std::path::PathBuf::from("."))
            .join(rest)
            .into_os_string()
            .into_encoded_bytes()
    };
    assert_eq!(config_path(), expected(dirs::config_dir(), "yapper/config.toml"));
    assert_eq!(models_dir(), expected(dirs::data_dir(), "yapper/models"));
    assert_eq!(
        default_model_path(),
        expected(dirs::data_dir(), "yapper/models/ggml-base.en.bin")
    );
}

#[test]
fn threads_are_counted_from_the_cores() {
    let mut config = Config::default();
    for (cores, threads) in [(0, 1), (1, 1), (2, 1), (3, 2), (8, 7), (9, 8), (64, 8)] {
        assert_eq!(config.thread_count(Some(cores)), threads, "{cores} cores");
    }
    assert_eq!(config.thread_count(None), 3);
    config.threads = 6;
    assert_eq!(config.thread_count(Some(64)), 6);
    config.threads = u32::MAX;
    assert_eq!(config.thread_count(None), u32::MAX as i32);
    config.threads = 0x8000_0000;
    assert_eq!(config.thread_count(None), i32::MIN);
}

#[test]
fn a_setting_names_the_model_or_none() {
    let mut config = Config::default();
    assert_eq!(config.model().unwrap().id, DEFAULT);
    config.model = "sense-voice".into();
    assert_eq!(config.model().unwrap().name, "SenseVoice small");
    config.model = "base.en".into();
    assert!(config.model().is_none());
}

#[test]
fn a_model_hears_what_it_was_told_and_others_do_not() {
    let canary = find("canary-180m-flash").unwrap();
    let sense_voice = find("sense-voice").unwrap();
    let parakeet = find("parakeet-tdt-0.6b-v3").unwrap();
    let mut config = Config::default();
    // "auto" means something to one of them only.
    assert_eq!(config.language(&canary), ("en", "en"));
    assert_eq!(config.language(&sense_voice), ("auto", "auto"));
    assert_eq!(config.language(&parakeet), ("en", "en"));

    config.language = "de".into();
    assert_eq!(config.language(&canary), ("de", "de"));
    assert_eq!(config.language(&sense_voice), ("auto", "auto"));

    config.translate = true;
    assert_eq!(config.language(&canary), ("de", "en"));
    assert_eq!(config.language(&sense_voice), ("auto", "auto"));

    config.set_language(&canary, "fr", "es");
    assert_eq!(config.language(&canary), ("fr", "es"));
    assert_eq!(config.language(&sense_voice), ("auto", "auto"));

    config.set_language(&sense_voice, "ja", "en");
    // Only Canary writes a language it did not hear.
    assert_eq!(config.language(&sense_voice), ("ja", "ja"));
    assert_eq!(config.language(&canary), ("fr", "es"));

    config.set_language(&canary, "yue", "auto");
    assert_eq!(config.language(&canary), ("en", "en"));
    assert_eq!(config.choices.len(), 2);
}
