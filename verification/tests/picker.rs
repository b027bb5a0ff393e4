use yapper::config::Config;
use yapper::models::{find, Engine, Metadata, Model, Outcome};
use yapper::picker::{
    activate, delete_question, deleted_notice, describe, download_ended, goes_ahead, index_of,
    language_label, language_names, language_tooltip, pick, remembered, row, Activation, Change,
    Picker, BUSY, GET, HAVE,
};

fn metas(model: &Model, len: u64) -> Vec<Option<Metadata>> {
    model.files.iter().map(|_| Some(Metadata { is_file: true, len })).collect()
}

#[test]
fn a_model_is_described_by_what_it_costs() {
    let canary = find("canary-180m-flash").unwrap();
    assert_eq!(
        describe(&canary, &[None, None, None]),
        "NVIDIA · 207 MB to download · English, German, Spanish, French\n\
         Punctuation and capitals for free, and a sentence back in a sixth of a second"
    );
    assert_eq!(
        describe(&canary, &metas(&canary, 69_056_682)),
        "NVIDIA · 207 MB on disk · English, German, Spanish, French\n\
         Punctuation and capitals for free, and a sentence back in a sixth of a second"
    );
}

#[test]
fn a_language_button_says_what_the_model_was_told() {
    let canary = find("canary-180m-flash").unwrap();
    let sense_voice = find("sense-voice").unwrap();
    let mut config = Config::default();
    assert_eq!(language_label(&config, &canary), "English");
    assert_eq!(language_label(&config, &sense_voice), "Detect");
    config.set_language(&canary, "de", "en");
    assert_eq!(language_label(&config, &canary), "German → English");
    config.set_language(&sense_voice, "yue", "yue");
    assert_eq!(language_label(&config, &sense_voice), "Cantonese");
}

#[test]
fn a_row_shows_what_applies() {
    let canary = find("canary-180m-flash").unwrap();
    let parakeet = find("parakeet-tdt-0.6b-v3").unwrap();
    let config = Config::default();
    let view = row(&canary, &config, false, &metas(&canary, 1));
    assert!(view.in_use && !view.can_use);
    assert_eq!(view.page, HAVE);
    assert_eq!(view.language.as_deref(), Some("English"));
    let view = row(&parakeet, &config, false, &metas(&parakeet, 0));
    assert!(!view.in_use && view.can_use);
    assert_eq!(view.page, GET);
    assert_eq!(view.language, None);
    assert!(view.subtitle.starts_with("NVIDIA · 670 MB to download"));
    assert_eq!(row(&parakeet, &config, true, &metas(&parakeet, 1)).page, BUSY);
}

#[test]
fn activating_a_row_does_the_obvious_thing() {
    let model = find("sense-voice").unwrap();
    assert_eq!(activate(&model, false, &metas(&model, 1)), Activation::Use);
    assert_eq!(activate(&model, false, &metas(&model, 0)), Activation::Fetch);
    assert_eq!(activate(&model, true, &metas(&model, 1)), Activation::Nothing);
    assert_eq!(activate(&model, true, &metas(&model, 0)), Activation::Nothing);
}

#[test]
fn a_dropdown_stands_for_the_language_it_shows() {
    for engine in [Engine::Canary, Engine::SenseVoice] {
        let names = language_names(engine);
        for (at, (code, name)) in engine.languages().iter().enumerate() {
            assert_eq!(names[at], *name);
            assert_eq!(index_of(engine, code), at as u32);
            assert_eq!(pick(engine, at as u32), *code);
        }
        assert_eq!(index_of(engine, "cy"), 0);
    }
    // Nothing selected.
    assert_eq!(pick(Engine::Canary, u32::MAX), "en");
    assert_eq!(pick(Engine::SenseVoice, 6), "auto");
    assert_eq!(remembered(Engine::Canary, 1, Some(0)), ("de", "en"));
    assert_eq!(remembered(Engine::SenseVoice, 3, None), ("ja", "ja"));
    assert!(language_names(Engine::Moonshine).is_empty());
    assert_eq!(
        language_tooltip(Engine::Canary),
        "The language this model listens for, and the one it writes"
    );
    assert_eq!(language_tooltip(Engine::SenseVoice), "The language this model listens for");
}

#[test]
fn a_choice_is_remembered_and_passed_on() {
    let sense_voice = find("sense-voice").unwrap();
    let mut picker = Picker { config: Config::default() };
    let change = picker.use_model(sense_voice);
    assert!(matches!(change, Change::Model(model) if model.id == "sense-voice"));
    assert_eq!(picker.config.model, "sense-voice");
    let change = picker.set_language(sense_voice, "ko", "ko");
    assert!(matches!(
        change,
        Change::Language { model, hears: "ko", writes: "ko" } if model.id == "sense-voice"
    ));
    assert_eq!(picker.config.language(&sense_voice), ("ko", "ko"));
}

#[test]
fn a_download_that_ends_says_so() {
    let model = find("moonshine-tiny-en").unwrap();
    let done = download_ended(&model, Some(Outcome::Done));
    assert_eq!(done.notice.as_deref(), Some("Moonshine tiny is ready"));
    assert!(done.use_it && done.log.is_none());
    let stopped = download_ended(&model, Some(Outcome::Cancelled));
    assert_eq!(stopped.notice.as_deref(), Some("Stopped downloading Moonshine tiny"));
    assert!(!stopped.use_it && stopped.log.is_none());
    let failed = download_ended(&model, Some(Outcome::Failed("no route".into())));
    assert_eq!(failed.notice.as_deref(), Some("Could not download Moonshine tiny"));
    assert_eq!(failed.log.as_deref(), Some("yapper: downloading Moonshine tiny: no route"));
    assert!(!failed.use_it);
    let silent = download_ended(&model, None);
    assert!(silent.notice.is_none() && silent.log.is_none() && !silent.use_it);
}

#[test]
fn deleting_asks_first() {
    let canary = find("canary-180m-flash").unwrap();
    let config = Config::default();
    let question = delete_question(&canary, &config, &metas(&canary, 69_056_682));
    assert_eq!(question.heading, "Delete Canary 180M flash?");
    assert_eq!(
        question.body,
        "Its 207 MB of files are removed. It is the model in use, so pick another one \
         afterwards — the one in memory keeps working until yapper restarts."
    );
    let tiny = find("moonshine-tiny-en").unwrap();
    assert_eq!(
        delete_question(&tiny, &config, &metas(&tiny, 0)).body,
        "Its 0 MB of files are removed. You can download it again at any time."
    );
    assert!(goes_ahead("delete"));
    assert!(!goes_ahead("cancel"));
    assert_eq!(deleted_notice(&tiny, true), "Deleted Moonshine tiny");
    assert_eq!(deleted_notice(&tiny, false), "Could not delete Moonshine tiny");
}
