use yapper::models::{
    catalogue, clamp_language, clears_staging, curl_arguments, curl_result, dir, dir_in, fetch,
    fetch_in, file_in, find, human_size, install_outcome, is_installed, is_present,
    size_on_disk, staging_name, url, Curl, Engine, Installed, Metadata, Outcome, Task, DEFAULT,
    NO_CURL,
};

#[test]
fn the_catalogue_is_coherent() {
    for model in catalogue().iter() {
        assert!(!model.files.is_empty(), "{} lists no files", model.id);
        assert!(model.bytes > 0, "{} has no size", model.id);
        assert!(
            model.files.contains(&"tokens.txt"),
            "{} has no tokens file, which every engine needs",
            model.id
        );
        assert!(
            !model.id.contains('/') && !model.id.starts_with('.'),
            "{} would not make a sane directory name",
            model.id
        );
        assert!(
            model.base.starts_with("https://"),
            "{} is not fetched over https",
            model.id
        );
    }

    let mut ids: Vec<&str> = catalogue().iter().map(|model| model.id).collect();
    ids.sort();
    let count = ids.len();
    ids.dedup();
    assert_eq!(ids.len(), count, "two models share an id");

    assert!(
        find(DEFAULT).is_some(),
        "the default is not in the catalogue"
    );
}

#[test]
fn a_language_is_clamped_to_what_the_engine_accepts() {
    // Canary's four, and anything else becomes the one it is best at.
    assert_eq!(clamp_language(Engine::Canary, "de"), "de");
    assert_eq!(clamp_language(Engine::Canary, "fr"), "fr");
    assert_eq!(clamp_language(Engine::Canary, "cy"), "en");
    // Canary cannot detect, so "auto" is not one of its answers.
    assert_eq!(clamp_language(Engine::Canary, "auto"), "en");

    // SenseVoice rejects an unknown language outright rather than ignoring
    // it, so this is what keeps a German setting from stopping it loading.
    assert_eq!(clamp_language(Engine::SenseVoice, "de"), "auto");
    assert_eq!(clamp_language(Engine::SenseVoice, "yue"), "yue");
    assert_eq!(clamp_language(Engine::SenseVoice, ""), "auto");

    // The ones with nothing to choose from still answer with something the
    // rest of the code can carry around.
    assert_eq!(clamp_language(Engine::Transducer, "de"), "en");
    assert_eq!(clamp_language(Engine::Moonshine, "de"), "en");
}

#[test]
fn every_language_a_row_offers_survives_the_clamp() {
    // The picker builds its dropdowns from these lists, so every entry has
    // to be one the engine will take.
    for engine in [
        Engine::Canary,
        Engine::Transducer,
        Engine::Moonshine,
        Engine::SenseVoice,
    ] {
        for (code, name) in engine.languages() {
            assert_eq!(clamp_language(engine, code), *code, "{name} was rejected");
            assert_eq!(engine.language_name(code), *name);
        }
    }
}

#[test]
fn every_engine_knows_what_it_can_do() {
    let canary = find("canary-180m-flash").unwrap().engine;
    assert!(canary.takes_language(), "canary has to be told a language");
    assert!(canary.can_translate(), "canary is the only translator");

    let parakeet = find("parakeet-tdt-0.6b-v3").unwrap().engine;
    assert!(!parakeet.takes_language(), "parakeet detects the language");
    assert!(!parakeet.can_translate());

    let moonshine = find("moonshine-tiny-en").unwrap().engine;
    assert!(!moonshine.takes_language(), "moonshine only knows English");

    let sense_voice = find("sense-voice").unwrap().engine;
    assert!(sense_voice.takes_language());
    assert!(!sense_voice.can_translate());
    assert!(
        sense_voice
            .languages()
            .iter()
            .any(|(code, _)| *code == "auto"),
        "sense voice can be left to detect"
    );
    assert!(
        !canary.languages().iter().any(|(code, _)| *code == "auto"),
        "canary cannot detect, so it must not be offered the choice"
    );
}

#[test]
fn a_setting_names_a_model_or_nothing() {
    assert_eq!(find(DEFAULT).unwrap().engine, Engine::Canary);
    assert!(find("no-such-model").is_none());
    assert!(find("").is_none());
    // A path was how the setting read while ggml models were supported. It
    // names nothing now, and the window offers the list instead.
    assert!(find("/models/ggml-medium.en-q8_0.bin").is_none());
}

#[test]
fn sizes_read_the_way_they_are_spoken() {
    assert_eq!(human_size(207_170_046), "207 MB");
    assert_eq!(human_size(123_967_539), "124 MB");
    assert_eq!(human_size(1_625_000_000), "1.6 GB");
}

/// Sizes as floating point would write them.
fn floating_size(bytes: u64) -> String {
    let bytes = bytes as f64;
    if bytes >= 1_000_000_000.0 {
        format!("{:.1} GB", bytes / 1_000_000_000.0)
    } else {
        format!("{:.0} MB", bytes / 1_000_000.0)
    }
}

#[test]
fn sizes_are_rounded_as_floating_point_rounds_them() {
    // Half a megabyte either way, and just beside it.
    for megabytes in 0..1_000_u64 {
        for near in [499_999, 500_000, 500_001, 0, 999_999] {
            let bytes = megabytes * 1_000_000 + near;
            assert_eq!(human_size(bytes), floating_size(bytes), "{bytes}");
        }
    }
    // Half a tenth of a gigabyte, which binary seldom holds exactly.
    for tenths in 10..2_000_u64 {
        for near in [49_999_999, 50_000_000, 50_000_001] {
            let bytes = tenths * 100_000_000 + near;
            assert_eq!(human_size(bytes), floating_size(bytes), "{bytes}");
        }
    }
    // Where doubles no longer hold every whole number.
    let mut bytes: u64 = 1;
    for step in 0..20_000_u64 {
        bytes = bytes.wrapping_mul(6_364_136_223_846_793_005).wrapping_add(1_442_695_040_888_963_407);
        let shifted = bytes >> (step % 40);
        assert_eq!(human_size(shifted), floating_size(shifted), "{shifted}");
    }
    for power in 50..64 {
        for near in 0..6 {
            let bytes = (1u64 << power) + near;
            assert_eq!(human_size(bytes), floating_size(bytes), "{bytes}");
            assert_eq!(human_size(bytes - 6), floating_size(bytes - 6), "{bytes}");
        }
    }
    for bytes in [0, 999_499_999, 999_500_000, 999_999_999, 1_000_000_000, u64::MAX] {
        assert_eq!(human_size(bytes), floating_size(bytes), "{bytes}");
    }
}

#[test]
fn a_language_nobody_lists_goes_by_english() {
    assert_eq!(Engine::Canary.language_name("auto"), "English");
    assert_eq!(Engine::Moonshine.language_name("de"), "English");
    assert_eq!(Engine::SenseVoice.language_name("yue"), "Cantonese");
    assert_eq!(Engine::SenseVoice.default_language(), "auto");
    assert_eq!(Engine::Transducer.default_language(), "en");
}

fn some(len: u64) -> Option<Metadata> {
    Some(Metadata { is_file: true, len })
}

#[test]
fn a_file_with_nothing_in_it_is_not_there() {
    assert!(is_present(some(1)));
    assert!(!is_present(some(0)));
    assert!(!is_present(None));
    assert!(!is_present(Some(Metadata { is_file: false, len: 4_096 })));
}

#[test]
fn a_model_is_installed_once_all_of_it_is() {
    let model = find("canary-180m-flash").unwrap();
    let whole = [some(10), some(20), some(30)];
    assert!(is_installed(&model, &whole));
    assert_eq!(size_on_disk(&model, &whole), 60);
    let part = [some(10), some(0), Some(Metadata { is_file: false, len: 9 })];
    assert!(!is_installed(&model, &part));
    assert_eq!(size_on_disk(&model, &part), 10);
    assert!(!is_installed(&model, &[some(1), some(2), None]));
}

#[test]
fn a_file_is_looked_for_in_its_own_directory_only() {
    let model = find("sense-voice").unwrap();
    assert_eq!(dir_in(b"/models", &model), b"/models/sense-voice");
    assert_eq!(
        file_in(b"/models", &model, "tokens.txt", some(5)),
        Some(b"/models/sense-voice/tokens.txt".to_vec())
    );
    assert_eq!(file_in(b"/models", &model, "tokens.txt", None), None);
    assert!(dir(&model).ends_with(b"yapper/models/sense-voice"));
    let found = yapper::models::file(&model, "tokens.txt", some(5)).unwrap();
    assert!(found.ends_with(b"yapper/models/sense-voice/tokens.txt"));
    assert_eq!(yapper::models::file(&model, "tokens.txt", some(0)), None);
}

#[test]
fn a_download_fetches_every_file_and_only_then_installs() {
    let model = find("canary-180m-flash").unwrap();
    assert_eq!(staging_name(&model), ".canary-180m-flash.part");
    let mut download = fetch_in(b"/models", model, true).unwrap();
    assert_eq!(download.staging, b"/models/.canary-180m-flash.part");
    for name in model.files {
        let Task::Fetch { name: next, url: from } = download.next(false) else {
            panic!("expected a file to fetch");
        };
        assert_eq!(next, *name);
        assert_eq!(from, format!("{}/{name}", model.base));
        assert_eq!(from, url(&model, name));
        assert!(download.curl_ended(Curl::Ended(Some(0))).is_none());
    }
    assert!(matches!(download.next(false), Task::Install));
    // Too late to cancel once everything is there.
    assert!(matches!(download.next(true), Task::Install));
    assert_eq!(download.bytes(&[1, 20, 300]), 321);
    assert_eq!(download.bytes(&[]), 0);
}

#[test]
fn a_download_can_be_stopped_or_break() {
    let model = find("sense-voice").unwrap();
    let mut download = fetch_in(b"/models", model, true).unwrap();
    assert!(matches!(download.next(true), Task::Stop));
    assert!(matches!(download.curl_ended(Curl::Taken), Some(Outcome::Cancelled)));
    assert!(matches!(download.curl_ended(Curl::Ended(None)), Some(Outcome::Cancelled)));
    let Some(Outcome::Failed(err)) = download.curl_ended(Curl::Ended(Some(22))) else {
        panic!("expected a failure");
    };
    assert_eq!(
        err,
        format!("curl could not fetch {}/model.int8.onnx: exit status 22", model.base)
    );
    assert_eq!(download.arrived, 0);
    assert!(matches!(fetch_in(b"/models", model, false), Err(message) if message == NO_CURL));
    assert!(fetch(model, false).is_err());
    assert!(fetch(model, true).unwrap().staging.ends_with(b"yapper/models/.sense-voice.part"));
}

#[test]
fn curl_is_heard_out() {
    assert_eq!(curl_result("u", Curl::Ended(Some(0))), Ok(true));
    assert_eq!(curl_result("u", Curl::Ended(None)), Ok(false));
    assert_eq!(curl_result("u", Curl::Taken), Ok(false));
    assert_eq!(
        curl_result("u", Curl::Ended(Some(-6))),
        Err("curl could not fetch u: exit status -6".to_string())
    );
    assert_eq!(
        curl_result("u", Curl::NotStarted("no such file".to_string())),
        Err("running curl: no such file".to_string())
    );
    assert_eq!(
        curl_result("u", Curl::Lost("gone".to_string())),
        Err("waiting for curl: gone".to_string())
    );
    assert_eq!(curl_arguments().len(), 13);
    assert_eq!(curl_arguments()[12], "--output");
}

#[test]
fn installing_ends_one_way_or_another() {
    assert!(matches!(install_outcome("/m", Installed::Moved), Outcome::Done));
    let Outcome::Failed(err) = install_outcome("/m", Installed::NotReplaced) else {
        panic!("expected a failure");
    };
    assert_eq!(err, "could not replace /m");
    let Outcome::Failed(err) = install_outcome("/m", Installed::NotMoved("full".to_string())) else {
        panic!("expected a failure");
    };
    assert_eq!(err, "could not install /m: full");
    assert!(!clears_staging(&Outcome::Done));
    assert!(clears_staging(&Outcome::Cancelled));
    assert!(clears_staging(&Outcome::Failed(err)));
}
