use yapper::config::Config;
use yapper::models::{find, Metadata, Model};
use yapper::transcribe::{
    blocks, build, is_annotation, is_screened_out, load, loaded_event, missing_model, model_files,
    preview_event, run, starts_preview, transcribe_event, transcript, wanted, would_not_start,
    Baked, Course, Event, Family, Happening, Loaded, Request, Settings, Stage, Work,
    SILENCE_BLOCK,
};

const DEFAULT_SILENCE_RMS: f32 = 0.004;

/// Root mean square of a block of samples.
fn rms(samples: &[f32]) -> f32 {
    if samples.is_empty() {
        return 0.0;
    }
    let sum_squares: f64 = samples.iter().map(|s| (*s as f64) * (*s as f64)).sum();
    (sum_squares / samples.len() as f64).sqrt() as f32
}

fn is_silent(samples: &[f32], threshold: f32) -> bool {
    let loud: Vec<bool> = blocks(samples.len())
        .iter()
        .map(|(start, end)| rms(&samples[*start..*end]) >= threshold)
        .collect();
    yapper::transcribe::is_silent(&loud)
}

#[test]
fn annotations_are_dropped_but_speech_is_kept() {
    assert!(is_annotation("[BLANK_AUDIO]"));
    assert!(is_annotation("(soft music)"));
    assert!(is_annotation("*coughs*"));
    assert!(!is_annotation("the array [1, 2] is sorted"));
    assert!(!is_annotation("hello"));
    assert!(!is_annotation("*"));
    assert!(!is_annotation(""));
    assert!(!is_annotation("(one) and (two)"));
}

#[test]
fn annotations_are_whole_and_matched() {
    assert!(is_annotation("[]"));
    assert!(is_annotation("{música}"));
    assert!(is_annotation("**"));
    assert!(!is_annotation("[music)"));
    assert!(!is_annotation("é"));
    assert!(!is_annotation("[a]b]"));
    assert!(is_annotation("[a[b]"));
    assert!(!is_annotation("*a)b*"));
    // Two asides with speech between them are speech.
    assert!(!is_annotation("*one* and *two*"));
    assert!(!is_annotation("{one} and {two}"));
    assert!(!is_annotation("[one] and [two]"));
    assert!(!is_annotation("**one** and *two*"));
    assert!(!is_annotation("{a}{b}"));
    // Several marks wrap as well as one does.
    assert!(is_annotation("**laughs**"));
    assert!(is_annotation("**laughs*"));
    assert!(is_annotation("{{music}}"));
    assert!(is_annotation("***"));
    assert_eq!(transcript(Some("**laughs**".into())), Ok(String::new()));
    assert_eq!(transcript(Some(" *one* and *two* ".into())), Ok("*one* and *two*".into()));
}

#[test]
fn silence_is_detected_but_speech_is_not() {
    let t = DEFAULT_SILENCE_RMS;
    assert!(is_silent(&vec![0.0; 16_000], t));
    assert!(is_silent(&[0.001, -0.002, 0.0015], t));
    let speech: Vec<f32> = (0..16_000).map(|i| (i as f32 * 0.05).sin() * 0.2).collect();
    assert!(!is_silent(&speech, t));
    // A threshold above the speech itself reclassifies it.
    assert!(is_silent(&speech, 0.5));
}

#[test]
fn a_short_utterance_is_not_drowned_by_the_pauses_around_it() {
    // Half a second of speech in six seconds of room tone. Averaged over
    // the whole clip this reads as silence; measured in blocks it does not.
    let quiet = vec![0.0002f32; 16_000 * 3];
    let speech: Vec<f32> = (0..8_000).map(|i| (i as f32 * 0.05).sin() * 0.02).collect();
    let clip: Vec<f32> = quiet
        .iter()
        .chain(speech.iter())
        .chain(quiet.iter())
        .copied()
        .collect();

    let whole_clip = rms(&clip);
    assert!(whole_clip < 0.008, "whole-clip average is {whole_clip}");
    assert!(
        !is_silent(&clip, 0.008),
        "the utterance must survive a threshold its clip average falls under"
    );
}

#[test]
fn a_clip_is_measured_block_by_block() {
    assert!(blocks(0).is_empty());
    assert_eq!(blocks(1), [(0, 1)]);
    assert_eq!(blocks(480), [(0, 480)]);
    assert_eq!(blocks(481), [(0, 480), (480, 481)]);
    let samples: Vec<usize> = (0..1_500).collect();
    let chunks: Vec<(usize, usize)> = samples
        .chunks(SILENCE_BLOCK)
        .map(|chunk| (chunk[0], chunk[chunk.len() - 1] + 1))
        .collect();
    assert_eq!(blocks(1_500), chunks);
    assert!(yapper::transcribe::is_silent(&[]));
    assert!(!yapper::transcribe::is_silent(&[false, true, false]));
}

/// Reloading is what makes a language change land, so the comparison that
/// decides it has to notice each setting that is baked in.
#[test]
fn a_reload_is_triggered_by_the_settings_that_are_baked_in() {
    let base = Settings {
        silence_threshold: 0.01,
        hears: "en".into(),
        writes: "en".into(),
        threads: 4,
    };
    assert_eq!(Baked::of(&base), Baked::of(&base.clone()));

    // German in, German out.
    let german = Settings {
        hears: "de".into(),
        writes: "de".into(),
        ..base.clone()
    };
    assert_ne!(Baked::of(&base), Baked::of(&german));

    // German in, English out: the same language heard, a different one
    // written, and a recognizer that has to be rebuilt to do it.
    let translating = Settings {
        hears: "de".into(),
        writes: "en".into(),
        ..base.clone()
    };
    assert_ne!(Baked::of(&german), Baked::of(&translating));

    let busier = Settings {
        threads: 8,
        ..base.clone()
    };
    assert_ne!(Baked::of(&base), Baked::of(&busier));

    // The threshold is read per job, so it must not cost a reload.
    let fussier = Settings {
        silence_threshold: 0.05,
        ..base.clone()
    };
    assert_eq!(Baked::of(&base), Baked::of(&fussier));
}

fn settings(hears: &str, writes: &str, threads: i32) -> Settings<f32> {
    Settings {
        silence_threshold: DEFAULT_SILENCE_RMS,
        hears: hears.into(),
        writes: writes.into(),
        threads,
    }
}

#[test]
fn a_failed_rebuild_leaves_the_working_recognizer_in_place() {
    let english = settings("en", "en", 4);
    let german = settings("de", "de", 4);
    let mut loaded = Loaded {
        model: find("canary-180m-flash").unwrap(),
        baked: Baked::of(&english),
    };
    assert!(!loaded.is_stale(&english));
    assert!(loaded.is_stale(&german));
    loaded.rebuilt(&german, false);
    assert_eq!(loaded.baked, Baked::of(&english));
    loaded.rebuilt(&german, true);
    assert!(!loaded.is_stale(&german));
    assert!(loaded.is_stale(&english));
}

#[test]
fn settings_are_those_of_the_chosen_model() {
    let mut config = Config::default();
    config.language = "de".into();
    config.translate = true;
    let read = |config: &Config| {
        let settings = Settings::from_config(config, DEFAULT_SILENCE_RMS, Some(5));
        (settings.hears, settings.writes, settings.threads)
    };
    assert_eq!(read(&config), ("de".to_string(), "en".to_string(), 4));
    config.model = "sense-voice".into();
    assert_eq!(read(&config), ("auto".to_string(), "auto".to_string(), 4));
    config.model = "no-such-model".into();
    config.threads = 2;
    assert_eq!(read(&config), ("en".to_string(), "en".to_string(), 2));
}

fn here(model: &Model) -> Vec<Option<Metadata>> {
    model.files.iter().map(|_| Some(Metadata { is_file: true, len: 1 })).collect()
}

fn path(model: &Model, name: &str) -> String {
    format!("/models/{}/{name}", model.id)
}

#[test]
fn each_family_is_handed_its_own_files() {
    let told = settings("de", "en", 3);

    let canary = find("canary-180m-flash").unwrap();
    let recognizer = build(&canary, &told, b"/models", &here(&canary)).unwrap();
    assert_eq!(recognizer.tokens, path(&canary, "tokens.txt"));
    assert_eq!(recognizer.threads, 3);
    let Family::Canary { encoder, decoder, src_lang, tgt_lang, use_pnc } = recognizer.family else {
        panic!("expected a Canary");
    };
    assert_eq!(encoder, path(&canary, "encoder.int8.onnx"));
    assert_eq!(decoder, path(&canary, "decoder.int8.onnx"));
    assert_eq!((src_lang.as_str(), tgt_lang.as_str(), use_pnc), ("de", "en", true));

    let parakeet = find("parakeet-tdt-0.6b-v3").unwrap();
    let recognizer = build(&parakeet, &told, b"/models", &here(&parakeet)).unwrap();
    let Family::Transducer { encoder, decoder, joiner } = recognizer.family else {
        panic!("expected a transducer");
    };
    assert_eq!(encoder, path(&parakeet, "encoder.int8.onnx"));
    assert_eq!(decoder, path(&parakeet, "decoder.int8.onnx"));
    assert_eq!(joiner, path(&parakeet, "joiner.int8.onnx"));

    let moonshine = find("moonshine-base-en").unwrap();
    let recognizer = build(&moonshine, &told, b"/models", &here(&moonshine)).unwrap();
    let Family::Moonshine { preprocessor, encoder, uncached_decoder, cached_decoder } =
        recognizer.family
    else {
        panic!("expected a Moonshine");
    };
    assert_eq!(preprocessor, path(&moonshine, "preprocess.onnx"));
    assert_eq!(encoder, path(&moonshine, "encode.int8.onnx"));
    assert_eq!(uncached_decoder, path(&moonshine, "uncached_decode.int8.onnx"));
    assert_eq!(cached_decoder, path(&moonshine, "cached_decode.int8.onnx"));

    let sense_voice = find("sense-voice").unwrap();
    let recognizer = build(&sense_voice, &told, b"/models", &here(&sense_voice)).unwrap();
    let Family::SenseVoice { model, language, use_itn } = recognizer.family else {
        panic!("expected a SenseVoice");
    };
    assert_eq!(model, path(&sense_voice, "model.int8.onnx"));
    assert_eq!((language.as_str(), use_itn), ("de", true));
}

#[test]
fn a_missing_file_is_named() {
    let told = settings("en", "en", 1);
    let canary = find("canary-180m-flash").unwrap();
    assert_eq!(
        wanted(canary.engine),
        ["tokens.txt", "encoder.int8.onnx", "decoder.int8.onnx"]
    );
    let mut metas = here(&canary);
    metas[2] = None;
    assert_eq!(
        build(&canary, &told, b"/models", &metas).unwrap_err(),
        "Canary 180M flash is missing decoder.int8.onnx. Download it again in Preferences."
    );
    metas[1] = Some(Metadata { is_file: true, len: 0 });
    assert_eq!(
        model_files(&canary, b"/models", &metas).unwrap_err(),
        "Canary 180M flash is missing encoder.int8.onnx. Download it again in Preferences."
    );
    // A path that is not text is found out at the first file.
    assert_eq!(
        build(&canary, &told, b"/mod\xffels", &metas).unwrap_err(),
        "model path is not valid UTF-8"
    );
    metas[0] = None;
    assert_eq!(
        build(&canary, &told, b"/mod\xffels", &metas).unwrap_err(),
        "Canary 180M flash is missing tokens.txt. Download it again in Preferences."
    );
    assert_eq!(
        would_not_start(&canary),
        "building the recognizer: loading Canary 180M flash — sherpa-onnx would not start"
    );
}

#[test]
fn a_worker_needs_a_model_that_is_all_there() {
    let told = settings("en", "en", 1);
    let canary = find("canary-180m-flash").unwrap();
    let metas = here(&canary);
    assert!(load(Some(&canary), canary.id, &told, b"/models", &metas, &metas).is_ok());
    let mut part = here(&canary);
    part[0] = None;
    assert_eq!(
        load(Some(&canary), canary.id, &told, b"/models", &part, &metas).unwrap_err(),
        "Canary 180M flash is not downloaded yet. Choose it in Preferences and yapper will fetch it."
    );
    assert_eq!(
        load(Some(&canary), canary.id, &told, b"/models", &metas, &part).unwrap_err(),
        "Canary 180M flash is missing tokens.txt. Download it again in Preferences."
    );
    assert_eq!(
        load(None, "base.en", &told, b"/models", &[], &[]).unwrap_err(),
        "no model called base.en. Pick one and yapper will download it."
    );
    assert_eq!(
        missing_model(""),
        "no model chosen yet. Pick one and yapper will download it."
    );
}

#[test]
fn silence_and_fragments_never_reach_a_model() {
    assert!(is_screened_out(7_999, false));
    assert!(!is_screened_out(8_000, false));
    assert!(is_screened_out(16_000, true));
    let heard = || Some(" thanks for watching ".to_string());
    assert_eq!(run(7_999, false, heard()), Ok(String::new()));
    assert_eq!(run(16_000, true, None), Ok(String::new()));
    assert_eq!(run(16_000, false, heard()), Ok("thanks for watching".to_string()));
    assert_eq!(run(16_000, false, None), Err("the recognizer returned nothing"));
    assert_eq!(transcript(Some(" [BLANK_AUDIO]\n".to_string())), Ok(String::new()));
    assert_eq!(transcript(Some("  ".to_string())), Ok(String::new()));
}

#[test]
fn the_worker_says_how_it_went() {
    assert!(matches!(loaded_event(Ok(())), Event::ModelReady));
    assert!(matches!(loaded_event(Err("x".into())), Event::ModelFailed(err) if err == "x"));

    assert!(starts_preview(false) && !starts_preview(true));
    assert!(preview_event(Some("so far".into()), true).is_none());
    assert!(matches!(
        preview_event(Some("so far".into()), false),
        Some(Event::Preview(text)) if text == "so far"
    ));
    // A preview that failed still frees the slot.
    assert!(matches!(
        preview_event(None, false),
        Some(Event::Preview(text)) if text.is_empty()
    ));

    assert!(matches!(
        transcribe_event(Ok(()), Ok("done".into())),
        Event::Done(text) if text == "done"
    ));
    assert!(matches!(
        transcribe_event(Ok(()), Err("broke".into())),
        Event::Failed(err) if err == "broke"
    ));
    assert!(matches!(
        transcribe_event(Err("stuck".into()), Ok("done".into())),
        Event::Failed(err) if err == "stuck"
    ));
    assert!(matches!(Request::Preview(1), Request::Preview(1)));
}

/// What a worker says as things happen to it.
fn said(happened: Vec<Happening<u8>>) -> Vec<String> {
    let (mut course, mut work) = Course::new::<u8>();
    assert!(matches!(work, Work::Load));
    let mut all = Vec::new();
    for happening in happened {
        assert!(course.stage.can(&happening), "{happening:?} at {:?}", course.stage);
        assert!(!matches!(work, Work::Stop));
        let (event, next) = course.step(happening);
        all.extend(event.map(|event| format!("{event:?}")));
        work = next;
    }
    all
}

fn ask(request: Request<u8>, interrupted: bool) -> Happening<u8> {
    Happening::Asked { request, interrupted }
}

#[test]
fn a_worker_answers_each_request_in_turn() {
    let events = said(vec![
        Happening::Loaded(Ok(())),
        ask(Request::Preview(1), false),
        Happening::Previewed { text: Some("so".into()), interrupted: false },
        ask(Request::Preview(2), true),
        ask(Request::Preview(3), false),
        Happening::Previewed { text: Some("so far".into()), interrupted: true },
        ask(Request::Transcribe(4), true),
        Happening::Transcribed { refreshed: Ok(()), text: Ok("so far so good".into()) },
        ask(Request::Transcribe(5), false),
        Happening::Transcribed { refreshed: Err("no model".into()), text: Ok("x".into()) },
        ask(Request::Preview(6), false),
        Happening::Previewed { text: None, interrupted: false },
        ask(Request::Transcribe(7), false),
        Happening::Transcribed { refreshed: Ok(()), text: Err("nothing".into()) },
        Happening::Closed,
    ]);
    assert_eq!(
        events,
        [
            "ModelReady",
            "Preview(\"so\")",
            "Done(\"so far so good\")",
            "Failed(\"no model\")",
            "Preview(\"\")",
            "Failed(\"nothing\")",
        ]
    );
}

#[test]
fn a_failed_load_is_the_last_word() {
    let (mut course, _) = Course::new::<u8>();
    assert!(!course.stage.can(&ask(Request::Transcribe(1), false)));
    let (event, work) = course.step(Happening::<u8>::Loaded(Err("gone".into())));
    assert!(matches!(event, Some(Event::ModelFailed(err)) if err == "gone"));
    assert!(matches!(work, Work::Stop));
    assert_eq!(course.stage, Stage::Stopped);
    assert!(!course.stage.can(&ask(Request::Transcribe(1), false)));
    assert!(!course.stage.can(&Happening::<u8>::Loaded(Ok(()))));
    assert!(!course.stage.can(&Happening::<u8>::Closed));
}

#[test]
fn a_request_hands_on_its_audio() {
    let (mut course, _) = Course::new::<u8>();
    course.step(Happening::<u8>::Loaded(Ok(())));
    assert!(matches!(course.step(ask(Request::Preview(7), false)), (None, Work::Preview(7))));
    course.step(Happening::<u8>::Previewed { text: None, interrupted: true });
    assert!(matches!(course.step(ask(Request::Preview(8), true)), (None, Work::Wait)));
    assert!(matches!(course.step(ask(Request::Transcribe(9), true)), (None, Work::Transcribe(9))));
}
