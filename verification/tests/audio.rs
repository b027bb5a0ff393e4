use yapper::audio::{
    check_default, format_rank, input_devices, is_real_microphone, pick_config, source, Advertised,
    Offer, SampleFormat, SilenceTracker, Source, TARGET_RATE,
};

const DEFAULT_SILENCE_RMS: f32 = 0.004;

#[test]
fn silence_is_not_counted_until_something_has_been_said() {
    let mut tracker = SilenceTracker::new(DEFAULT_SILENCE_RMS);
    // A recording started a moment early must not end itself before the
    // speaker begins.
    tracker.observe(0.0, 16_000);
    tracker.observe(0.0, 16_000);
    assert_eq!(tracker.silent_frames, 0);

    tracker.observe(0.2, 1_600);
    assert!(tracker.heard_speech);
    tracker.observe(0.0, 8_000);
    assert_eq!(tracker.silent_frames, 8_000);
}

#[test]
fn a_word_resets_the_silence() {
    let mut tracker = SilenceTracker::new(DEFAULT_SILENCE_RMS);
    tracker.observe(0.3, 1_600);
    tracker.observe(0.0, 16_000);
    assert_eq!(tracker.silent_frames, 16_000);
    // A pause mid-sentence must not count towards the one that ends it.
    tracker.observe(0.3, 1_600);
    assert_eq!(tracker.silent_frames, 0);
}

#[test]
fn the_threshold_sits_between_room_tone_and_speech() {
    let mut tracker = SilenceTracker::new(DEFAULT_SILENCE_RMS);
    tracker.observe(0.3, 100);
    tracker.observe(DEFAULT_SILENCE_RMS - 0.001, 100);
    assert_eq!(tracker.silent_frames, 100, "room tone counts as silence");
    tracker.observe(DEFAULT_SILENCE_RMS + 0.001, 100);
    assert_eq!(tracker.silent_frames, 0, "quiet speech does not");
}

#[test]
fn silence_adds_up_between_words() {
    let mut tracker = SilenceTracker::new(10);
    tracker.hear(false, 5);
    assert_eq!((tracker.silent_frames, tracker.heard_speech), (0, false));
    tracker.observe(10, 5);
    tracker.observe(9, 5);
    tracker.hear(false, 6);
    assert_eq!((tracker.silent_frames, tracker.heard_speech), (11, true));
    tracker.hear(true, 6);
    assert_eq!((tracker.silent_frames, tracker.threshold), (0, 10));
}

#[test]
fn plugins_are_not_offered_as_microphones() {
    assert!(is_real_microphone("alsa:sysdefault:CARD=BRIO"));
    assert!(is_real_microphone("alsa:sysdefault:CARD=Audio"));
    // ALSA's processing plugins and lower-level duplicates of a card.
    for plugin in [
        "alsa:null",
        "alsa:lavrate",
        "alsa:speexrate",
        "alsa:upmix",
        "alsa:vdownmix",
        "alsa:pipewire",
        "alsa:pulse",
        "alsa:sysdefault",
        "alsa:default",
        "alsa:hw:CARD=0,DEV=0",
        "alsa:plughw:CARD=0,DEV=0",
        "alsa:front:CARD=BRIO,DEV=0",
        "alsa:usbstream:CARD=BRIO",
    ] {
        assert!(!is_real_microphone(plugin), "{plugin} should not be listed");
    }
}

fn advertised(id: Option<&str>, name: Option<&str>) -> Advertised {
    Advertised {
        id: id.map(str::to_string),
        name: name.map(str::to_string),
    }
}

#[test]
fn each_microphone_is_listed_once() {
    let found = input_devices(Some(vec![
        advertised(Some("alsa:null"), Some("Discard all samples")),
        advertised(Some("alsa:sysdefault:CARD=BRIO"), Some("BRIO")),
        advertised(Some("alsa:sysdefault:CARD=Ghost"), None),
        advertised(None, Some("Nameless")),
        advertised(Some("alsa:sysdefault:CARD=BRIO_1"), Some("BRIO")),
        advertised(Some("alsa:sysdefault:CARD=Audio"), Some("Built-in")),
    ]));
    let listed: Vec<(&str, &str)> = found
        .iter()
        .map(|device| (device.id.as_str(), device.name.as_str()))
        .collect();
    assert_eq!(
        listed,
        [
            ("alsa:sysdefault:CARD=BRIO", "BRIO"),
            ("alsa:sysdefault:CARD=Audio", "Built-in")
        ]
    );
    assert!(input_devices(None).is_empty());
}

#[test]
fn an_unplugged_microphone_does_not_stop_a_recording() {
    assert_eq!(source("", false, true), Ok(Source::Default));
    assert_eq!(source("", true, true), Ok(Source::Default));
    assert_eq!(source("mic", true, false), Ok(Source::Chosen));
    assert_eq!(source("mic", false, true), Ok(Source::DefaultInstead));
    assert_eq!(source("mic", false, false), Err("no input device available"));
    assert_eq!(source("", false, false), Err("no input device available"));
}

fn offer(format: SampleFormat, channels: u16, min: u32, max: u32) -> Offer {
    Offer {
        format,
        channels,
        min_sample_rate: min,
        max_sample_rate: max,
    }
}

#[test]
fn the_offer_that_needs_least_done_to_it_is_taken() {
    // The format dominates, and the channel count breaks ties.
    let offers = [
        offer(SampleFormat::I16, 1, 8_000, 48_000),
        offer(SampleFormat::F32, 2, 8_000, 48_000),
        offer(SampleFormat::F32, 1, 44_100, 48_000),
        offer(SampleFormat::Other, 1, 16_000, 16_000),
        offer(SampleFormat::F32, 1, 16_000, 16_000),
        offer(SampleFormat::F32, 1, 8_000, 48_000),
    ];
    assert_eq!(pick_config(&offers), Some(4));
    assert_eq!(pick_config(&offers[..4]), Some(1));
    assert_eq!(pick_config(&offers[2..4]), None);
    assert_eq!(pick_config(&[]), None);
    // A hundred channels are as bad as a worse format.
    let crowded = [offer(SampleFormat::F32, 101, 16_000, 16_000), offer(SampleFormat::I16, 1, 16_000, 16_000)];
    assert_eq!(pick_config(&crowded), Some(0));
    assert_eq!(format_rank(SampleFormat::U8), Some(5));
    assert_eq!(format_rank(SampleFormat::Other), None);
    assert_eq!(TARGET_RATE, 16_000);
}

#[test]
fn a_default_in_a_format_nobody_can_read_is_refused() {
    assert_eq!(check_default(SampleFormat::I32, "I32"), Ok(()));
    assert_eq!(
        check_default(SampleFormat::Other, "F64"),
        Err("input device only offers unsupported sample format F64".to_string())
    );
}
