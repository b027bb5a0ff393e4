use yapper::config::Config;
use yapper::models::find;
use yapper::picker::Change;
use yapper::transcribe::Event;
use yapper::ui::{
    buttons, copy_notice, deletion, layout, list_page, listening, selected_entry, selection_after,
    status, tail, type_tooltip, Action, Key, Notice, Session, State, Trouble,
};

#[test]
fn a_short_transcript_is_shown_whole() {
    assert_eq!(tail("hello there", 50), "hello there");
    assert_eq!(tail("  padded  ", 50), "padded");
}

#[test]
fn a_long_transcript_keeps_its_tail() {
    let text = "one two three four five six seven eight nine ten";
    let shown = tail(text, 20);
    assert!(shown.starts_with('\u{2026}'), "{shown}");
    assert!(text.ends_with(shown.trim_start_matches('\u{2026}')), "{shown}");
    // Cut at a word boundary rather than mid-word.
    assert!(!shown.trim_start_matches('\u{2026}').starts_with(' '));
    assert!(shown.chars().count() <= 22, "{shown}");
}

#[test]
fn multibyte_text_is_not_split_mid_character() {
    let text = "café naïve résumé über schön mañana";
    let shown = tail(text, 10);
    assert!(text.ends_with(shown.trim_start_matches('\u{2026}')), "{shown}");
}

/// The tail as byte positions would have it.
fn plain_tail(text: &str, max_chars: usize) -> String {
    let text = text.trim();
    if text.chars().count() <= max_chars {
        return text.to_string();
    }
    let skip = text.chars().count() - max_chars;
    let cut: String = text.chars().skip(skip).collect();
    let start = cut.find(' ').filter(|at| *at < 24).map_or(0, |at| at + 1);
    format!("\u{2026}{}", &cut[start..])
}

#[test]
fn a_tail_starts_at_a_word_that_is_close_by() {
    for text in [
        "one two three four five six seven eight nine ten",
        "café naïve résumé über schön mañana",
        "aaaaaaaaaaaaaaaaaaaaaaaaaaaaaaaaaaaaaaaa bbbb cccc",
        "ééééééééééééé ééééééééééé éééééé",
        "日本語日本語日本語日本語 日本語日本語",
        "🦀🦀🦀🦀🦀🦀 🦀🦀🦀🦀",
        "  x  y  ",
        "",
    ] {
        for max_chars in 0..60 {
            assert_eq!(tail(text, max_chars), plain_tail(text, max_chars), "{text} {max_chars}");
        }
    }
    assert_eq!(tail("one two three", 8), "…three");
}

#[test]
fn the_clock_counts_minutes_and_seconds() {
    assert_eq!(listening(0), "Listening  0:00");
    assert_eq!(listening(75), "Listening  1:15");
}

#[test]
fn the_status_says_what_is_going_on() {
    let view = status(&State::Loading, false);
    assert_eq!(view.status, "Loading model\u{2026}");
    assert_eq!(view.hint, "Ready to record — the model is still loading");
    assert!(view.busy && view.can_record);
    assert_eq!(status(&State::Loading, true).hint, "Loading model\u{2026}");

    let view = status(&State::Idle, true);
    assert_eq!((view.status.as_str(), view.hint), ("Ready", "Escape to close"));
    assert_eq!(view.tooltip, "Start recording (Ctrl+Space)");
    assert_eq!(status(&State::Idle, false).hint, "Ctrl+Space to talk");

    let view = status(&State::Recording, false);
    assert_eq!(view.status, "Listening  0:00");
    assert_eq!(view.hint, "Enter to finish \u{00b7} Escape to discard");
    assert_eq!(view.tooltip, "Finish recording (Enter)");
    assert!(view.recording && !view.busy && !view.error);

    let view = status(&State::Working, true);
    assert_eq!(view.status, "Transcribing\u{2026}");
    assert_eq!(view.hint, "Copying to the clipboard\u{2026}");
    assert!(view.busy && !view.can_record);
    assert_eq!(status(&State::Working, false).hint, "Hang on");

    let broken = State::Broken(Trouble::Microphone("no device: busy".into()));
    let view = status(&broken, false);
    assert_eq!((view.status.as_str(), view.hint), ("no device: busy", ""));
    assert!(view.error && !view.can_record);
    assert_eq!(status(&State::Broken(Trouble::NoModel), true).status, "no speech model");
    assert_eq!(
        status(&State::Broken(Trouble::WorkerStopped), true).status,
        "the transcription worker stopped"
    );
}

#[test]
fn notices_are_worded() {
    for (notice, said) in [
        (Notice::MicrophoneUnavailable("busy".into()), "Microphone unavailable: busy"),
        (Notice::NothingRecorded, "Nothing was recorded"),
        (Notice::Discarded, "Recording discarded"),
        (Notice::NoSpeech, "No speech detected"),
        (Notice::TranscriptionFailed("x".into()), "Transcription failed: x"),
        (Notice::CopyFailed("no display".into()), "Copy failed: no display"),
        (Notice::TypeFailed("wtype is not installed".into()), "wtype is not installed"),
        (Notice::NotSaved("full".into()), "Could not save the recording: full"),
        (Notice::Copied, "Copied to clipboard"),
        (Notice::Deleted, "Recording deleted"),
        (Notice::NotDeleted("full".into()), "Could not delete the recording: full"),
        (Notice::Model("no model".into()), "no model"),
    ] {
        assert_eq!(notice.text(), said);
    }
}

fn session(quick: bool) -> Session {
    Session::new(Config::default(), quick, false, quick)
}

fn recording(quick: bool) -> Session {
    let mut session = session(quick);
    session.microphone_opened();
    session
}

/// Actions as they are written out, to compare them by.
fn shown(actions: &[Action]) -> Vec<String> {
    actions.iter().map(|action| format!("{action:?}")).collect()
}

#[test]
fn recording_starts_before_the_model_has_loaded() {
    let mut session = session(true);
    assert_eq!(shown(&session.toggle()), ["PausePlayers", "OpenMicrophone"]);
    session.config.pause_players = false;
    assert_eq!(shown(&session.start_recording()), ["OpenMicrophone"]);
    assert_eq!(
        shown(&session.microphone_opened()),
        ["ClearPreview", "PreviewSpace(true)", "Refresh", "Animate"]
    );
    assert!(session.is_recording());
    assert_eq!(shown(&session.handle_event(Event::ModelReady, true)), ["FocusButton"]);
    assert!(session.is_recording());
}

#[test]
fn a_microphone_that_will_not_open_gives_the_music_back() {
    let mut session = session(false);
    assert_eq!(
        shown(&session.microphone_failed("busy".into(), "busy: in use".into())),
        ["ResumePlayers", "Toast(MicrophoneUnavailable(\"busy\"))", "Refresh"]
    );
    assert!(matches!(
        &session.state,
        State::Broken(Trouble::Microphone(why)) if why == "busy: in use"
    ));
    assert!(session.toggle().is_empty());
}

#[test]
fn enter_keeps_a_recording() {
    let mut session = recording(false);
    session.preview_pending = true;
    let (ours, actions) = session.press(Key::Enter);
    assert!(ours);
    assert_eq!(shown(&actions), ["FinishRecording"]);
    assert_eq!(
        shown(&session.recording_finished(false)),
        ["ResumePlayers", "Refresh", "Transcribe"]
    );
    assert!(matches!(session.state, State::Working));
    assert!(!session.preview_pending && !session.microphone);
    // Not ours any more.
    let (ours, actions) = session.press(Key::Enter);
    assert!(!ours && actions.is_empty());
    assert_eq!(
        shown(&session.handle_event(Event::Done("hello".into()), true)),
        ["Refresh", "Copy(\"hello\")", "ClearPreview", "Remember(\"hello\")"]
    );
    assert!(matches!(session.state, State::Idle));
}

#[test]
fn escape_discards_a_recording() {
    let mut session = recording(false);
    let (ours, actions) = session.press(Key::Escape);
    assert!(ours);
    assert_eq!(
        shown(&actions),
        ["CloseMicrophone", "ResumePlayers", "ClearPreview", "Refresh", "Toast(Discarded)"]
    );
    assert!(!session.microphone);
    let (ours, actions) = session.press(Key::Escape);
    assert!(!ours && actions.is_empty());

    let mut quick = recording(true);
    let (ours, actions) = quick.press(Key::Escape);
    assert!(ours);
    assert_eq!(
        shown(&actions),
        [
            "CloseMicrophone",
            "ResumePlayers",
            "ClearPreview",
            "Refresh",
            "Hide",
            "ClearPreview",
            "Refresh"
        ]
    );
    // Nothing left to discard: the panel goes.
    let (ours, actions) = quick.press(Key::Escape);
    assert!(ours);
    assert_eq!(shown(&actions), ["Hide", "ClearPreview", "Refresh"]);
}

#[test]
fn the_other_keys_do_what_they_say() {
    let mut session = session(false);
    let (ours, actions) = session.press(Key::Copy);
    assert!(ours && shown(&actions) == ["CopySelected"]);
    let (ours, actions) = session.press(Key::Delete);
    assert!(ours && shown(&actions) == ["DeleteSelected"]);
    let (ours, actions) = session.press(Key::Toggle);
    assert!(ours && shown(&actions) == ["PausePlayers", "OpenMicrophone"]);
    assert_eq!(
        shown(&session.toggle_requested()),
        ["Present", "PausePlayers", "OpenMicrophone"]
    );
    assert_eq!(shown(&recording(false).toggle()), ["FinishRecording"]);
}

#[test]
fn an_empty_recording_is_said_to_be_one() {
    let mut session = recording(true);
    assert_eq!(
        shown(&session.recording_finished(true)),
        ["ResumePlayers", "Refresh", "Toast(NothingRecorded)"]
    );
    assert!(matches!(session.state, State::Idle));
    assert!(session.stop_recording().is_empty());
    assert!(session.cancel_recording().is_empty());
}

#[test]
fn quick_capture_copies_and_gets_out_of_the_way() {
    let mut session = recording(true);
    assert_eq!(
        shown(&session.recording_finished(false)),
        ["ResumePlayers", "Hide", "Refresh", "Transcribe"]
    );
    // Closing now leaves the transcription alone.
    let (closes, actions) = session.close_requested();
    assert!(!closes);
    assert_eq!(shown(&actions), ["Hide"]);
    assert!(matches!(session.state, State::Working));
    assert_eq!(
        shown(&session.handle_event(Event::Done("hi".into()), false)),
        [
            "Refresh",
            "Copy(\"hi\")",
            "ClearPreview",
            "Remember(\"hi\")",
            "Hide",
            "ClearPreview",
            "Refresh"
        ]
    );
    assert_eq!(shown(&session.reopen()), ["Present", "PausePlayers", "OpenMicrophone"]);
    assert_eq!(
        shown(&session.start_capture(true, false)),
        ["Present", "PausePlayers", "OpenMicrophone"]
    );
    session.state = State::Working;
    assert_eq!(
        shown(&session.handle_event(Event::Done("typed".into()), false))[1..3],
        ["Type(\"typed\")", "ClearPreview"]
    );
}

#[test]
fn the_window_follows_the_settings() {
    let mut session = session(false);
    session.config.copy_to_clipboard = false;
    session.config.type_on_finish = true;
    assert_eq!(
        shown(&session.handle_event(Event::Done("x".into()), true)),
        ["Refresh", "Type(\"x\")", "ClearPreview", "Remember(\"x\")"]
    );
    // Asking for neither keeps the transcript and touches nothing.
    session.config.type_on_finish = false;
    assert_eq!(
        shown(&session.handle_event(Event::Done("x".into()), true)),
        ["Refresh", "ClearPreview", "Remember(\"x\")"]
    );
    let (closes, actions) = session.close_requested();
    assert!(closes && actions.is_empty());
    assert_eq!(shown(&session.reopen()), ["Present"]);
}

#[test]
fn what_goes_wrong_is_said_where_it_can_be_heard() {
    let mut window = session(false);
    assert_eq!(
        shown(&window.handle_event(Event::Done(String::new()), true)),
        ["Refresh", "Toast(NoSpeech)"]
    );
    assert_eq!(
        shown(&window.handle_event(Event::Failed("x".into()), true)),
        ["Refresh", "Toast(TranscriptionFailed(\"x\"))"]
    );
    let mut quick = session(true);
    assert_eq!(
        shown(&quick.handle_event(Event::Done(String::new()), true)),
        ["Refresh", "Log(NoSpeech)", "Hide", "ClearPreview", "Refresh"]
    );
    assert_eq!(
        shown(&quick.handle_event(Event::Failed("x".into()), true))[1],
        "Log(TranscriptionFailed(\"x\"))"
    );
    assert!(matches!(quick.report(Notice::Copied), Action::Log(Notice::Copied)));
    assert!(matches!(window.report(Notice::Copied), Action::Toast(Notice::Copied)));
    assert_eq!(shown(&window.worker_stopped()), ["Refresh"]);
    assert!(matches!(window.state, State::Broken(Trouble::WorkerStopped)));
}

#[test]
fn without_a_model_there_is_a_way_out() {
    let mut window = session(false);
    assert_eq!(
        shown(&window.handle_event(Event::ModelFailed("none".into()), true)),
        ["Log(Model(\"none\"))", "ModelUnavailable(\"none\")", "Refresh"]
    );
    assert!(matches!(window.state, State::Broken(Trouble::NoModel)));
    // A hidden panel has nobody to show it to.
    let mut quick = session(true);
    let actions = quick.handle_event(Event::ModelFailed("none".into()), false);
    assert_eq!(shown(&actions)[3], "Quit");
    assert!(quick.quitting);
    let (closes, _) = quick.close_requested();
    assert!(closes);
    let mut loading = session(false);
    assert_eq!(
        shown(&loading.handle_event(Event::ModelReady, true)),
        ["Refresh", "FocusButton"]
    );
    assert!(matches!(loading.state, State::Idle));
}

#[test]
fn previews_are_made_one_at_a_time() {
    let mut session = recording(false);
    assert!(session.request_preview(false).is_empty());
    assert_eq!(shown(&session.request_preview(true)), ["SendPreview"]);
    assert!(session.request_preview(true).is_empty());
    assert_eq!(
        shown(&session.handle_event(Event::Preview("so far".into()), true)),
        ["ShowPreview(\"so far\")"]
    );
    assert_eq!(shown(&session.request_preview(true)), ["SendPreview"]);
    // An empty one leaves what is on the screen, and frees the slot.
    assert!(session.handle_event(Event::Preview(String::new()), true).is_empty());
    session.config.live_preview = false;
    assert!(session.request_preview(true).is_empty());
    session.config.live_preview = true;
    session.recording_finished(false);
    assert!(session.request_preview(true).is_empty());
    assert!(session.handle_event(Event::Preview("late".into()), true).is_empty());
}

#[test]
fn a_quiet_room_ends_a_recording() {
    let session = recording(false);
    assert_eq!(shown(&session.clock(3, false)), ["Listening(3)"]);
    assert_eq!(shown(&session.clock(4, true)), ["Listening(4)", "FinishRecording"]);
    assert!(self::session(false).clock(4, true).is_empty());
}

#[test]
fn another_model_is_another_generation() {
    let mut session = session(false);
    session.state = State::Idle;
    assert!(session.listens_to(0));
    assert_eq!(shown(&session.use_model()), ["StartWorker", "HideBanner", "Refresh"]);
    assert!(matches!(session.state, State::Loading));
    assert!(session.listens_to(1) && !session.listens_to(0));

    let mut busy = recording(false);
    busy.preview_pending = true;
    assert_eq!(shown(&busy.use_model()), ["StartWorker", "HideBanner"]);
    assert!(busy.is_recording() && !busy.preview_pending);
}

#[test]
fn a_choice_in_the_picker_is_acted_on() {
    let canary = find("canary-180m-flash").unwrap();
    let sense_voice = find("sense-voice").unwrap();
    let mut session = session(false);
    assert!(session.picker_changed(Change::Model(canary)).is_empty());
    assert_eq!(
        shown(&session.picker_changed(Change::Model(sense_voice))),
        ["SaveConfig", "StartWorker", "HideBanner", "Refresh"]
    );
    assert_eq!(session.config.model, "sense-voice");
    let told = Change::Language { model: sense_voice, hears: "zh", writes: "zh" };
    assert_eq!(shown(&session.picker_changed(told)), ["SaveConfig", "ApplySettings"]);
    assert_eq!(session.config.language(&sense_voice), ("zh", "zh"));
    assert_eq!(session.generation, 1);
}

#[test]
fn preferences_are_live() {
    let mut session = session(false);
    assert_eq!(shown(&session.apply_config(Config::default())), ["ApplySettings"]);
    let mut config = Config::default();
    config.history_limit = 5;
    config.live_preview = false;
    config.model = "sense-voice".into();
    assert_eq!(
        shown(&session.apply_config(config)),
        [
            "ApplySettings",
            "ReloadHistory",
            "ClearPreview",
            "StartWorker",
            "HideBanner",
            "Refresh"
        ]
    );
    assert_eq!(session.config.history_limit, 5);
}

#[test]
fn the_bars_stop_once_they_settle() {
    let mut session = recording(false);
    assert!(!session.start_animating());
    assert!(session.frame(true) && session.animating);
    session.recording_finished(true);
    assert!(session.frame(false) && session.animating);
    assert!(!session.frame(true) && !session.animating);
    assert!(session.start_animating());
}

#[test]
fn the_selection_stays_where_the_eye_is() {
    assert_eq!(selection_after(0, 0), None);
    assert_eq!(selection_after(2, 5), Some(2));
    assert_eq!(selection_after(5, 5), Some(4));
    assert_eq!(selected_entry(Some(1), 2), Some(1));
    assert_eq!(selected_entry(Some(2), 2), None);
    assert_eq!(selected_entry(None, 2), None);

    let gone = deletion(Ok(true), 3, 3);
    assert!(gone.rebuild && gone.next == Some(2));
    assert!(matches!(gone.notice, Some(Notice::Deleted)));
    let never = deletion(Ok(false), 3, 3);
    assert!(!never.rebuild && never.notice.is_none());
    let stuck = deletion(Err("full".into()), 3, 3);
    assert!(!stuck.rebuild && stuck.next.is_none());
    assert!(matches!(stuck.notice, Some(Notice::NotDeleted(err)) if err == "full"));

    assert!(matches!(copy_notice(Ok(())), Notice::Copied));
    assert!(matches!(copy_notice(Err("x".into())), Notice::CopyFailed(err) if err == "x"));
}

#[test]
fn the_window_is_laid_out_for_what_it_is() {
    let panel = layout(true);
    assert_eq!((panel.width, panel.height, panel.stage_height), (460, 240, 150));
    assert!(!panel.resizable && !panel.has_list);
    let window = layout(false);
    assert_eq!((window.width, window.height, window.stage_height), (560, 640, 196));
    assert!(window.resizable && window.has_list);
    assert_eq!(list_page(0), "empty");
    assert_eq!(list_page(1), "list");
    let pressable = buttons(true, false);
    assert!(pressable.copy && pressable.delete && !pressable.type_out);
    assert!(buttons(true, true).type_out && !buttons(false, true).copy);
    assert_eq!(type_tooltip(false), "Install wtype to type into the focused window");
    assert_eq!(type_tooltip(true), "Type the selected transcript into the focused window");
}
