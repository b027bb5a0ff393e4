use yapper::players::{is_playing, players, resume, Paused, Pausing};

fn names(names: &[&str]) -> Option<Vec<String>> {
    Some(names.iter().map(|name| name.to_string()).collect())
}

#[test]
fn players_are_told_by_their_names() {
    let found = players(names(&[
        ":1.4",
        "org.mpris.MediaPlayer2.spotify",
        "org.freedesktop.DBus",
        "org.mpris.MediaPlayer2",
        "org.mpris.MediaPlayer2.vlc.instance7",
    ]));
    assert_eq!(
        found,
        ["org.mpris.MediaPlayer2.spotify", "org.mpris.MediaPlayer2.vlc.instance7"]
    );
    assert!(players(None).is_empty());
}

#[test]
fn a_player_that_will_not_say_is_left_alone() {
    assert!(is_playing(&Some("Playing".to_string())));
    assert!(!is_playing(&Some("Paused".to_string())));
    assert!(!is_playing(&Some("playing".to_string())));
    assert!(!is_playing(&None));
}

#[test]
fn only_what_was_paused_is_started_again() {
    let mut pausing = Pausing::new(names(&[
        "org.mpris.MediaPlayer2.a",
        "other",
        "org.mpris.MediaPlayer2.b",
        "org.mpris.MediaPlayer2.c",
        "org.mpris.MediaPlayer2.d",
    ]));
    assert_eq!(pausing.next(), Some("org.mpris.MediaPlayer2.a"));
    pausing.answered(&Some("Playing".to_string()), true);
    assert_eq!(pausing.next(), Some("org.mpris.MediaPlayer2.b"));
    // Already paused, by hand.
    pausing.answered(&Some("Paused".to_string()), false);
    // Playing, and would not be paused.
    pausing.answered(&Some("Playing".to_string()), false);
    // Would not say.
    pausing.answered(&None, true);
    assert_eq!(pausing.next(), None);
    assert_eq!(resume(pausing.done()), ["org.mpris.MediaPlayer2.a"]);
    assert!(resume(Paused::default()).is_empty());
    assert_eq!(Pausing::new(None).next(), None);
}
