use yapper::output::{
    can_type, candidates, clipboard, copied_message, copy, count_words, has_wl_copy, notify,
    text_arguments, type_text, which, Clipboard, Copying, Typing,
};

#[test]
fn the_message_counts_words_and_gets_the_plural_right() {
    assert_eq!(copied_message("hello"), "Copied 1 word to the clipboard");
    assert_eq!(
        copied_message("  hello   there, world \n"),
        "Copied 3 words to the clipboard"
    );
    assert_eq!(copied_message(""), "Copied 0 words to the clipboard");
}

#[test]
fn words_are_what_white_space_separates() {
    for text in ["", " ", "a", " a", "a ", "a b", "a\u{3000}b\tc", "  über  schön  ", "\n\n"] {
        assert_eq!(count_words(text), text.split_whitespace().count(), "{text:?}");
    }
}

#[test]
fn a_program_is_found_in_the_first_directory_that_has_it() {
    let dirs = vec![b"/usr/local/bin".to_vec(), b"/usr/bin".to_vec(), b"/bin/".to_vec()];
    assert_eq!(
        candidates(&dirs, "wtype"),
        [
            b"/usr/local/bin/wtype".to_vec(),
            b"/usr/bin/wtype".to_vec(),
            b"/bin/wtype".to_vec()
        ]
    );
    let found = which(Some(&dirs), &[false, true, true], "wtype");
    assert_eq!(found, Some(b"/usr/bin/wtype".to_vec()));
    assert_eq!(which(Some(&dirs), &[false, false, false], "wtype"), None);
    // Nowhere is searched when nothing says where to.
    assert_eq!(which(None, &[], "wtype"), None);
    assert!(has_wl_copy(Some(&dirs), &[false, false, true]));
    assert!(!has_wl_copy(Some(&dirs), &[false, false, false]));
    assert!(can_type(Some(&dirs), &[true, false, false]));
    assert!(!can_type(None, &[]));
}

#[test]
fn a_copy_is_confirmed_or_explained() {
    assert_eq!(clipboard(true), Clipboard::WlCopy);
    assert_eq!(clipboard(false), Clipboard::Gtk);
    assert_eq!(
        copy("two words", Copying::Copied),
        Ok("Copied 2 words to the clipboard".to_string())
    );
    assert_eq!(copy("x", Copying::NotStarted), Err("running wl-copy"));
    assert_eq!(copy("x", Copying::NoDisplay), Err("no display"));
    assert_eq!(text_arguments("-n"), ["--", "-n"]);
}

#[test]
fn a_notification_needs_something_to_send_it() {
    assert_eq!(notify("done", false), None);
    assert_eq!(
        notify("done", true).unwrap(),
        [
            "--app-name=yapper",
            "--icon=audio-input-microphone",
            "--expire-time=3000",
            "done"
        ]
    );
}

#[test]
fn typing_says_what_went_wrong() {
    let ended = |success: bool| Typing::Ended {
        success,
        status: "exit status: 1".to_string(),
    };
    assert_eq!(type_text(true, ended(true)), Ok(()));
    assert_eq!(
        type_text(true, ended(false)),
        Err("wtype exited with exit status: 1".to_string())
    );
    assert_eq!(type_text(true, Typing::NotStarted), Err("running wtype".to_string()));
    assert_eq!(
        type_text(false, Typing::NotTried),
        Err("wtype is not installed".to_string())
    );
}
