//! Getting the transcript out of the window and into whatever you were typing in.
use vstd::prelude::*;

use crate::number::{decimal, push_decimal};
use crate::path::{below, join};
use crate::text::{characters, is_whitespace, joined, white_space};

verus! {

/// Whether a word starts here: what came before was white space, or nothing.
pub open spec fn word_starts(s: Seq<char>, at: int) -> bool {
    !white_space(s[at]) && (at == 0 || white_space(s[at - 1]))
}

/// How many words there are, counting what white space separates.
pub open spec fn word_count(s: Seq<char>) -> nat
    decreases s.len(),
{
    if s.len() == 0 {
        0
    } else {
        word_count(s.drop_last()) + if word_starts(s, s.len() - 1) {
            1nat
        } else {
            0
        }
    }
}

/// How many words there are. Words are whitespace-separated, which is what a
/// person counting them would say too.
pub fn count_words(text: &str) -> (words: usize)
    ensures
        words == word_count(text@),
{
    let chars = characters(text);
    let count: usize = chars.len();
    let mut words: usize = 0;
    let mut at: usize = 0;
    while at < count
        invariant
            chars@ == text@,
            count == chars@.len(),
            at <= count,
            words <= at,
            words == word_count(text@.take(at as int)),
        decreases count - at,
    {
        proof {
            let next = text@.take(at + 1);
            assert(next.drop_last() =~= text@.take(at as int));
            assert(next[at as int] == text@[at as int]);
            if at > 0 {
                assert(next[at - 1] == text@[at - 1]);
            }
        }
        if !is_whitespace(chars[at]) && (at == 0 || is_whitespace(chars[at - 1])) {
            words += 1;
        }
        at += 1;
    }
    assert(text@.take(count as int) =~= text@);
    words
}

/// What the notification says.
pub open spec fn copied(text: Seq<char>) -> Seq<char> {
    "Copied "@ + decimal(word_count(text)) + if word_count(text) == 1 {
        " word"@
    } else {
        " words"@
    } + " to the clipboard"@
}

/// What the notification says.
pub fn copied_message(text: &str) -> (message: String)
    ensures
        message@ == copied(text@),
{
    let words: usize = count_words(text);
    let mut message = "Copied ".to_owned();
    push_decimal(&mut message, words as u64);
    if words == 1 {
        message.append(" word");
    } else {
        message.append(" words");
    }
    message.append(" to the clipboard");
    assert(message@ =~= copied(text@));
    message
}

// --- finding programs --------------------------------------------------------

/// The places a program may be, one in each directory that is searched, in order.
pub open spec fn places(dirs: Seq<Vec<u8>>, program: Seq<char>) -> Seq<Seq<u8>> {
    dirs.map_values(|dir: Vec<u8>| below(dir@, program))
}

/// The contents of a list of paths.
pub open spec fn path_bytes(paths: Seq<Vec<u8>>) -> Seq<Seq<u8>> {
    paths.map_values(|path: Vec<u8>| path@)
}

/// The places a program may be, one in each directory that is searched, in order.
pub fn candidates(dirs: &[Vec<u8>], program: &str) -> (found: Vec<Vec<u8>>)
    ensures
        path_bytes(found@) == places(dirs@, program@),
{
    let mut found: Vec<Vec<u8>> = Vec::new();
    let count: usize = dirs.len();
    let mut at: usize = 0;
    while at < count
        invariant
            count == dirs@.len(),
            at <= count,
            path_bytes(found@) == places(dirs@, program@).take(at as int),
        decreases count - at,
    {
        let ghost before = path_bytes(found@);
        found.push(join(dirs[at].as_slice(), program));
        at += 1;
        assert(path_bytes(found@) =~= before.push(below(dirs@[at - 1]@, program@)));
        assert(places(dirs@, program@).take(at as int) =~= before.push(
            below(dirs@[at - 1]@, program@),
        ));
    }
    assert(places(dirs@, program@).take(count as int) =~= places(dirs@, program@));
    found
}

/// Whether this is the first directory to hold what is looked for.
pub open spec fn first_file(is_file: Seq<bool>, at: int) -> bool {
    0 <= at < is_file.len() && is_file[at] && forall|i: int| 0 <= i < at ==> !#[trigger] is_file[i]
}

/// Where a program is. `dirs` are the directories that are searched, if any were
/// named, and `is_file` says of each whether the program is a file in it.
pub fn which(dirs: Option<&[Vec<u8>]>, is_file: &[bool], program: &str) -> (path: Option<Vec<u8>>)
    requires
        dirs matches Some(dirs) ==> is_file@.len() == dirs@.len(),
    ensures
        match path {
            Some(path) => dirs matches Some(dirs) && exists|at: int| #[trigger]
                first_file(is_file@, at) && path@ == below(dirs@[at]@, program@),
            None => dirs matches Some(dirs) ==> forall|i: int|
                0 <= i < dirs@.len() ==> !#[trigger] is_file@[i],
        },
{
    let searched = match dirs {
        Some(dirs) => dirs,
        None => {
            return None;
        },
    };
    let count: usize = searched.len();
    let mut at: usize = 0;
    while at < count
        invariant
            dirs == Some(searched),
            count == searched@.len(),
            count == is_file@.len(),
            at <= count,
            forall|i: int| 0 <= i < at ==> !#[trigger] is_file@[i],
        decreases count - at,
    {
        if is_file[at] {
            assert(first_file(is_file@, at as int));
            return Some(join(searched[at].as_slice(), program));
        }
        at += 1;
    }
    None
}

/// Whether a program is in any of the directories that are searched.
pub open spec fn somewhere(dirs: Option<&[Vec<u8>]>, is_file: Seq<bool>) -> bool {
    dirs is Some && exists|i: int| 0 <= i < is_file.len() && #[trigger] is_file[i]
}

pub const COPYING_TOOL: &'static str = "wl-copy";

pub const TYPING_TOOL: &'static str = "wtype";

pub const NOTIFYING_TOOL: &'static str = "notify-send";

fn is_somewhere(dirs: Option<&[Vec<u8>]>, is_file: &[bool], program: &str) -> (found: bool)
    requires
        dirs matches Some(dirs) ==> is_file@.len() == dirs@.len(),
    ensures
        found == somewhere(dirs, is_file@),
{
    match which(dirs, is_file, program) {
        Some(_) => {
            proof {
                let at = choose|at: int| #[trigger] first_file(is_file@, at);
                assert(is_file@[at]);
            }
            true
        },
        None => false,
    }
}

/// Whether `wl-copy` is available. It matters because its clipboard survives
/// yapper exiting, while GTK's own does not.
pub fn has_wl_copy(dirs: Option<&[Vec<u8>]>, is_file: &[bool]) -> (has: bool)
    requires
        dirs matches Some(dirs) ==> is_file@.len() == dirs@.len(),
    ensures
        has == somewhere(dirs, is_file@),
{
    is_somewhere(dirs, is_file, COPYING_TOOL)
}

/// Whether we can type into the focused window.
pub fn can_type(dirs: Option<&[Vec<u8>]>, is_file: &[bool]) -> (can: bool)
    requires
        dirs matches Some(dirs) ==> is_file@.len() == dirs@.len(),
    ensures
        can == somewhere(dirs, is_file@),
{
    is_somewhere(dirs, is_file, TYPING_TOOL)
}

// --- copying -----------------------------------------------------------------

/// Where a transcript is copied to.
#[derive(Debug, Clone, Copy, PartialEq, Eq, Structural)]
pub enum Clipboard {
    /// Through `wl-copy`, whose clipboard outlives the process.
    WlCopy,
    /// GTK's own.
    Gtk,
}

/// Which clipboard to copy to: `wl-copy` when it exists, since unlike GTK's own
/// its contents survive yapper exiting.
pub fn clipboard(has_wl_copy: bool) -> (clipboard: Clipboard)
    ensures
        clipboard == if has_wl_copy {
            Clipboard::WlCopy
        } else {
            Clipboard::Gtk
        },
{
    if has_wl_copy {
        Clipboard::WlCopy
    } else {
        Clipboard::Gtk
    }
}

/// What a program that takes a text is told: the text, after a mark that keeps
/// one starting with a dash from being read as a flag.
pub fn text_arguments(text: &str) -> (arguments: Vec<String>)
    ensures
        arguments@.len() == 2,
        arguments@[0]@ == "--"@,
        arguments@[1]@ == text@,
{
    vec!["--".to_owned(), text.to_owned()]
}

/// How copying went.
#[derive(Debug, Clone, Copy, PartialEq, Eq, Structural)]
pub enum Copying {
    Copied,
    /// `wl-copy` could not be started.
    NotStarted,
    /// There is no display, so GTK has no clipboard.
    NoDisplay,
}

/// What becomes of a copy: the notification that confirms it, or what went wrong.
///
/// A successful copy raises a desktop notification. Quick capture is gone from
/// the screen by the time the text lands, so without one there is nothing at
/// all to confirm it worked.
pub fn copy(text: &str, copying: Copying) -> (result: Result<String, &'static str>)
    ensures
        match copying {
            Copying::Copied => result matches Ok(message) && message@ == copied(text@),
            Copying::NotStarted => result matches Err(err) && err@ == "running wl-copy"@,
            Copying::NoDisplay => result matches Err(err) && err@ == "no display"@,
        },
{
    match copying {
        Copying::Copied => Ok(copied_message(text)),
        Copying::NotStarted => Err("running wl-copy"),
        Copying::NoDisplay => Err("no display"),
    }
}

/// What `notify-send` is told to say, if it is there to be told. No notification
/// daemon, or no notify-send, is not an error worth interrupting a dictation for.
pub fn notify(body: &str, has_notify_send: bool) -> (arguments: Option<Vec<String>>)
    ensures
        arguments is Some <==> has_notify_send,
        arguments matches Some(arguments) ==> {
            &&& arguments@.len() == 4
            &&& arguments@[0]@ == "--app-name=yapper"@
            &&& arguments@[1]@ == "--icon=audio-input-microphone"@
            &&& arguments@[2]@ == "--expire-time=3000"@
            &&& arguments@[3]@ == body@
        },
{
    if !has_notify_send {
        return None;
    }
    Some(
        vec![
            "--app-name=yapper".to_owned(),
            "--icon=audio-input-microphone".to_owned(),
            "--expire-time=3000".to_owned(),
            body.to_owned(),
        ],
    )
}

// --- typing ------------------------------------------------------------------

/// How typing went.
#[derive(Debug, Clone)]
pub enum Typing {
    /// It was not tried, as there is nothing to type with.
    NotTried,
    /// `wtype` could not be started.
    NotStarted,
    /// It ran to its end, which is described.
    Ended { success: bool, status: String },
}

/// What becomes of typing a text into whichever window has focus.
pub fn type_text(can_type: bool, typing: Typing) -> (result: Result<(), String>)
    requires
        can_type ==> !(typing is NotTried),
    ensures
        if !can_type {
            result matches Err(err) && err@ == "wtype is not installed"@
        } else {
            match typing {
                Typing::NotTried => true,
                Typing::NotStarted => result matches Err(err) && err@ == "running wtype"@,
                Typing::Ended { success, status } => if success {
                    result is Ok
                } else {
                    result matches Err(err) && err@ == "wtype exited with "@ + status@
                },
            }
        },
{
    if !can_type {
        return Err("wtype is not installed".to_owned());
    }
    match typing {
        Typing::NotTried => Ok(()),
        Typing::NotStarted => Err("running wtype".to_owned()),
        Typing::Ended { success, status } => if success {
            Ok(())
        } else {
            Err(joined("wtype exited with ", status.as_str()))
        },
    }
}

// --- what the words keep to --------------------------------------------------

proof fn words_before(a: Seq<char>, c: char, b: Seq<char>)
    requires
        white_space(c),
    ensures
        word_count(a.push(c) + b) == word_count(a) + word_count(b),
    decreases b.len(),
{
    let s = a.push(c) + b;
    if b.len() == 0 {
        assert(s =~= a.push(c));
        assert(s.drop_last() =~= a);
        assert(s.last() == c);
    } else {
        let shorter = b.drop_last();
        assert(s.drop_last() =~= a.push(c) + shorter);
        words_before(a, c, shorter);
        let at = s.len() - 1;
        assert(s[at] == b.last());
        if b.len() == 1 {
            assert(s[at - 1] == c);
        } else {
            assert(s[at - 1] == b[b.len() - 2]);
        }
    }
}

/// White space is what separates words: there are as many in a text as there are before
/// and after any of its white space, one in what has none, and none in nothing.
pub proof fn white_space_separates_words(a: Seq<char>, c: char, b: Seq<char>, word: Seq<char>)
    requires
        white_space(c),
        word.len() > 0,
        forall|i: int| 0 <= i < word.len() ==> !white_space(#[trigger] word[i]),
    ensures
        word_count(a.push(c) + b) == word_count(a) + word_count(b),
        word_count(word) == 1,
        word_count(Seq::empty()) == 0,
    decreases word.len(),
{
    words_before(a, c, b);
    let shorter = word.drop_last();
    assert forall|i: int| 0 <= i < shorter.len() implies !white_space(#[trigger] shorter[i]) by {
        assert(shorter[i] == word[i]);
    }
    if shorter.len() > 0 {
        assert(!white_space(word[word.len() - 2]));
        white_space_separates_words(a, c, b, shorter);
    } else {
        assert(word_count(shorter) == 0);
    }
    assert(!white_space(word[word.len() - 1]));
}

/// A copy is confirmed with how many words it took, in the number that goes with it.
pub proof fn a_copy_is_confirmed_in_words(text: Seq<char>)
    ensures
        word_count(text) == 1 ==> copied(text) == "Copied "@ + decimal(1) + " word"@
            + " to the clipboard"@,
        word_count(text) != 1 ==> copied(text) == "Copied "@ + decimal(word_count(text)) + " words"@
            + " to the clipboard"@,
{
}

/// A program is looked for in each directory, under its own name, and in no other
/// order.
pub proof fn a_program_is_looked_for_in_each_directory(dirs: Seq<Vec<u8>>, program: Seq<char>)
    ensures
        places(dirs, program).len() == dirs.len(),
        forall|i: int|
            0 <= i < dirs.len() ==> #[trigger] places(dirs, program)[i] == below(dirs[i]@, program),
{
}

/// The first directory that holds a program is the one it is taken from, and it is
/// somewhere exactly where one of them does.
pub proof fn the_first_directory_counts(
    dirs: Option<&[Vec<u8>]>,
    is_file: Seq<bool>,
    at: int,
    other: int,
)
    ensures
        first_file(is_file, at) ==> 0 <= at < is_file.len() && is_file[at],
        first_file(is_file, at) && 0 <= other < is_file.len() && is_file[other] ==> at <= other,
        dirs is Some && 0 <= other < is_file.len() && is_file[other] ==> somewhere(dirs, is_file),
        dirs is None ==> !somewhere(dirs, is_file),
        (forall|i: int| 0 <= i < is_file.len() ==> !#[trigger] is_file[i]) ==> !somewhere(
            dirs,
            is_file,
        ),
{
}

} // verus!
