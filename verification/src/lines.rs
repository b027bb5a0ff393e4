//! Text as lines.
use vstd::prelude::*;
use vstd::utf8::{decode_utf8, encode_scalar, encode_utf8, valid_utf8};

use crate::path::as_text;
use crate::text::{blank, characters, contents, is_blank, string_of};

verus! {

/// Where the first line stops: at its line feed, or at the end.
pub open spec fn line_end(s: Seq<char>) -> int
    decreases s.len(),
{
    if s.len() == 0 || s[0] == '\n' {
        0
    } else {
        1 + line_end(s.skip(1))
    }
}

/// The first line, without the line feed, or the carriage return and line feed,
/// that ends it.
pub open spec fn first_line(s: Seq<char>) -> Seq<char> {
    let end = line_end(s);
    if 0 < end < s.len() && s[end - 1] == '\r' {
        s.take(end - 1)
    } else {
        s.take(end)
    }
}

/// What follows the first line.
pub open spec fn after_first_line(s: Seq<char>) -> Seq<char> {
    if line_end(s) < s.len() {
        s.skip(line_end(s) + 1)
    } else {
        Seq::empty()
    }
}

/// The lines of a text. A text that ends in a line feed has no empty line after
/// it.
pub open spec fn lines(s: Seq<char>) -> Seq<Seq<char>>
    decreases s.len(),
    via lines_shrink
{
    if s.len() == 0 {
        Seq::empty()
    } else {
        seq![first_line(s)] + lines(after_first_line(s))
    }
}

#[via_fn]
proof fn lines_shrink(s: Seq<char>) {
    line_end_is_the_first_line_feed(s);
}

/// The first line stops at the first line feed.
pub proof fn line_end_is_the_first_line_feed(s: Seq<char>)
    ensures
        0 <= line_end(s) <= s.len(),
        line_end(s) < s.len() ==> s[line_end(s)] == '\n',
        forall|i: int| 0 <= i < line_end(s) ==> s[i] != '\n',
    decreases s.len(),
{
    if s.len() > 0 && s[0] != '\n' {
        line_end_is_the_first_line_feed(s.skip(1));
        assert forall|i: int| 0 <= i < line_end(s) implies s[i] != '\n' by {
            if i > 0 {
                assert(s[i] == s.skip(1)[i - 1]);
            }
        }
    }
}

/// Nothing but the first line feed, or the end where there is none, ends the
/// first line.
pub proof fn line_end_is(s: Seq<char>, end: int)
    requires
        0 <= end <= s.len(),
        end < s.len() ==> s[end] == '\n',
        forall|i: int| 0 <= i < end ==> s[i] != '\n',
    ensures
        line_end(s) == end,
{
    line_end_is_the_first_line_feed(s);
    if line_end(s) < end {
        assert(s[line_end(s)] != '\n');
    }
}

/// Where the line that starts at `start` stops.
fn find_line_end(chars: &[char], start: usize) -> (end: usize)
    requires
        start <= chars@.len(),
    ensures
        end == start + line_end(chars@.skip(start as int)),
        start <= end <= chars@.len(),
{
    let ghost rest = chars@.skip(start as int);
    let mut end: usize = start;
    while end < chars.len() && chars[end] != '\n'
        invariant
            rest == chars@.skip(start as int),
            start <= end <= chars@.len(),
            forall|i: int| 0 <= i < end - start ==> rest[i] != '\n',
        decreases chars@.len() - end,
    {
        end += 1;
    }
    proof {
        line_end_is(rest, end - start);
    }
    end
}

/// Where the words of a line end, given where the line starts and stops.
fn without_carriage_return(chars: &[char], start: usize, end: usize) -> (stop: usize)
    requires
        start <= end <= chars@.len(),
        end == start + line_end(chars@.skip(start as int)),
    ensures
        start <= stop <= end,
        chars@.subrange(start as int, stop as int) == first_line(chars@.skip(start as int)),
{
    let ghost rest = chars@.skip(start as int);
    if end > start && end < chars.len() && chars[end - 1] == '\r' {
        assert(rest[end - start - 1] == '\r');
        assert(chars@.subrange(start as int, end - 1) =~= rest.take(end - start - 1));
        end - 1
    } else {
        assert(end > start ==> rest[end - start - 1] == chars@[end - 1]);
        assert(chars@.subrange(start as int, end as int) =~= rest.take(end - start));
        end
    }
}

/// The first line of a string.
pub fn line_one(text: &str) -> (line: &str)
    ensures
        line@ == first_line(text@),
{
    let chars = characters(text);
    let end: usize = find_line_end(chars.as_slice(), 0);
    let stop: usize = without_carriage_return(chars.as_slice(), 0, end);
    assert(text@.skip(0) =~= text@);
    text.substring_char(0, stop)
}

/// The lines that have anything on them.
pub open spec fn written_lines(s: Seq<char>) -> Seq<Seq<char>> {
    lines(s).filter(|line: Seq<char>| !blank(line))
}

proof fn filter_one<T>(x: T, keep: spec_fn(T) -> bool)
    ensures
        seq![x].filter(keep) == if keep(x) {
            seq![x]
        } else {
            Seq::empty()
        },
{
    reveal_with_fuel(Seq::filter, 2);
    assert(seq![x].drop_last() =~= Seq::empty());
    if keep(x) {
        assert(Seq::<T>::empty().push(x) =~= seq![x]);
    }
}

/// A text that has a first line has its written lines after that one's.
pub proof fn written_lines_unfold(s: Seq<char>)
    requires
        s.len() > 0,
    ensures
        written_lines(s) == if blank(first_line(s)) {
            written_lines(after_first_line(s))
        } else {
            seq![first_line(s)] + written_lines(after_first_line(s))
        },
{
    let keep = |line: Seq<char>| !blank(line);
    Seq::filter_distributes_over_add(seq![first_line(s)], lines(after_first_line(s)), keep);
    filter_one(first_line(s), keep);
    assert(Seq::<Seq<char>>::empty() + written_lines(after_first_line(s)) =~= written_lines(
        after_first_line(s),
    ));
}

/// The lines of a string that have anything on them.
pub fn nonblank_lines(text: &str) -> (found: Vec<String>)
    ensures
        contents(found@) == written_lines(text@),
{
    let chars = characters(text);
    let mut found: Vec<String> = Vec::new();
    let mut at: usize = 0;
    assert(text@.skip(0) =~= text@);
    assert(contents(found@) + written_lines(text@) =~= written_lines(text@));
    while at < chars.len()
        invariant
            chars@ == text@,
            at <= chars@.len(),
            contents(found@) + written_lines(text@.skip(at as int)) == written_lines(text@),
        decreases chars@.len() - at,
    {
        let ghost rest = text@.skip(at as int);
        let ghost before = contents(found@);
        let end: usize = find_line_end(chars.as_slice(), at);
        let stop: usize = without_carriage_return(chars.as_slice(), at, end);
        let line = string_of(chars.as_slice(), at, stop);
        proof {
            written_lines_unfold(rest);
        }
        if !is_blank(line.as_str()) {
            found.push(line);
            assert(contents(found@) =~= before + seq![first_line(rest)]);
        }
        at = if end < chars.len() {
            end + 1
        } else {
            end
        };
        assert(after_first_line(rest) =~= text@.skip(at as int));
        assert(contents(found@) + written_lines(text@.skip(at as int)) =~= before + written_lines(
            rest,
        ));
    }
    assert(text@.skip(at as int) =~= Seq::<char>::empty());
    reveal_with_fuel(Seq::filter, 1);
    assert(contents(found@) + written_lines(Seq::empty()) =~= contents(found@));
    found
}

// --- lines of bytes ----------------------------------------------------------

/// Where the first line of some bytes stops: at its line feed, or at the end.
pub open spec fn byte_line_end(s: Seq<u8>) -> int
    decreases s.len(),
{
    if s.len() == 0 || s[0] == 0x0a {
        0
    } else {
        1 + byte_line_end(s.skip(1))
    }
}

/// The first line of some bytes, without what ends it.
pub open spec fn first_byte_line(s: Seq<u8>) -> Seq<u8> {
    let end = byte_line_end(s);
    if 0 < end < s.len() && s[end - 1] == 0x0d {
        s.take(end - 1)
    } else {
        s.take(end)
    }
}

/// What follows the first line of some bytes.
pub open spec fn after_first_byte_line(s: Seq<u8>) -> Seq<u8> {
    if byte_line_end(s) < s.len() {
        s.skip(byte_line_end(s) + 1)
    } else {
        Seq::empty()
    }
}

/// The lines of some bytes, whether or not they are text.
pub open spec fn byte_lines(s: Seq<u8>) -> Seq<Seq<u8>>
    decreases s.len(),
    via byte_lines_shrink
{
    if s.len() == 0 {
        Seq::empty()
    } else {
        seq![first_byte_line(s)] + byte_lines(after_first_byte_line(s))
    }
}

#[via_fn]
proof fn byte_lines_shrink(s: Seq<u8>) {
    byte_line_end_is_the_first_line_feed(s);
}

proof fn byte_line_end_is_the_first_line_feed(s: Seq<u8>)
    ensures
        0 <= byte_line_end(s) <= s.len(),
        byte_line_end(s) < s.len() ==> s[byte_line_end(s)] == 0x0a,
        forall|i: int| 0 <= i < byte_line_end(s) ==> s[i] != 0x0a,
    decreases s.len(),
{
    if s.len() > 0 && s[0] != 0x0a {
        byte_line_end_is_the_first_line_feed(s.skip(1));
        assert forall|i: int| 0 <= i < byte_line_end(s) implies s[i] != 0x0a by {
            if i > 0 {
                assert(s[i] == s.skip(1)[i - 1]);
            }
        }
    }
}

proof fn byte_line_end_is(s: Seq<u8>, end: int)
    requires
        0 <= end <= s.len(),
        end < s.len() ==> s[end] == 0x0a,
        forall|i: int| 0 <= i < end ==> s[i] != 0x0a,
    ensures
        byte_line_end(s) == end,
{
    byte_line_end_is_the_first_line_feed(s);
    if byte_line_end(s) < end {
        assert(s[byte_line_end(s)] != 0x0a);
    }
}

/// A line as text, if it is text.
pub open spec fn line_text(line: Seq<u8>) -> Option<Seq<char>> {
    if valid_utf8(line) {
        Some(decode_utf8(line))
    } else {
        None
    }
}

/// Whether there is anything on a line, be it text or not.
pub open spec fn is_written(text: Option<Seq<char>>) -> bool {
    text matches Some(text) ==> !blank(text)
}

/// The lines of some bytes that have anything on them, each as text if it is text.
pub open spec fn written_byte_lines(s: Seq<u8>) -> Seq<Option<Seq<char>>> {
    byte_lines(s).map_values(|line: Seq<u8>| line_text(line)).filter(
        |text: Option<Seq<char>>| is_written(text),
    )
}

/// The contents of a list of lines, some of which may not be text.
pub open spec fn line_texts(lines: Seq<Option<String>>) -> Seq<Option<Seq<char>>> {
    lines.map_values(
        |line: Option<String>|
            match line {
                Some(line) => Some(line@),
                None => None,
            },
    )
}

proof fn written_byte_lines_unfold(s: Seq<u8>)
    requires
        s.len() > 0,
    ensures
        written_byte_lines(s) == if is_written(line_text(first_byte_line(s))) {
            seq![line_text(first_byte_line(s))] + written_byte_lines(after_first_byte_line(s))
        } else {
            written_byte_lines(after_first_byte_line(s))
        },
{
    let read = |line: Seq<u8>| line_text(line);
    let keep = |text: Option<Seq<char>>| is_written(text);
    let first = line_text(first_byte_line(s));
    let rest = byte_lines(after_first_byte_line(s)).map_values(read);
    assert(byte_lines(s).map_values(read) =~= seq![first] + rest);
    Seq::filter_distributes_over_add(seq![first], rest, keep);
    filter_one(first, keep);
    assert(Seq::<Option<Seq<char>>>::empty() + rest.filter(keep) =~= rest.filter(keep));
}

/// The bytes from `start` up to `end`.
fn bytes_between(bytes: &[u8], start: usize, end: usize) -> (part: Vec<u8>)
    requires
        start <= end <= bytes@.len(),
    ensures
        part@ == bytes@.subrange(start as int, end as int),
{
    let mut part: Vec<u8> = Vec::new();
    let mut at: usize = start;
    while at < end
        invariant
            start <= at <= end <= bytes@.len(),
            part@ == bytes@.subrange(start as int, at as int),
        decreases end - at,
    {
        part.push(bytes[at]);
        at += 1;
    }
    part
}

/// Where the line of bytes that starts at `start` stops, and where what is on it
/// does.
fn find_byte_line(bytes: &[u8], start: usize) -> (ends: (usize, usize))
    requires
        start < bytes@.len(),
    ensures
        ends.0 == start + byte_line_end(bytes@.skip(start as int)),
        start <= ends.1 <= ends.0 <= bytes@.len(),
        bytes@.subrange(start as int, ends.1 as int) == first_byte_line(bytes@.skip(start as int)),
{
    let ghost rest = bytes@.skip(start as int);
    let mut end: usize = start;
    while end < bytes.len() && bytes[end] != 0x0a
        invariant
            rest == bytes@.skip(start as int),
            start <= end <= bytes@.len(),
            forall|i: int| 0 <= i < end - start ==> rest[i] != 0x0a,
        decreases bytes@.len() - end,
    {
        end += 1;
    }
    proof {
        byte_line_end_is(rest, end - start);
    }
    if end > start && end < bytes.len() && bytes[end - 1] == 0x0d {
        assert(rest[end - start - 1] == 0x0d);
        assert(bytes@.subrange(start as int, end - 1) =~= rest.take(end - start - 1));
        (end, end - 1)
    } else {
        assert(end > start ==> rest[end - start - 1] == bytes@[end - 1]);
        assert(bytes@.subrange(start as int, end as int) =~= rest.take(end - start));
        (end, end)
    }
}

/// The lines of some bytes that have anything on them, in order: the text of each,
/// or `None` where it is not text. So a line that is damaged costs only itself.
pub fn read_lines(bytes: &[u8]) -> (found: Vec<Option<String>>)
    ensures
        line_texts(found@) == written_byte_lines(bytes@),
{
    let mut found: Vec<Option<String>> = Vec::new();
    let mut at: usize = 0;
    assert(bytes@.skip(0) =~= bytes@);
    assert(line_texts(found@) + written_byte_lines(bytes@) =~= written_byte_lines(bytes@));
    while at < bytes.len()
        invariant
            at <= bytes@.len(),
            line_texts(found@) + written_byte_lines(bytes@.skip(at as int)) == written_byte_lines(
                bytes@,
            ),
        decreases bytes@.len() - at,
    {
        let ghost rest = bytes@.skip(at as int);
        let ghost before = line_texts(found@);
        let (end, stop) = find_byte_line(bytes, at);
        let line = as_text(bytes_between(bytes, at, stop));
        proof {
            written_byte_lines_unfold(rest);
            if line is Some {
                vstd::utf8::encode_utf8_decode_utf8(line->0@);
            }
        }
        let written = match &line {
            Some(text) => !is_blank(text.as_str()),
            None => true,
        };
        if written {
            found.push(line);
            assert(line_texts(found@) =~= before + seq![line_text(first_byte_line(rest))]);
        }
        at = if end < bytes.len() {
            end + 1
        } else {
            end
        };
        assert(after_first_byte_line(rest) =~= bytes@.skip(at as int));
        assert(line_texts(found@) + written_byte_lines(bytes@.skip(at as int)) =~= before
            + written_byte_lines(rest));
    }
    assert(bytes@.skip(at as int) =~= Seq::<u8>::empty());
    proof {
        reveal_with_fuel(Seq::filter, 1);
        assert(written_byte_lines(Seq::empty()) =~= Seq::empty());
    }
    assert(line_texts(found@) + written_byte_lines(Seq::empty()) =~= line_texts(found@));
    found
}

// --- text as bytes -----------------------------------------------------------

proof fn encoding_joins(a: Seq<char>, b: Seq<char>)
    ensures
        encode_utf8(a + b) == encode_utf8(a) + encode_utf8(b),
    decreases a.len(),
{
    if a.len() == 0 {
        assert(a + b =~= b);
        assert(encode_utf8(a) + encode_utf8(b) =~= encode_utf8(b));
    } else {
        assert((a + b).drop_first() =~= a.drop_first() + b);
        encoding_joins(a.drop_first(), b);
        let first = encode_scalar(a[0] as u32);
        assert(first + (encode_utf8(a.drop_first()) + encode_utf8(b)) =~= first + encode_utf8(
            a.drop_first(),
        ) + encode_utf8(b));
    }
}

proof fn bytes_of_a_character(c: char)
    ensures
        encode_utf8(seq![c]) == encode_scalar(c as u32),
        encode_scalar(c as u32).len() > 0,
        c == '\n' ==> encode_scalar(c as u32) == seq![0x0au8],
        c == '\r' ==> encode_scalar(c as u32) == seq![0x0du8],
        forall|i: int|
            #![trigger encode_scalar(c as u32)[i]]
            0 <= i < encode_scalar(c as u32).len() ==> {
                &&& encode_scalar(c as u32)[i] == 0x0a ==> c == '\n'
                &&& encode_scalar(c as u32)[i] == 0x0d ==> c == '\r'
            },
{
    let n = c as u32;
    vstd::utf8::char_is_scalar(c);
    reveal_with_fuel(encode_utf8, 2);
    assert(seq![c].drop_first() =~= Seq::empty());
    assert(encode_utf8(seq![c]) =~= encode_scalar(n));
    assert(n < 0x80 ==> (n & 0x7f) as u8 == n as u8) by (bit_vector);
    if n < 0x80 {
        assert(encode_scalar(n) =~= seq![n as u8]);
        assert((n as u8) as u32 == n);
    }
    assert(forall|b: u8| #[trigger] (0xc0u8 | b) >= 0x80) by (bit_vector);
    assert(forall|b: u8| #[trigger] (0xe0u8 | b) >= 0x80) by (bit_vector);
    assert(forall|b: u8| #[trigger] (0xf0u8 | b) >= 0x80) by (bit_vector);
    assert(forall|b: u8| #[trigger] (0x80u8 | b) >= 0x80) by (bit_vector);
}

proof fn no_feed_in_bytes(s: Seq<char>)
    requires
        forall|i: int| 0 <= i < s.len() ==> s[i] != '\n',
    ensures
        forall|i: int| 0 <= i < encode_utf8(s).len() ==> encode_utf8(s)[i] != 0x0a,
    decreases s.len(),
{
    if s.len() > 0 {
        let rest = s.drop_first();
        assert forall|i: int| 0 <= i < rest.len() implies rest[i] != '\n' by {
            assert(rest[i] == s[i + 1]);
        }
        no_feed_in_bytes(rest);
        bytes_of_a_character(s[0]);
        assert(s[0] != '\n');
        let first = encode_scalar(s[0] as u32);
        assert forall|i: int| 0 <= i < encode_utf8(s).len() implies encode_utf8(s)[i] != 0x0a by {
            if i < first.len() {
                assert(encode_utf8(s)[i] == first[i]);
            } else {
                assert(encode_utf8(s)[i] == encode_utf8(rest)[i - first.len()]);
            }
        }
    }
}

proof fn return_at_the_end(s: Seq<char>)
    requires
        s.len() > 0,
    ensures
        encode_utf8(s).len() > 0,
        encode_utf8(s).last() == 0x0d <==> s.last() == '\r',
        s.last() == '\r' ==> encode_utf8(s).drop_last() == encode_utf8(s.drop_last()),
{
    let last = s.last();
    assert(s =~= s.drop_last() + seq![last]);
    encoding_joins(s.drop_last(), seq![last]);
    bytes_of_a_character(last);
    let bytes = encode_scalar(last as u32);
    assert(encode_utf8(s).last() == bytes.last());
    if last == '\r' {
        assert(encode_utf8(s).drop_last() =~= encode_utf8(s.drop_last()));
    }
}

proof fn first_line_as_bytes(text: Seq<char>)
    requires
        text.len() > 0,
    ensures
        encode_utf8(text).len() > 0,
        first_byte_line(encode_utf8(text)) == encode_utf8(first_line(text)),
        after_first_byte_line(encode_utf8(text)) == encode_utf8(after_first_line(text)),
{
    let end = line_end(text);
    let line = text.take(end);
    let bytes = encode_utf8(line);
    line_end_is_the_first_line_feed(text);
    no_feed_in_bytes(line);
    if line.len() > 0 {
        return_at_the_end(line);
    } else {
        assert(bytes =~= Seq::empty());
    }
    if end < text.len() {
        let rest = after_first_line(text);
        assert(text =~= line + (seq!['\n'] + rest));
        encoding_joins(line, seq!['\n'] + rest);
        encoding_joins(seq!['\n'], rest);
        bytes_of_a_character('\n');
        let all = encode_utf8(text);
        assert(all =~= bytes + (seq![0x0au8] + encode_utf8(rest)));
        assert(all[bytes.len() as int] == 0x0a);
        assert forall|i: int| 0 <= i < bytes.len() implies all[i] != 0x0a by {
            assert(all[i] == bytes[i]);
        }
        byte_line_end_is(all, bytes.len() as int);
        assert(all.skip(bytes.len() as int + 1) =~= encode_utf8(rest));
        assert(all.take(bytes.len() as int) =~= bytes);
        if line.len() > 0 {
            assert(all[bytes.len() - 1] == bytes.last());
            assert(line.last() == text[end - 1]);
            if line.last() == '\r' {
                assert(line.drop_last() =~= text.take(end - 1));
                assert(all.take(bytes.len() - 1) =~= bytes.drop_last());
            }
        }
    } else {
        assert(line =~= text);
        byte_line_end_is(bytes, bytes.len() as int);
        assert(bytes.take(bytes.len() as int) =~= bytes);
        assert(after_first_byte_line(bytes) =~= encode_utf8(after_first_line(text)));
    }
}

/// Text reads the same by the byte as by the character: each line that has anything
/// on it, and all of them text.
pub proof fn text_is_read_as_text(text: Seq<char>)
    ensures
        byte_lines(encode_utf8(text)) == lines(text).map_values(|line: Seq<char>| encode_utf8(line)),
        written_byte_lines(encode_utf8(text)) == written_lines(text).map_values(
            |line: Seq<char>| Some(line),
        ),
    decreases text.len(),
{
    let some = |line: Seq<char>| Some(line);
    let as_bytes = |line: Seq<char>| encode_utf8(line);
    if text.len() == 0 {
        reveal_with_fuel(Seq::filter, 1);
        assert(byte_lines(encode_utf8(text)) =~= lines(text).map_values(as_bytes));
        assert(written_byte_lines(encode_utf8(text)) =~= written_lines(text).map_values(some));
    } else {
        let first = first_line(text);
        let rest = after_first_line(text);
        line_end_is_the_first_line_feed(text);
        first_line_as_bytes(text);
        text_is_read_as_text(rest);
        assert(byte_lines(encode_utf8(text)) =~= lines(text).map_values(as_bytes));
        written_lines_unfold(text);
        written_byte_lines_unfold(encode_utf8(text));
        vstd::utf8::encode_utf8_valid_utf8(first);
        vstd::utf8::encode_utf8_decode_utf8(first);
        assert(written_byte_lines(encode_utf8(text)) =~= written_lines(text).map_values(some));
    }
}

/// A line ends at its line feed, or at the end of the text: what comes before the
/// first line feed is a line, without a carriage return at its end, and the rest of
/// the lines are those of what comes after.
pub proof fn a_line_ends_at_a_line_feed(line: Seq<char>, rest: Seq<char>)
    requires
        !line.contains('\n'),
    ensures
        lines(line.push('\n') + rest) == seq![
            if line.len() > 0 && line.last() == '\r' {
                line.drop_last()
            } else {
                line
            },
        ] + lines(rest),
        first_line(line.push('\n') + rest) == if line.len() > 0 && line.last() == '\r' {
            line.drop_last()
        } else {
            line
        },
        first_line(line) == line,
        line.len() > 0 ==> lines(line) == seq![line],
        lines(Seq::empty()).len() == 0,
{
    let s = line.push('\n') + rest;
    assert forall|i: int| 0 <= i < line.len() implies s[i] != '\n' && line[i] != '\n' by {
        assert(s[i] == line[i]);
        assert(line.contains(line[i]));
    }
    assert(s[line.len() as int] == '\n');
    line_end_is(s, line.len() as int);
    line_end_is(line, line.len() as int);
    assert(s.take(line.len() as int) =~= line);
    assert(s.skip(line.len() as int + 1) =~= rest);
    assert(line.take(line.len() as int) =~= line);
    if line.len() > 0 {
        assert(s[line.len() - 1] == line.last());
        assert(s.take(line.len() - 1) =~= line.drop_last());
        assert(lines(after_first_line(line)) =~= Seq::empty());
        assert(lines(line) =~= seq![line]);
    }
}

/// The same of bytes, whether or not they are text.
pub proof fn a_line_of_bytes_ends_at_a_line_feed(line: Seq<u8>, rest: Seq<u8>)
    requires
        !line.contains(0x0a),
    ensures
        byte_lines(line.push(0x0a) + rest) == seq![
            if line.len() > 0 && line.last() == 0x0d {
                line.drop_last()
            } else {
                line
            },
        ] + byte_lines(rest),
        line.len() > 0 ==> byte_lines(line) == seq![line],
        byte_lines(Seq::empty()).len() == 0,
{
    let s = line.push(0x0a) + rest;
    assert forall|i: int| 0 <= i < line.len() implies s[i] != 0x0a && line[i] != 0x0a by {
        assert(s[i] == line[i]);
        assert(line.contains(line[i]));
    }
    assert(s[line.len() as int] == 0x0a);
    byte_line_end_is(s, line.len() as int);
    byte_line_end_is(line, line.len() as int);
    assert(s.take(line.len() as int) =~= line);
    assert(s.skip(line.len() as int + 1) =~= rest);
    assert(line.take(line.len() as int) =~= line);
    if line.len() > 0 {
        assert(s[line.len() - 1] == line.last());
        assert(s.take(line.len() - 1) =~= line.drop_last());
        assert(byte_lines(after_first_byte_line(line)) =~= Seq::empty());
        assert(byte_lines(line) =~= seq![line]);
    }
}

/// Nothing is lost of a line but that it may be blank: the lines that are read are
/// those with anything on them, as they are, and those that are not text.
pub proof fn a_line_is_read_unless_it_is_blank(line: Seq<char>, rest: Seq<char>)
    requires
        !line.contains('\n'),
        line.len() > 0 ==> line.last() != '\r',
    ensures
        written_lines(line.push('\n') + rest) == if blank(line) {
            written_lines(rest)
        } else {
            seq![line] + written_lines(rest)
        },
{
    a_line_ends_at_a_line_feed(line, rest);
    let s = line.push('\n') + rest;
    written_lines_unfold(s);
    assert forall|i: int| 0 <= i < line.len() implies s[i] != '\n' by {
        assert(line.contains(line[i]));
    }
    line_end_is(s, line.len() as int);
    assert(s.skip(line.len() as int + 1) =~= rest);
}

/// A line of bytes is read as the text it is, passed over where that is blank, and
/// counted as one that cannot be read where it is no text.
pub proof fn a_line_of_bytes_is_read_as_text(line: Seq<u8>, rest: Seq<u8>)
    requires
        !line.contains(0x0a),
        line.len() > 0 ==> line.last() != 0x0d,
    ensures
        !valid_utf8(line) ==> written_byte_lines(line.push(0x0a) + rest) == seq![
            None::<Seq<char>>,
        ] + written_byte_lines(rest),
        valid_utf8(line) && blank(decode_utf8(line)) ==> written_byte_lines(line.push(0x0a) + rest)
            == written_byte_lines(rest),
        valid_utf8(line) && !blank(decode_utf8(line)) ==> written_byte_lines(
            line.push(0x0a) + rest,
        ) == seq![Some(decode_utf8(line))] + written_byte_lines(rest),
{
    let s = line.push(0x0a) + rest;
    assert forall|i: int| 0 <= i < line.len() implies s[i] != 0x0a by {
        assert(s[i] == line[i]);
        assert(line.contains(line[i]));
    }
    assert(s[line.len() as int] == 0x0a);
    byte_line_end_is(s, line.len() as int);
    assert(s.take(line.len() as int) =~= line);
    assert(s.skip(line.len() as int + 1) =~= rest);
    if line.len() > 0 {
        assert(s[line.len() - 1] == line.last());
    }
    written_byte_lines_unfold(s);
}

} // verus!
