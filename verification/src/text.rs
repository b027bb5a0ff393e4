//! Strings as sequences of characters: comparing, trimming and splitting them.
use vstd::prelude::*;

verus! {

/// `String::push` puts one character at the end of the string and changes
/// nothing else in it.
pub assume_specification[ String::push ](text: &mut String, c: char)
    ensures
        final(text)@ == old(text)@.push(c),
;

/// The contents of a list of strings.
pub open spec fn contents(texts: Seq<String>) -> Seq<Seq<char>> {
    texts.map_values(|text: String| text@)
}

/// The characters of a string, to be read by position.
pub fn characters(text: &str) -> (chars: Vec<char>)
    ensures
        chars@ == text@,
{
    let mut chars: Vec<char> = Vec::new();
    for c in iter: text.chars()
        invariant
            chars@ == iter.seq().take(iter.index()),
            iter.seq() == text@,
    {
        chars.push(c);
    }
    chars
}

/// The characters from `start` up to `end`, as a string.
pub fn string_of(chars: &[char], start: usize, end: usize) -> (text: String)
    requires
        start <= end <= chars@.len(),
    ensures
        text@ == chars@.subrange(start as int, end as int),
{
    let mut text = String::new();
    let mut at: usize = start;
    while at < end
        invariant
            start <= at <= end <= chars@.len(),
            text@ == chars@.subrange(start as int, at as int),
        decreases end - at,
    {
        text.push(chars[at]);
        at += 1;
    }
    text
}

/// Whether two strings hold the same characters.
pub fn same(a: &str, b: &str) -> (equal: bool)
    ensures
        equal == (a@ == b@),
{
    a.to_owned() == b.to_owned()
}

/// Two strings, one after the other.
pub fn joined(a: &str, b: &str) -> (text: String)
    ensures
        text@ == a@ + b@,
{
    let mut text = a.to_owned();
    text.append(b);
    text
}

/// Three strings, one after the other.
pub fn joined3(a: &str, b: &str, c: &str) -> (text: String)
    ensures
        text@ == a@ + b@ + c@,
{
    let mut text = joined(a, b);
    text.append(c);
    text
}

// --- white space -------------------------------------------------------------

/// The characters with Unicode's `White_Space` property.
pub open spec fn white_space(c: char) -> bool {
    let n = c as u32;
    ||| 0x9 <= n <= 0xd
    ||| n == 0x20
    ||| n == 0x85
    ||| n == 0xa0
    ||| n == 0x1680
    ||| 0x2000 <= n <= 0x200a
    ||| n == 0x2028
    ||| n == 0x2029
    ||| n == 0x202f
    ||| n == 0x205f
    ||| n == 0x3000
}

/// Whether a character is white space.
pub fn is_whitespace(c: char) -> (white: bool)
    ensures
        white == white_space(c),
{
    let n: u32 = c as u32;
    (0x9 <= n && n <= 0xd) || n == 0x20 || n == 0x85 || n == 0xa0 || n == 0x1680 || (0x2000 <= n
        && n <= 0x200a) || n == 0x2028 || n == 0x2029 || n == 0x202f || n == 0x205f || n == 0x3000
}

/// What is left of a sequence once the white space at its start is gone.
pub open spec fn trim_start(s: Seq<char>) -> Seq<char>
    decreases s.len(),
{
    if s.len() > 0 && white_space(s[0]) {
        trim_start(s.skip(1))
    } else {
        s
    }
}

/// What is left of a sequence once the white space at its end is gone.
pub open spec fn trim_end(s: Seq<char>) -> Seq<char>
    decreases s.len(),
{
    if s.len() > 0 && white_space(s.last()) {
        trim_end(s.drop_last())
    } else {
        s
    }
}

/// A sequence without the white space around it.
pub open spec fn trimmed(s: Seq<char>) -> Seq<char> {
    trim_end(trim_start(s))
}

/// A string without the white space around it.
pub fn trim(text: &str) -> (inner: &str)
    ensures
        inner@ == trimmed(text@),
{
    let chars = characters(text);
    let mut start: usize = 0;
    assert(text@.skip(0) =~= text@);
    while start < chars.len() && is_whitespace(chars[start])
        invariant
            chars@ == text@,
            start <= chars@.len(),
            trim_start(text@) == trim_start(text@.skip(start as int)),
        decreases chars@.len() - start,
    {
        start += 1;
        assert(text@.skip(start - 1).skip(1) =~= text@.skip(start as int));
    }
    let ghost rest = text@.skip(start as int);
    let mut end: usize = chars.len();
    assert(rest.take(end - start) =~= rest);
    while end > start && is_whitespace(chars[end - 1])
        invariant
            chars@ == text@,
            start <= end <= chars@.len(),
            rest == text@.skip(start as int),
            trim_end(rest) == trim_end(rest.take(end - start)),
        decreases end,
    {
        assert(rest.take(end - start).drop_last() =~= rest.take(end - start - 1));
        end -= 1;
    }
    assert(rest.take(end - start) =~= text@.subrange(start as int, end as int));
    text.substring_char(start, end)
}

/// Whether there is nothing in a sequence but white space.
pub open spec fn blank(s: Seq<char>) -> bool {
    forall|i: int| 0 <= i < s.len() ==> white_space(#[trigger] s[i])
}

proof fn trim_start_of_blank(s: Seq<char>)
    ensures
        blank(s) <==> trim_start(s).len() == 0,
    decreases s.len(),
{
    if s.len() > 0 && white_space(s[0]) {
        let rest = s.skip(1);
        trim_start_of_blank(rest);
        assert(forall|i: int| 0 <= i < rest.len() ==> rest[i] == s[i + 1]);
        assert(forall|i: int| 0 < i < s.len() ==> s[i] == rest[i - 1]);
    }
}

proof fn trim_end_keeps_a_first(s: Seq<char>)
    requires
        s.len() > 0,
        !white_space(s[0]),
    ensures
        trim_end(s).len() > 0,
    decreases s.len(),
{
    if white_space(s.last()) {
        assert(s.drop_last()[0] == s[0]);
        trim_end_keeps_a_first(s.drop_last());
    }
}

proof fn trim_start_starts_with_text(s: Seq<char>)
    ensures
        trim_start(s).len() > 0 ==> !white_space(trim_start(s)[0]),
    decreases s.len(),
{
    if s.len() > 0 && white_space(s[0]) {
        trim_start_starts_with_text(s.skip(1));
    }
}

/// Trimming leaves nothing of a text exactly when there was nothing but white
/// space in it.
pub proof fn only_blank_text_trims_to_nothing(s: Seq<char>)
    ensures
        trimmed(s).len() == 0 <==> blank(s),
{
    trim_start_of_blank(s);
    trim_start_starts_with_text(s);
    if trim_start(s).len() > 0 {
        trim_end_keeps_a_first(trim_start(s));
    }
}

/// Whether there is nothing in a string but white space.
pub fn is_blank(text: &str) -> (nothing: bool)
    ensures
        nothing == blank(text@),
{
    proof {
        only_blank_text_trims_to_nothing(text@);
    }
    trim(text).is_empty()
}

// --- looking inside ----------------------------------------------------------

/// Whether a sequence holds another, at a given position.
pub open spec fn holds_at(s: Seq<char>, part: Seq<char>, at: int) -> bool {
    0 <= at && at + part.len() <= s.len() && s.subrange(at, at + part.len()) == part
}

fn chars_hold_at(chars: &[char], part: &[char], at: usize) -> (held: bool)
    requires
        at <= chars@.len(),
    ensures
        held == holds_at(chars@, part@, at as int),
{
    let count: usize = part.len();
    let total: usize = chars.len();
    if count > total - at {
        return false;
    }
    let mut i: usize = 0;
    while i < count
        invariant
            count == part@.len(),
            total == chars@.len(),
            at + count <= total,
            i <= count,
            forall|k: int| 0 <= k < i ==> chars@[at + k] == part@[k],
        decreases count - i,
    {
        if chars[at + i] != part[i] {
            assert(chars@.subrange(at as int, at + count)[i as int] != part@[i as int]);
            return false;
        }
        i += 1;
    }
    assert(chars@.subrange(at as int, at + count) =~= part@);
    true
}

/// Whether a string starts with another.
pub fn starts_with(text: &str, part: &str) -> (yes: bool)
    ensures
        yes == part@.is_prefix_of(text@),
{
    let chars = characters(text);
    let wanted = characters(part);
    let yes = chars_hold_at(chars.as_slice(), wanted.as_slice(), 0);
    proof {
        if part@.len() <= text@.len() {
            assert(text@.subrange(0, part@.len() as int) =~= text@.take(part@.len() as int));
        }
    }
    yes
}

/// Whether a string holds another.
pub fn contains(text: &str, part: &str) -> (yes: bool)
    ensures
        yes == exists|at: int| holds_at(text@, part@, at),
{
    let chars = characters(text);
    let wanted = characters(part);
    let count: usize = chars.len();
    let mut at: usize = 0;
    while at < count
        invariant
            chars@ == text@,
            wanted@ == part@,
            count == chars@.len(),
            at <= count,
            forall|i: int| 0 <= i < at ==> !holds_at(text@, part@, i),
        decreases count - at,
    {
        if chars_hold_at(chars.as_slice(), wanted.as_slice(), at) {
            return true;
        }
        at += 1;
    }
    chars_hold_at(chars.as_slice(), wanted.as_slice(), at)
}

/// Of the characters of ASCII, white space is the space itself, the tab, and what
/// ends a line or a page.
pub proof fn white_space_of_ascii(c: char)
    requires
        (c as u32) < 0x80,
    ensures
        white_space(c) <==> c == ' ' || c == '\t' || c == '\n' || c == '\r' || c == '\u{b}' || c
            == '\u{c}',
{
}

proof fn trim_start_splits(s: Seq<char>)
    ensures
        trim_start(s).len() <= s.len(),
        s == s.take(s.len() - trim_start(s).len()) + trim_start(s),
        blank(s.take(s.len() - trim_start(s).len())),
    decreases s.len(),
{
    if s.len() > 0 && white_space(s[0]) {
        let rest = s.skip(1);
        trim_start_splits(rest);
        let lead = s.take(s.len() - trim_start(s).len());
        let less = rest.take(rest.len() - trim_start(rest).len());
        assert(lead =~= seq![s[0]] + less);
        assert forall|i: int| 0 <= i < lead.len() implies white_space(#[trigger] lead[i]) by {
            if i > 0 {
                assert(lead[i] == less[i - 1]);
            }
        }
        assert(s =~= seq![s[0]] + (less + trim_start(rest)));
    }
    assert(s =~= s.take(s.len() - trim_start(s).len()) + trim_start(s));
}

proof fn trim_end_splits(s: Seq<char>)
    ensures
        trim_end(s).len() <= s.len(),
        s == trim_end(s) + s.skip(trim_end(s).len() as int),
        blank(s.skip(trim_end(s).len() as int)),
        trim_end(s).len() > 0 ==> !white_space(trim_end(s).last()) && trim_end(s)[0] == s[0],
    decreases s.len(),
{
    if s.len() > 0 && white_space(s.last()) {
        let front = s.drop_last();
        trim_end_splits(front);
        let tail = s.skip(trim_end(s).len() as int);
        let less = front.skip(trim_end(front).len() as int);
        assert(tail =~= less.push(s.last()));
        assert forall|i: int| 0 <= i < tail.len() implies white_space(#[trigger] tail[i]) by {
            if i < less.len() {
                assert(tail[i] == less[i]);
            }
        }
        assert(s =~= front.push(s.last()));
    }
    assert(s =~= trim_end(s) + s.skip(trim_end(s).len() as int));
}

/// Trimming takes the white space at both ends and nothing else: what is left stands
/// in the text as it is, between two stretches of white space, and neither starts nor
/// ends with any.
pub proof fn trimming_takes_only_white_space(s: Seq<char>)
    ensures
        exists|lead: Seq<char>, rest: Seq<char>|
            s == #[trigger] (lead + trimmed(s) + rest) && blank(lead) && blank(rest),
        trimmed(s).len() > 0 ==> !white_space(trimmed(s)[0]) && !white_space(trimmed(s).last()),
{
    trim_start_splits(s);
    trim_start_starts_with_text(s);
    let inner = trim_start(s);
    trim_end_splits(inner);
    let lead = s.take(s.len() - inner.len());
    let rest = inner.skip(trimmed(s).len() as int);
    assert(s =~= lead + trimmed(s) + rest);
}

/// A text with no white space at its ends is left as it is; and there is only one way
/// to trim a text.
pub proof fn trimming_is_settled(s: Seq<char>, lead: Seq<char>, inner: Seq<char>, rest: Seq<char>)
    requires
        s == lead + inner + rest,
        blank(lead),
        blank(rest),
        inner.len() > 0 ==> !white_space(inner[0]) && !white_space(inner.last()),
        inner.len() == 0 ==> rest.len() == 0,
    ensures
        trimmed(s) == inner,
{
    trimming_takes_only_white_space(s);
    only_blank_text_trims_to_nothing(s);
    let (a, b): (Seq<char>, Seq<char>) = choose|a: Seq<char>, b: Seq<char>|
        s == #[trigger] (a + trimmed(s) + b) && blank(a) && blank(b);
    let found = trimmed(s);
    if inner.len() == 0 {
        assert forall|i: int| 0 <= i < s.len() implies white_space(#[trigger] s[i]) by {
            assert(s[i] == lead[i]);
        }
        assert(found =~= inner);
    } else {
        assert(s[lead.len() as int] == inner[0]);
        assert(found.len() > 0) by {
            if found.len() == 0 {
                assert(white_space(s[lead.len() as int]));
            }
        }
        assert(s[a.len() as int] == found[0]);
        if a.len() > lead.len() {
            assert(s[lead.len() as int] == a[lead.len() as int]);
        }
        if lead.len() > a.len() {
            assert(s[a.len() as int] == lead[a.len() as int]);
        }
        assert(a.len() == lead.len());
        let p = lead.len() + inner.len() - 1;
        let q = a.len() + found.len() - 1;
        assert(s[p] == inner.last());
        assert(s[q] == found.last());
        if p > q {
            assert(s[p] == b[p - q - 1]);
        }
        if q > p {
            assert(s[q] == rest[q - p - 1]);
        }
        assert(found =~= s.subrange(a.len() as int, q + 1));
        assert(inner =~= s.subrange(lead.len() as int, p + 1));
    }
}

/// A text holds a part where the part can be read in it, from there on, and nowhere else.
pub proof fn a_part_is_held_where_it_is(before: Seq<char>, part: Seq<char>, after: Seq<char>, at: int)
    ensures
        holds_at(before + part + after, part, before.len() as int),
        holds_at(before, part, at) <==> 0 <= at <= before.len() - part.len() && before.subrange(
            at,
            at + part.len(),
        ) == part,
{
    let s = before + part + after;
    assert(s.subrange(before.len() as int, before.len() as int + part.len()) =~= part);
    assert(holds_at(s, part, before.len() as int));
    if holds_at(before, part, at) {
        assert(before.subrange(at, at + part.len()) =~= part);
    }
}

} // verus!
