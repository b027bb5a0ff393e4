//! Paths, as the bytes the system names files by.
//!
//! A path need not be text: a home directory can be named with any bytes at all,
//! and those have to reach the system unchanged.
use vstd::prelude::*;
use vstd::utf8::{encode_utf8, valid_utf8};

verus! {

/// What separates the parts of a path.
pub const SEPARATOR: u8 = 0x2f;

/// A path with another put after it. One that starts at the root replaces what it
/// was put after.
pub open spec fn put_after(base: Seq<u8>, part: Seq<u8>) -> Seq<u8> {
    if part.len() > 0 && part[0] == SEPARATOR {
        part
    } else if base.len() > 0 && base.last() != SEPARATOR {
        base.push(SEPARATOR) + part
    } else {
        base + part
    }
}

/// As [`put_after`], for a part that is text.
pub open spec fn below(base: Seq<u8>, part: Seq<char>) -> Seq<u8> {
    put_after(base, encode_utf8(part))
}

fn push_bytes(path: &mut Vec<u8>, part: &[u8])
    ensures
        final(path)@ == old(path)@ + part@,
{
    let count: usize = part.len();
    let mut at: usize = 0;
    while at < count
        invariant
            count == part@.len(),
            at <= count,
            path@ == old(path)@ + part@.take(at as int),
        decreases count - at,
    {
        path.push(part[at]);
        at += 1;
        assert(part@.take(at as int) =~= part@.take(at - 1).push(part@[at - 1]));
    }
    assert(part@.take(count as int) =~= part@);
}

/// A path with another put after it.
pub fn join(base: &[u8], part: &str) -> (path: Vec<u8>)
    ensures
        path@ == below(base@, part@),
{
    let part = part.as_bytes();
    let mut path: Vec<u8> = Vec::new();
    if part.len() > 0 && part[0] == SEPARATOR {
        push_bytes(&mut path, part);
    } else {
        push_bytes(&mut path, base);
        if base.len() > 0 && base[base.len() - 1] != SEPARATOR {
            path.push(SEPARATOR);
        }
        push_bytes(&mut path, part);
    }
    path
}

/// `String::from_utf8` gives the text whose encoding the bytes are, and an error
/// for bytes that are not the encoding of any.
#[verifier::external_body]
fn string_from_utf8(bytes: Vec<u8>) -> (text: Option<String>)
    ensures
        match text {
            Some(text) => encode_utf8(text@) == bytes@,
            None => !valid_utf8(bytes@),
        },
{
    match String::from_utf8(bytes) {
        Ok(text) => Some(text),
        Err(_) => None,
    }
}

/// A path, or any bytes, as text, if they are text.
pub fn as_text(bytes: Vec<u8>) -> (text: Option<String>)
    ensures
        text is Some <==> valid_utf8(bytes@),
        text matches Some(text) ==> encode_utf8(text@) == bytes@,
{
    let text = string_from_utf8(bytes);
    proof {
        if text is Some {
            vstd::utf8::encode_utf8_valid_utf8(text->0@);
        }
    }
    text
}

/// A part that does not start at the root goes below the base: the base in front as it
/// is, the part behind as it is, and one separator between them, which is the base's
/// own where it ends in one. With no base there is nothing in front.
pub proof fn a_part_goes_below_its_base(base: Seq<u8>, part: Seq<char>)
    requires
        encode_utf8(part).len() > 0 ==> encode_utf8(part)[0] != 0x2f,
    ensures
        base.is_prefix_of(below(base, part)),
        encode_utf8(part).is_suffix_of(below(base, part)),
        base.len() == 0 ==> below(base, part) == encode_utf8(part),
        base.len() > 0 && base.last() == 0x2f ==> below(base, part) == base + encode_utf8(part),
        base.len() > 0 && base.last() != 0x2f ==> {
            &&& below(base, part).len() == base.len() + 1 + encode_utf8(part).len()
            &&& below(base, part)[base.len() as int] == 0x2f
        },
{
    let path = below(base, part);
    assert(path.take(base.len() as int) =~= base);
    assert(path.skip(path.len() - encode_utf8(part).len()) =~= encode_utf8(part));
    if base.len() == 0 {
        assert(path =~= encode_utf8(part));
    }
}

/// A part that starts at the root stands by itself.
pub proof fn a_root_stands_by_itself(base: Seq<u8>, part: Seq<char>)
    requires
        encode_utf8(part).len() > 0,
        encode_utf8(part)[0] == 0x2f,
    ensures
        below(base, part) == encode_utf8(part),
{
}

} // verus!
