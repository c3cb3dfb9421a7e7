//! The lower case of localisation keys. Keys are short and nearly always ASCII, so
//! they are folded in a buffer that needs no allocation.

use smallvec::SmallVec;
use vstd::prelude::*;
use vstd::string::*;
use vstd::utf8::*;

use crate::text::{ascii_lower, lowercase, to_lowercase};

verus! {

/// A `smallvec::SmallVec` of bytes. Nothing is claimed of it but what the functions
/// below say.
#[verifier::external_body]
pub struct KeyBuffer {
    bytes: SmallVec<[u8; 64]>,
}

/// The bytes that the buffer holds.
pub uninterp spec fn buffer_bytes(b: KeyBuffer) -> Seq<u8>;

/// Nothing.
pub open spec fn no_bytes() -> Seq<u8> {
    Seq::empty()
}

/// `SmallVec::new`: the new buffer is empty.
#[verifier::external_body]
fn buffer_new() -> (b: KeyBuffer)
    ensures
        buffer_bytes(b) == no_bytes(),
{
    KeyBuffer { bytes: SmallVec::new() }
}

/// `SmallVec::extend_from_slice`, on an empty buffer: it then holds the bytes given.
#[verifier::external_body]
fn buffer_extend(b: &mut KeyBuffer, bytes: &[u8])
    requires
        buffer_bytes(*old(b)) == no_bytes(),
    ensures
        buffer_bytes(*final(b)) == bytes@,
{
    b.bytes.extend_from_slice(bytes)
}

/// The lower case of an ASCII letter, and any other byte itself.
pub open spec fn lower_byte(b: u8) -> u8 {
    if 65 <= b <= 90 {
        (b + 32) as u8
    } else {
        b
    }
}

/// Each byte in lower case.
pub open spec fn lower_bytes(s: Seq<u8>) -> Seq<u8> {
    Seq::new(s.len(), |i: int| lower_byte(s[i]))
}

/// `<[u8]>::make_ascii_lowercase`, on the slice that a `SmallVec` is: each ASCII
/// letter is now in lower case, and every other byte is as it was.
#[verifier::external_body]
fn buffer_lower(b: &mut KeyBuffer)
    ensures
        buffer_bytes(*final(b)) == lower_bytes(buffer_bytes(*old(b))),
{
    b.bytes.make_ascii_lowercase()
}

/// `str::from_utf8`, on the slice that a `SmallVec` is: the text whose UTF-8 the bytes
/// are, if they are the UTF-8 of one.
#[verifier::external_body]
fn buffer_text<'a>(b: &'a KeyBuffer) -> (r: Option<&'a str>)
    ensures
        match r {
            Some(s) => encode_utf8(s@) == buffer_bytes(*b),
            None => !valid_utf8(buffer_bytes(*b)),
        },
{
    std::str::from_utf8(&b.bytes).ok()
}

/// A localisation key in lower case.
pub open spec fn folded(key: Seq<char>) -> Seq<char> {
    if is_ascii_chars(key) {
        ascii_lower(key)
    } else {
        lowercase(key)
    }
}

proof fn lemma_lower_bytes(key: Seq<char>)
    requires
        is_ascii_chars(key),
    ensures
        lower_bytes(encode_utf8(key)) == encode_utf8(ascii_lower(key)),
{
    let low = ascii_lower(key);
    is_ascii_chars_encode_utf8(key);
    assert forall|i: int| 0 <= i < low.len() implies '\0' <= #[trigger] low[i] <= '\u{7f}' by {
        assert('\0' <= key[i] <= '\u{7f}');
    }
    is_ascii_chars_encode_utf8(low);
    assert forall|i: int| 0 <= i < key.len() implies lower_bytes(encode_utf8(key))[i]
        == encode_utf8(low)[i] by {
        assert(key[i] as u8 == encode_utf8(key)[i]);
        assert(low[i] as u8 == encode_utf8(low)[i]);
    }
    assert(lower_bytes(encode_utf8(key)) =~= encode_utf8(low));
}

/// A localisation key in lower case. What is not ASCII has Unicode's lower case.
pub fn fold_key(key: &str) -> (r: String)
    ensures
        r@ == folded(key@),
{
    if !key.is_ascii() {
        return to_lowercase(key);
    }
    let mut b = buffer_new();
    buffer_extend(&mut b, key.as_bytes());
    buffer_lower(&mut b);
    proof {
        lemma_lower_bytes(key@);
        encode_utf8_valid_utf8(ascii_lower(key@));
        encode_utf8_decode_utf8(ascii_lower(key@));
    }
    match buffer_text(&b) {
        Some(s) => {
            proof {
                encode_utf8_decode_utf8(s@);
            }
            s.to_owned()
        },
        None => String::new(),
    }
}

} // verus!
