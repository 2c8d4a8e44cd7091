//! UTF-8: validity and decoding of bytes, and byte offsets into text.

use vstd::prelude::*;
use vstd::utf8::{
    decode_utf8, decode_utf8_encode_utf8, decode_utf8_first_scalar, encode_utf8,
    encode_utf8_decode_utf8, encode_utf8_first_scalar, encode_utf8_valid_utf8,
    length_of_first_scalar, pop_first_scalar, take_first_scalar, valid_first_scalar, valid_utf8,
    valid_utf8_concat,
};

use crate::text::chars_of;

verus! {

/// The bytes are the start of one character's encoding, but not all of it.
pub open spec fn partial_char(bytes: Seq<u8>) -> bool {
    exists|c: char| #[trigger] is_cut_of(bytes, c)
}

/// The bytes are a non-empty proper prefix of the character's encoding.
pub open spec fn is_cut_of(bytes: Seq<u8>, c: char) -> bool {
    let full = encode_utf8(seq![c]);
    0 < bytes.len() < full.len() && bytes == full.take(bytes.len() as int)
}

/// The bytes up to `at` are whole characters, and those after it the start of
/// one more.
pub open spec fn ends_in_partial_char(bytes: Seq<u8>, at: int) -> bool {
    0 <= at < bytes.len() && valid_utf8(bytes.take(at)) && partial_char(bytes.skip(at))
}

/// Where bytes stop being UTF-8.
pub struct Utf8Failure {
    /// The length of the longest prefix that is UTF-8.
    pub valid_up_to: usize,
    /// Whether the rest is the start of a character that breaks off.
    pub incomplete: bool,
}

/// `std::str::from_utf8` accepts exactly the UTF-8 encodings and gives their
/// text. Its error holds the largest index up to which the bytes are UTF-8,
/// and has no error length exactly when the input ended inside a character.
#[verifier::external_body]
pub(crate) fn utf8_text(bytes: &[u8]) -> (r: Result<String, Utf8Failure>)
    ensures
        match r {
            Ok(s) => valid_utf8(bytes@) && s@ == decode_utf8(bytes@),
            Err(e) => {
                &&& !valid_utf8(bytes@)
                &&& e.valid_up_to < bytes@.len()
                &&& valid_utf8(bytes@.take(e.valid_up_to as int))
                &&& forall|k: int|
                    e.valid_up_to < k <= bytes@.len() ==> !valid_utf8(#[trigger] bytes@.take(k))
                &&& e.incomplete == partial_char(bytes@.skip(e.valid_up_to as int))
            },
        },
{
    match std::str::from_utf8(bytes) {
        Ok(text) => Ok(text.to_string()),
        Err(error) => Err(
            Utf8Failure {
                valid_up_to: error.valid_up_to(),
                incomplete: error.error_len().is_none(),
            },
        ),
    }
}

/// The text that `String::from_utf8_lossy` makes of bytes.
pub uninterp spec fn lossy_utf8(bytes: Seq<u8>) -> Seq<char>;

/// `String::from_utf8_lossy` gives the text of bytes that are UTF-8, and
/// otherwise puts replacement characters in place of what is not.
#[verifier::external_body]
pub(crate) fn lossy_text(bytes: &[u8]) -> (r: String)
    ensures
        r@ == lossy_utf8(bytes@),
        valid_utf8(bytes@) ==> r@ == decode_utf8(bytes@),
{
    String::from_utf8_lossy(bytes).into_owned()
}

/// The number of bytes that the text takes.
pub open spec fn byte_len(s: Seq<char>) -> nat {
    encode_utf8(s).len()
}

/// The byte offset at which the character with the given index starts.
pub open spec fn offset_of(s: Seq<char>, index: int) -> nat {
    byte_len(s.take(index))
}

/// The index of the character that holds the byte offset, or at whose start
/// it lies; the number of characters where the offset is past the end.
pub open spec fn index_at(s: Seq<char>, offset: int) -> nat
    decreases s.len(),
{
    if s.len() == 0 || offset < byte_len(seq![s[0]]) {
        0
    } else {
        1 + index_at(s.drop_first(), offset - byte_len(seq![s[0]]))
    }
}

pub proof fn lemma_encode_append(a: Seq<char>, b: Seq<char>)
    ensures
        encode_utf8(a + b) == encode_utf8(a) + encode_utf8(b),
    decreases a.len(),
{
    if a.len() == 0 {
        assert(a + b =~= b);
        assert(encode_utf8(a) + encode_utf8(b) =~= encode_utf8(b));
    } else {
        lemma_encode_append(a.drop_first(), b);
        assert((a + b).drop_first() =~= a.drop_first() + b);
        assert(encode_utf8(a + b) =~= encode_utf8(a) + encode_utf8(b));
    }
}

pub proof fn lemma_char_width(c: char)
    ensures
        1 <= byte_len(seq![c]) <= 4,
        encode_utf8(seq![c]) == vstd::utf8::encode_scalar(c as u32),
{
    assert(seq![c].drop_first() =~= Seq::<char>::empty());
    assert(encode_utf8(seq![c].drop_first()) =~= Seq::<u8>::empty());
    assert(encode_utf8(seq![c]) =~= vstd::utf8::encode_scalar(c as u32));
}

pub proof fn lemma_offset_step(s: Seq<char>, index: int)
    requires
        0 <= index < s.len(),
    ensures
        offset_of(s, index + 1) == offset_of(s, index) + byte_len(seq![s[index]]),
{
    assert(s.take(index + 1) =~= s.take(index) + seq![s[index]]);
    lemma_encode_append(s.take(index), seq![s[index]]);
}

pub proof fn lemma_offset_monotone(s: Seq<char>, i: int, j: int)
    requires
        0 <= i <= j <= s.len(),
    ensures
        offset_of(s, i) + (j - i) <= offset_of(s, j),
    decreases j - i,
{
    if i < j {
        lemma_offset_monotone(s, i, j - 1);
        lemma_offset_step(s, j - 1);
        lemma_char_width(s[j - 1]);
    }
}

pub proof fn lemma_offset_total(s: Seq<char>)
    ensures
        offset_of(s, s.len() as int) == byte_len(s),
        offset_of(s, 0) == 0,
{
    assert(s.take(s.len() as int) =~= s);
    assert(s.take(0).len() == 0);
}

/// The byte offset of a character of the tail is that of the same character
/// of the whole, less the width of the first.
proof fn lemma_offset_tail(s: Seq<char>, index: int)
    requires
        0 < index <= s.len(),
    ensures
        offset_of(s, index) == byte_len(seq![s[0]]) + offset_of(s.drop_first(), index - 1),
{
    assert(s.take(index) =~= seq![s[0]] + s.drop_first().take(index - 1));
    lemma_encode_append(seq![s[0]], s.drop_first().take(index - 1));
}

/// `index_at` is the last character boundary that does not lie past the
/// offset.
pub proof fn lemma_index_at(s: Seq<char>, offset: int)
    requires
        0 <= offset,
    ensures
        index_at(s, offset) <= s.len(),
        offset_of(s, index_at(s, offset) as int) <= offset,
        index_at(s, offset) < s.len() ==> offset < offset_of(s, index_at(s, offset) as int + 1),
    decreases s.len(),
{
    lemma_offset_total(s);
    if s.len() > 0 {
        lemma_char_width(s[0]);
        lemma_offset_step(s, 0);
        if offset >= byte_len(seq![s[0]]) {
            let rest = offset - byte_len(seq![s[0]]);
            lemma_index_at(s.drop_first(), rest);
            let k = index_at(s.drop_first(), rest) as int;
            lemma_offset_tail(s, k + 1);
            if k < s.drop_first().len() {
                lemma_offset_tail(s, k + 2);
            }
        }
    }
}

/// A character boundary stands at its own index.
pub proof fn lemma_index_of_offset(s: Seq<char>, index: int)
    requires
        0 <= index <= s.len(),
    ensures
        index_at(s, offset_of(s, index) as int) == index,
{
    let k = index_at(s, offset_of(s, index) as int) as int;
    lemma_index_at(s, offset_of(s, index) as int);
    if k < index {
        lemma_offset_monotone(s, k + 1, index);
    } else if k > index {
        lemma_offset_monotone(s, index, k);
    }
}

/// The number of bytes of a text.
pub fn byte_count(s: &str) -> (r: usize)
    ensures
        r == byte_len(s@),
{
    s.as_bytes().len()
}

/// The index of the character at the byte offset, and the byte offset at
/// which that character starts.
pub fn locate(s: &str, offset: usize) -> (r: (usize, usize))
    ensures
        r.0 == index_at(s@, offset as int),
        r.1 == offset_of(s@, r.0 as int),
        r.0 <= s@.len(),
        r.1 <= offset,
        r.1 <= byte_len(s@),
{
    let chars = chars_of(s);
    let total = byte_count(s);
    let mut i: usize = 0;
    let mut at: usize = 0;
    proof {
        lemma_offset_total(s@);
    }
    while i < chars.len()
        invariant
            i <= chars.len(),
            chars@ == s@,
            total == byte_len(s@),
            at == offset_of(s@, i as int),
            at <= offset,
            at <= total,
        decreases chars.len() - i,
    {
        let width = chars[i].len_utf8();
        proof {
            lemma_offset_step(s@, i as int);
            lemma_offset_monotone(s@, i + 1, s@.len() as int);
            lemma_offset_total(s@);
        }
        if at + width > offset {
            proof {
                lemma_index_at(s@, offset as int);
                let k = index_at(s@, offset as int) as int;
                if k < i {
                    lemma_offset_monotone(s@, k + 1, i as int);
                } else if k > i {
                    lemma_offset_monotone(s@, i + 1, k);
                }
            }
            return (i, at);
        }
        at = at + width;
        i = i + 1;
    }
    proof {
        lemma_index_at(s@, offset as int);
        let k = index_at(s@, offset as int) as int;
        if k < i {
            lemma_offset_monotone(s@, k + 1, i as int);
        }
    }
    (i, at)
}

/// Decoding two stretches of whole characters one after the other gives the
/// text of both together.
pub proof fn decoding_appends(a: Seq<u8>, b: Seq<u8>)
    requires
        valid_utf8(a),
        valid_utf8(b),
    ensures
        valid_utf8(a + b),
        decode_utf8(a + b) == decode_utf8(a) + decode_utf8(b),
{
    valid_utf8_concat(a, b);
    decode_utf8_encode_utf8(a);
    decode_utf8_encode_utf8(b);
    lemma_encode_append(decode_utf8(a), decode_utf8(b));
    encode_utf8_decode_utf8(decode_utf8(a) + decode_utf8(b));
}

/// A text's bytes decode to the text.
pub proof fn encoding_decodes(s: Seq<char>)
    ensures
        valid_utf8(encode_utf8(s)),
        decode_utf8(encode_utf8(s)) == s,
{
    encode_utf8_valid_utf8(s);
    encode_utf8_decode_utf8(s);
}

proof fn lemma_first_char(bytes: Seq<u8>) -> (c: char)
    requires
        valid_utf8(bytes),
        bytes.len() > 0,
    ensures
        encode_utf8(seq![c]) == take_first_scalar(bytes),
        length_of_first_scalar(bytes) == byte_len(seq![c]),
        length_of_first_scalar(bytes) <= bytes.len(),
        bytes == encode_utf8(seq![c]) + pop_first_scalar(bytes),
        valid_utf8(pop_first_scalar(bytes)),
{
    let c = vstd::utf8::decode_first_scalar(bytes) as char;
    decode_utf8_first_scalar(bytes);
    lemma_char_width(c);
    assert(bytes =~= take_first_scalar(bytes) + pop_first_scalar(bytes));
    c
}

/// No non-empty prefix of a broken-off character is UTF-8.
proof fn lemma_cut_not_valid(bytes: Seq<u8>, c: char, k: int)
    requires
        is_cut_of(bytes, c),
        0 < k <= bytes.len(),
    ensures
        !valid_utf8(bytes.take(k)),
{
    let full = encode_utf8(seq![c]);
    encode_utf8_first_scalar(seq![c]);
    lemma_char_width(c);
    encode_utf8_valid_utf8(seq![c]);
    let head = bytes.take(k);
    assert(head[0] == full[0]);
    assert(length_of_first_scalar(full) == full.len());
    if valid_utf8(head) {
        assert(valid_first_scalar(head));
        assert(length_of_first_scalar(head) == length_of_first_scalar(full));
        assert(length_of_first_scalar(head) <= head.len());
    }
}

/// Bytes that some continuation makes UTF-8 are whole characters, then
/// nothing or the start of one more; no longer prefix of them is UTF-8.
pub proof fn lemma_split_of_prefix(bytes: Seq<u8>, rest: Seq<u8>) -> (at: int)
    requires
        valid_utf8(bytes + rest),
    ensures
        0 <= at <= bytes.len(),
        valid_utf8(bytes.take(at)),
        at == bytes.len() || ends_in_partial_char(bytes, at),
        forall|k: int| at < k <= bytes.len() ==> !valid_utf8(#[trigger] bytes.take(k)),
    decreases bytes.len(),
{
    if bytes.len() == 0 {
        assert(bytes.take(0) =~= bytes);
        0
    } else {
        let whole = bytes + rest;
        let c = lemma_first_char(whole);
        let full = encode_utf8(seq![c]);
        let n = full.len() as int;
        lemma_char_width(c);
        if bytes.len() < n {
            assert(bytes =~= full.take(bytes.len() as int));
            assert(is_cut_of(bytes, c));
            assert(bytes.take(0) =~= Seq::<u8>::empty());
            assert(bytes.skip(0) =~= bytes);
            assert forall|k: int| 0 < k <= bytes.len() implies !valid_utf8(#[trigger] bytes.take(k)) by {
                lemma_cut_not_valid(bytes, c, k);
            }
            0
        } else {
            let tail = bytes.skip(n);
            assert(pop_first_scalar(whole) =~= tail + rest);
            let at = lemma_split_of_prefix(tail, rest);
            assert(bytes =~= full + tail);
            encode_utf8_valid_utf8(seq![c]);
            assert(bytes.take(n + at) =~= full + tail.take(at));
            valid_utf8_concat(full, tail.take(at));
            assert(bytes.skip(n + at) =~= tail.skip(at));
            assert forall|k: int| n + at < k <= bytes.len() implies !valid_utf8(
                #[trigger] bytes.take(k),
            ) by {
                let head = bytes.take(k);
                if valid_utf8(head) {
                    encode_utf8_first_scalar(seq![c]);
                    assert(head[0] == full[0]);
                    assert(length_of_first_scalar(head) == n);
                    assert(pop_first_scalar(head) =~= tail.take(k - n));
                }
            }
            n + at
        }
    }
}

/// A broken-off character does not make UTF-8, with whole characters before
/// it, and there is one place only at which it can start.
pub proof fn lemma_partial_is_unique(bytes: Seq<u8>, at: int)
    requires
        ends_in_partial_char(bytes, at),
    ensures
        !valid_utf8(bytes),
        forall|k: int| at < k <= bytes.len() ==> !valid_utf8(#[trigger] bytes.take(k)),
        forall|other: int| #[trigger] ends_in_partial_char(bytes, other) ==> other == at,
{
    let c = choose|c: char| is_cut_of(bytes.skip(at), c);
    let full = encode_utf8(seq![c]);
    let cut = bytes.skip(at);
    let rest = full.skip(cut.len() as int);
    assert(cut + rest =~= full);
    encode_utf8_valid_utf8(seq![c]);
    valid_utf8_concat(bytes.take(at), full);
    assert(bytes + rest =~= bytes.take(at) + full);
    let found = lemma_split_of_prefix(bytes, rest);
    assert(at <= found);
    if found != at {
        lemma_tail_after_prefix(bytes, at, found);
        assert(bytes.skip(at).take(found - at) =~= bytes.take(found).skip(at));
        lemma_cut_not_valid(cut, c, found - at);
    }
    assert(bytes.take(bytes.len() as int) =~= bytes);
    assert forall|other: int| #[trigger] ends_in_partial_char(bytes, other) implies other == at by {
        if other < at {
            let d = choose|d: char| is_cut_of(bytes.skip(other), d);
            lemma_tail_after_prefix(bytes, other, at);
            assert(bytes.skip(other).take(at - other) =~= bytes.take(at).skip(other));
            lemma_cut_not_valid(bytes.skip(other), d, at - other);
        }
    }
}

/// What two UTF-8 prefixes of the same bytes differ by is UTF-8 too.
proof fn lemma_tail_after_prefix(bytes: Seq<u8>, i: int, j: int)
    requires
        0 <= i <= j <= bytes.len(),
        valid_utf8(bytes.take(i)),
        valid_utf8(bytes.take(j)),
    ensures
        valid_utf8(bytes.take(j).skip(i)),
    decreases i,
{
    if i == 0 {
        assert(bytes.take(j).skip(0) =~= bytes.take(j));
    } else {
        let a = bytes.take(i);
        let b = bytes.take(j);
        assert(a[0] == b[0]);
        let n = length_of_first_scalar(a);
        assert(n == length_of_first_scalar(b));
        let tail = bytes.skip(n);
        assert(pop_first_scalar(a) =~= tail.take(i - n));
        assert(pop_first_scalar(b) =~= tail.take(j - n));
        lemma_tail_after_prefix(tail, i - n, j - n);
        assert(tail.take(j - n).skip(i - n) =~= bytes.take(j).skip(i));
    }
}

/// The text of bytes. What is not UTF-8 becomes replacement characters.
pub open spec fn readable(bytes: Seq<u8>) -> Seq<char> {
    if valid_utf8(bytes) {
        decode_utf8(bytes)
    } else {
        lossy_utf8(bytes)
    }
}

/// The text of bytes.
pub fn readable_text(bytes: &[u8]) -> (r: String)
    ensures
        r@ == readable(bytes@),
{
    lossy_text(bytes)
}

} // verus!
