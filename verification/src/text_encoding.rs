//! Decoding of container console logs, which mix UTF-8, GBK, and GBK that
//! was read as Latin-1 and written out as UTF-8.

use vstd::prelude::*;
use vstd::utf8::{decode_utf8, valid_utf8};

use crate::encoding::{
    accept_decoding, decodable_len, decode_labelled, decoding_view, labelled_decoding, legacy_text,
};
use crate::text::chars_of;
use crate::utf8::{lossy_utf8, utf8_text};

verus! {

/// A character of the main block of Chinese ideographs.
pub open spec fn is_cjk(c: char) -> bool {
    '\u{4e00}' <= c <= '\u{9fff}'
}

/// A Latin-1 character that GBK text read as Latin-1 is full of.
pub open spec fn is_mojibake(c: char) -> bool {
    ||| c == 'Î'
    ||| c == 'ï'
    ||| c == 'Æ'
    ||| c == '·'
    ||| c == 'µ'
    ||| c == 'Ä'
    ||| c == '²'
    ||| c == 'Û'
    ||| c == 'Þ'
    ||| c == 'Ð'
    ||| c == '§'
    ||| c == '£'
    ||| c == '¬'
    ||| c == 'Õ'
    ||| c == 'û'
}

/// The number of Chinese ideographs in the text.
pub open spec fn cjk_count(s: Seq<char>) -> nat {
    s.filter(|c: char| is_cjk(c)).len()
}

/// The number of telltale Latin-1 characters in the text.
pub open spec fn mojibake_count(s: Seq<char>) -> nat {
    s.filter(|c: char| is_mojibake(c)).len()
}

/// Counts the Chinese ideographs of a text.
pub fn cjk_score(text: &str) -> (r: usize)
    ensures
        r == cjk_count(text@),
{
    let chars = chars_of(text);
    let mut count: usize = 0;
    let mut i: usize = 0;
    while i < chars.len()
        invariant
            i <= chars.len(),
            chars@ == text@,
            count <= i,
            count == cjk_count(text@.take(i as int)),
        decreases chars.len() - i,
    {
        let c = chars[i];
        proof {
            reveal(Seq::filter);
            assert(text@.take(i + 1).drop_last() =~= text@.take(i as int));
        }
        if '\u{4e00}' <= c && c <= '\u{9fff}' {
            count = count + 1;
        }
        i = i + 1;
    }
    assert(text@.take(i as int) =~= text@);
    count
}

/// Counts the telltale Latin-1 characters of a text.
pub fn mojibake_score(text: &str) -> (r: usize)
    ensures
        r == mojibake_count(text@),
{
    let chars = chars_of(text);
    let mut count: usize = 0;
    let mut i: usize = 0;
    while i < chars.len()
        invariant
            i <= chars.len(),
            chars@ == text@,
            count <= i,
            count == mojibake_count(text@.take(i as int)),
        decreases chars.len() - i,
    {
        let c = chars[i];
        proof {
            reveal(Seq::filter);
            assert(text@.take(i + 1).drop_last() =~= text@.take(i as int));
        }
        if c == 'Î' || c == 'ï' || c == 'Æ' || c == '·' || c == 'µ' || c == 'Ä' || c == '²' || c
            == 'Û' || c == 'Þ' || c == 'Ð' || c == '§' || c == '£' || c == '¬' || c == 'Õ' || c
            == 'û' {
            count = count + 1;
        }
        i = i + 1;
    }
    assert(text@.take(i as int) =~= text@);
    count
}

/// The text has Latin-1 characters alone.
pub open spec fn is_latin1(s: Seq<char>) -> bool {
    forall|i: int| 0 <= i < s.len() ==> s[i] <= '\u{ff}'
}

/// One byte for each character of a Latin-1 text.
pub open spec fn latin1_bytes(s: Seq<char>) -> Seq<u8> {
    s.map_values(|c: char| c as u8)
}

/// The bytes that a Latin-1 text was read from.
fn latin1_of(text: &str) -> (r: Option<Vec<u8>>)
    ensures
        match r {
            Some(bytes) => is_latin1(text@) && bytes@ == latin1_bytes(text@),
            None => !is_latin1(text@),
        },
{
    let chars = chars_of(text);
    let mut bytes: Vec<u8> = Vec::new();
    let mut i: usize = 0;
    while i < chars.len()
        invariant
            i <= chars.len(),
            chars@ == text@,
            forall|k: int| 0 <= k < i ==> text@[k] <= '\u{ff}',
            bytes@ == latin1_bytes(text@).take(i as int),
        decreases chars.len() - i,
    {
        let c = chars[i];
        if c > '\u{ff}' {
            assert(!(text@[i as int] <= '\u{ff}'));
            return None;
        }
        bytes.push(c as u8);
        assert(latin1_bytes(text@).take(i + 1) =~= latin1_bytes(text@).take(i as int).push(
            text@[i as int] as u8,
        ));
        i = i + 1;
    }
    assert(latin1_bytes(text@).take(i as int) =~= latin1_bytes(text@));
    Some(bytes)
}

/// The repaired text: a faultless decoding that has more ideographs and fewer
/// telltale characters than the text.
pub open spec fn better_text(text: Seq<char>, decoding: Option<(Seq<char>, bool)>) -> Option<
    Seq<char>,
> {
    match decoding {
        Some((decoded, false)) => if cjk_count(decoded) > cjk_count(text) && mojibake_count(decoded)
            < mojibake_count(text) {
            Some(decoded)
        } else {
            None
        },
        _ => None,
    }
}

/// Takes a decoding for the repaired form of the text if it improves on it.
pub fn accept_repair(text: &str, decoding: Option<(String, bool)>) -> (r: Option<String>)
    ensures
        crate::text::opt_text(r) == better_text(text@, decoding_view(decoding)),
{
    match decoding {
        Some((decoded, had_errors)) => {
            if had_errors {
                return None;
            }
            if cjk_score(decoded.as_str()) > cjk_score(text) && mojibake_score(decoded.as_str())
                < mojibake_score(text) {
                Some(decoded)
            } else {
                None
            }
        },
        None => None,
    }
}

/// The repaired form of a text that is GBK read as Latin-1, if it is one.
pub open spec fn repaired(text: Seq<char>) -> Option<Seq<char>> {
    if mojibake_count(text) < 3 || !is_latin1(text) {
        None
    } else {
        better_text(text, labelled_decoding("GBK"@, latin1_bytes(text)))
    }
}

/// Repairs a text that is GBK read as Latin-1.
pub fn repair_gbk_mojibake(text: &str) -> (r: Option<String>)
    requires
        decodable_len(text@.len()),
    ensures
        crate::text::opt_text(r) == repaired(text@),
{
    if mojibake_score(text) < 3 {
        return None;
    }
    match latin1_of(text) {
        Some(bytes) => accept_repair(text, decode_labelled("GBK", bytes.as_slice())),
        None => None,
    }
}

/// The text of container console bytes.
pub open spec fn container_text(bytes: Seq<u8>) -> Seq<char> {
    if valid_utf8(bytes) {
        match repaired(decode_utf8(bytes)) {
            Some(text) => text,
            None => decode_utf8(bytes),
        }
    } else {
        legacy_text(labelled_decoding("GBK"@, bytes), lossy_utf8(bytes))
    }
}

/// Decodes container console bytes for display.
pub fn decode_console_bytes(bytes: &[u8]) -> (r: String)
    requires
        decodable_len(bytes@.len()),
    ensures
        r@ == container_text(bytes@),
{
    match utf8_text(bytes) {
        Ok(text) => {
            proof {
                vstd::utf8::decode_utf8_encode_utf8(bytes@);
                crate::utf8::lemma_offset_monotone(text@, 0, text@.len() as int);
                crate::utf8::lemma_offset_total(text@);
            }
            match repair_gbk_mojibake(text.as_str()) {
                Some(better) => better,
                None => text,
            }
        },
        Err(_) => accept_decoding(decode_labelled("GBK", bytes), bytes),
    }
}

/// Text is repaired only by a reading without errors that has more Chinese in it
/// and fewer of the characters that a wrong reading leaves.
pub proof fn only_a_better_reading_counts(text: Seq<char>, decoded: Seq<char>, had_errors: bool)
    ensures
        better_text(text, Some((decoded, had_errors))) is Some <==> !had_errors && cjk_count(decoded)
            > cjk_count(text) && mojibake_count(decoded) < mojibake_count(text),
        better_text(text, Some((decoded, had_errors))) matches Some(better) ==> better == decoded,
        better_text(text, None) is None,
{
}

/// Text that holds fewer than three of those characters, or one that Latin-1 has
/// not, stays as it is.
pub proof fn sound_text_is_left_alone(text: Seq<char>, i: int)
    ensures
        mojibake_count(text) < 3 ==> repaired(text) is None,
        0 <= i < text.len() && text[i] > '\u{ff}' ==> repaired(text) is None,
{
}

/// The characters of either sort are counted one by one.
pub proof fn characters_are_counted(s: Seq<char>, c: char)
    ensures
        cjk_count(s.push(c)) == if '\u{4e00}' <= c <= '\u{9fff}' {
            cjk_count(s) + 1
        } else {
            cjk_count(s)
        },
        c <= '\u{a2}' ==> mojibake_count(s.push(c)) == mojibake_count(s),
        c > '\u{ff}' ==> mojibake_count(s.push(c)) == mojibake_count(s),
        c == 'Î' || c == 'ï' || c == 'Æ' || c == '·' || c == 'µ' || c == 'Ä' || c == '²' || c == 'Û'
            || c == 'Þ' || c == 'Ð' || c == '§' || c == '£' || c == '¬' || c == 'Õ' || c == 'û'
            ==> mojibake_count(s.push(c)) == mojibake_count(s) + 1,
        cjk_count(Seq::empty()) == 0,
        mojibake_count(Seq::empty()) == 0,
{
    reveal_with_fuel(Seq::filter, 2);
    assert(s.push(c).drop_last() =~= s);
    assert(Seq::<char>::empty().filter(|c: char| is_cjk(c)) =~= Seq::<char>::empty());
    assert(Seq::<char>::empty().filter(|c: char| is_mojibake(c)) =~= Seq::<char>::empty());
}

/// UTF-8 that needs no repair is read as it is; what is not UTF-8 is read as GBK,
/// or with its broken parts replaced where that fails.
pub proof fn logs_are_read(bytes: Seq<u8>, decoded: Seq<char>)
    ensures
        valid_utf8(bytes) && mojibake_count(decode_utf8(bytes)) < 3 ==> container_text(bytes)
            == decode_utf8(bytes),
        !valid_utf8(bytes) && labelled_decoding("GBK"@, bytes) == Some((decoded, false))
            ==> container_text(bytes) == decoded,
        !valid_utf8(bytes) && (labelled_decoding("GBK"@, bytes) is None || labelled_decoding(
            "GBK"@,
            bytes,
        ) == Some((decoded, true))) ==> container_text(bytes) == lossy_utf8(bytes),
{
}

} // verus!
