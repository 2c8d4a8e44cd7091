//! Console output decoding.
//!
//! Server processes write their console output in whatever encoding the
//! runtime picked: UTF-8 on most modern setups, but GBK, Big5, Shift_JIS,
//! EUC-KR, or a windows-125x code page on legacy-locale systems. Every place
//! that turns log bytes into text goes through this module: strict UTF-8
//! first, then automatic charset detection, then lossy UTF-8 as the last
//! resort.

use vstd::prelude::*;
use vstd::utf8::{decode_utf8, valid_utf8};

use crate::utf8::{
    decoding_appends, ends_in_partial_char, lemma_partial_is_unique, lemma_split_of_prefix,
    lossy_text, lossy_utf8, partial_char, utf8_text,
};

verus! {

/// Once this much output accumulates without a newline, a legacy-encoded
/// stream is decoded anyway so interactive prompts are not held back forever.
pub const MAX_PENDING_BYTES: usize = 8 * 1024;

/// The longest input that is handed to a charset decoder: the decoder sizes
/// its buffer from the input length and must not overflow doing so.
pub open spec fn decodable_len(len: nat) -> bool {
    len <= usize::MAX / 16
}

/// The label of the encoding that `chardetng` guesses for bytes.
pub uninterp spec fn guessed_label(bytes: Seq<u8>) -> Seq<char>;

/// What `encoding_rs` makes of bytes in the encoding with the label: the text,
/// and whether there were malformed sequences. Nothing for an unknown label.
pub uninterp spec fn labelled_decoding(label: Seq<char>, bytes: Seq<u8>) -> Option<
    (Seq<char>, bool),
>;

/// `chardetng::EncodingDetector::guess`, after the detector was fed the bytes
/// as a whole stream, without a top-level domain and with UTF-8 allowed; the
/// result is the name of the guessed encoding and depends on the bytes alone.
#[verifier::external_body]
pub(crate) fn guess_label(bytes: &[u8]) -> (r: String)
    ensures
        r@ == guessed_label(bytes@),
{
    let mut detector = chardetng::EncodingDetector::new();
    detector.feed(bytes, true);
    detector.guess(None, true).name().to_string()
}

/// The content of a decoding.
pub open spec fn decoding_view(decoding: Option<(String, bool)>) -> Option<(Seq<char>, bool)> {
    match decoding {
        Some((text, had_errors)) => Some((text@, had_errors)),
        None => None,
    }
}

/// `encoding_rs::Encoding::decode` of the encoding that
/// `encoding_rs::Encoding::for_label` finds: the text and whether there were
/// malformed sequences, which depend on the label and the bytes alone.
#[verifier::external_body]
pub(crate) fn decode_labelled(label: &str, bytes: &[u8]) -> (r: Option<(String, bool)>)
    requires
        decodable_len(bytes@.len()),
    ensures
        decoding_view(r) == labelled_decoding(label@, bytes@),
{
    encoding_rs::Encoding::for_label(label.as_bytes()).map(
        |encoding|
            {
                let (text, _, had_errors) = encoding.decode(bytes);
                (text.into_owned(), had_errors)
            },
    )
}

/// The start of the broken-off character at the end of the bytes.
pub open spec fn partial_start(buf: Seq<u8>) -> int {
    choose|at: int| ends_in_partial_char(buf, at)
}

/// Whether the bytes end inside a UTF-8 character, after whole ones.
pub open spec fn has_partial_end(buf: Seq<u8>) -> bool {
    exists|at: int| ends_in_partial_char(buf, at)
}

/// The text of bytes that are not UTF-8: that of the guessed encoding where
/// it fits, else the lossy one.
pub open spec fn legacy_text(decoding: Option<(Seq<char>, bool)>, lossy: Seq<char>) -> Seq<char> {
    match decoding {
        Some((text, false)) => text,
        _ => lossy,
    }
}

/// The text of a complete buffer of console bytes.
pub open spec fn console_text(buf: Seq<u8>) -> Seq<char> {
    if valid_utf8(buf) {
        decode_utf8(buf)
    } else if has_partial_end(buf) {
        decode_utf8(buf.take(partial_start(buf)))
    } else {
        legacy_text(labelled_decoding(guessed_label(buf), buf), lossy_utf8(buf))
    }
}

/// Keeps a decoding without malformed sequences; otherwise decodes the bytes
/// as lossy UTF-8.
pub fn accept_decoding(decoding: Option<(String, bool)>, buf: &[u8]) -> (r: String)
    ensures
        r@ == legacy_text(decoding_view(decoding), lossy_utf8(buf@)),
{
    match decoding {
        Some((text, had_errors)) => if had_errors {
            lossy_text(buf)
        } else {
            text
        },
        None => lossy_text(buf),
    }
}

/// Decodes a complete buffer of console bytes for display.
pub fn decode_console_bytes(buf: &[u8]) -> (r: String)
    requires
        decodable_len(buf@.len()),
    ensures
        r@ == console_text(buf@),
{
    let complete = trim_partial_utf8_suffix(buf);
    match utf8_text(complete) {
        Ok(text) => text,
        Err(_) => {
            let label = guess_label(buf);
            let decoding = decode_labelled(label.as_str(), buf);
            accept_decoding(decoding, buf)
        },
    }
}

/// Drops an incomplete multi-byte UTF-8 sequence from the end of `buf`. The
/// producer may be mid-write when a tail is read; one truncated character
/// must not force the whole buffer into the legacy-encoding fallback or
/// leave a stray replacement character on the last line.
pub fn trim_partial_utf8_suffix(buf: &[u8]) -> (r: &[u8])
    ensures
        r@ == if has_partial_end(buf@) {
            buf@.take(partial_start(buf@))
        } else {
            buf@
        },
        has_partial_end(buf@) ==> valid_utf8(r@),
        has_partial_end(buf@) ==> !valid_utf8(buf@),
{
    match utf8_text(buf) {
        Ok(_) => {
            proof {
                if has_partial_end(buf@) {
                    lemma_partial_is_unique(buf@, partial_start(buf@));
                }
            }
            buf
        },
        Err(failure) => {
            let at = failure.valid_up_to;
            if failure.incomplete {
                proof {
                    assert(ends_in_partial_char(buf@, at as int));
                    lemma_partial_is_unique(buf@, at as int);
                    assert(buf@.take(at as int) =~= buf@.subrange(0, at as int));
                }
                vstd::slice::slice_subrange(buf, 0, at)
            } else {
                proof {
                    lemma_no_partial_end(buf@, at as int);
                }
                buf
            }
        },
    }
}

/// The longest UTF-8 prefix decides whether the bytes end inside a character.
proof fn lemma_no_partial_end(buf: Seq<u8>, at: int)
    requires
        0 <= at < buf.len(),
        valid_utf8(buf.take(at)),
        forall|k: int| at < k <= buf.len() ==> !valid_utf8(#[trigger] buf.take(k)),
        !partial_char(buf.skip(at)),
    ensures
        !has_partial_end(buf),
{
    if has_partial_end(buf) {
        let other = partial_start(buf);
        lemma_partial_is_unique(buf, other);
        assert(valid_utf8(buf.take(other)));
        assert(other <= at);
        assert(valid_utf8(buf.take(at)));
    }
}

/// Incremental decoder for live console streams, where a read chunk can end
/// in the middle of a multi-byte character. UTF-8 input is emitted
/// immediately (holding back only an incomplete trailing character), which
/// keeps interactive prompts responsive; once the bytes cannot be UTF-8 the
/// stream buffers up to the next newline so charset detection sees whole
/// lines instead of arbitrary chunk boundaries.
pub struct StreamDecoder {
    pending: Vec<u8>,
}

/// How many of the bytes of a legacy-encoded stream are ready: all up to the
/// last newline, or everything once too much has piled up.
pub open spec fn legacy_ready(all: Seq<u8>) -> int {
    if all.contains(10u8) {
        last_newline(all) + 1
    } else if all.len() >= MAX_PENDING_BYTES {
        all.len() as int
    } else {
        0
    }
}

/// The position of the last newline.
pub open spec fn last_newline(all: Seq<u8>) -> int
    decreases all.len(),
{
    if all.len() == 0 {
        -1
    } else if all.last() == 10u8 {
        all.len() - 1
    } else {
        last_newline(all.drop_last())
    }
}

/// How many of the buffered bytes a push consumes.
pub open spec fn ready_len(all: Seq<u8>) -> int {
    if valid_utf8(all) {
        all.len() as int
    } else if has_partial_end(all) {
        partial_start(all)
    } else {
        legacy_ready(all)
    }
}

/// What a push returns of the buffered bytes.
pub open spec fn ready_text(all: Seq<u8>) -> Seq<char> {
    if valid_utf8(all) {
        decode_utf8(all)
    } else if has_partial_end(all) {
        decode_utf8(all.take(partial_start(all)))
    } else if legacy_ready(all) == 0 {
        Seq::<char>::empty()
    } else {
        console_text(all.take(legacy_ready(all)))
    }
}

/// What the bytes that are held back come to when the stream ends.
pub open spec fn rest_text(held: Seq<u8>) -> Seq<char> {
    if held.len() == 0 {
        Seq::<char>::empty()
    } else {
        console_text(held)
    }
}

proof fn lemma_last_newline(all: Seq<u8>, at: int)
    requires
        0 <= at < all.len(),
        all[at] == 10u8,
        forall|k: int| at < k < all.len() ==> all[k] != 10u8,
    ensures
        last_newline(all) == at,
        all.contains(10u8),
    decreases all.len(),
{
    if at < all.len() - 1 {
        lemma_last_newline(all.drop_last(), at);
    }
}

impl View for StreamDecoder {
    type V = Seq<u8>;

    /// The bytes that are held back.
    closed spec fn view(&self) -> Seq<u8> {
        self.pending@
    }
}

impl StreamDecoder {
    /// A decoder that holds nothing back.
    pub fn new() -> (r: Self)
        ensures
            r@ == Seq::<u8>::empty(),
    {
        StreamDecoder { pending: Vec::new() }
    }

    /// Feeds `bytes` in and returns whatever is ready to display.
    pub fn push(&mut self, bytes: &[u8]) -> (r: String)
        requires
            decodable_len(old(self)@.len() + bytes@.len()),
        ensures
            r@ == ready_text(old(self)@ + bytes@),
            final(self)@ == (old(self)@ + bytes@).skip(ready_len(old(self)@ + bytes@)),
    {
        let ghost all = self.pending@ + bytes@;
        self.pending.extend_from_slice(bytes);
        assert(self.pending@ =~= all);
        match utf8_text(self.pending.as_slice()) {
            Ok(text) => {
                self.pending = Vec::new();
                assert(self.pending@ =~= all.skip(all.len() as int));
                text
            },
            Err(failure) => {
                let at = failure.valid_up_to;
                if failure.incomplete {
                    proof {
                        assert(ends_in_partial_char(all, at as int));
                        lemma_partial_is_unique(all, at as int);
                    }
                    self.take_text(at)
                } else {
                    proof {
                        lemma_no_partial_end(all, at as int);
                    }
                    let split = self.legacy_split();
                    if split == 0 {
                        assert(all.skip(0) =~= all);
                        return String::new();
                    }
                    let rest = self.pending.split_off(split);
                    assert(self.pending@ =~= all.take(split as int));
                    assert(rest@ =~= all.skip(split as int));
                    let text = decode_console_bytes(self.pending.as_slice());
                    self.pending = rest;
                    text
                }
            },
        }
    }

    /// Takes the first `at` bytes out of the buffer, which are UTF-8, as text.
    fn take_text(&mut self, at: usize) -> (r: String)
        requires
            at <= old(self).pending@.len(),
            valid_utf8(old(self).pending@.take(at as int)),
        ensures
            r@ == decode_utf8(old(self).pending@.take(at as int)),
            final(self).pending@ == old(self).pending@.skip(at as int),
    {
        let ghost all = self.pending@;
        let rest = self.pending.split_off(at);
        assert(self.pending@ =~= all.take(at as int));
        assert(rest@ =~= all.skip(at as int));
        let text = match utf8_text(self.pending.as_slice()) {
            Ok(text) => text,
            Err(_) => String::new(),
        };
        self.pending = rest;
        text
    }

    /// How many of the buffered bytes are ready in a legacy-encoded stream.
    fn legacy_split(&self) -> (r: usize)
        ensures
            r == legacy_ready(self.pending@),
            r <= self.pending@.len(),
    {
        let mut i: usize = self.pending.len();
        while i > 0
            invariant
                i <= self.pending@.len(),
                forall|k: int| i <= k < self.pending@.len() ==> self.pending@[k] != 10u8,
            decreases i,
        {
            if self.pending[i - 1] == 10u8 {
                proof {
                    lemma_last_newline(self.pending@, i - 1);
                }
                return i;
            }
            i = i - 1;
        }
        if self.pending.len() >= MAX_PENDING_BYTES {
            self.pending.len()
        } else {
            0
        }
    }

    /// Decodes anything still buffered; call when the stream ends.
    pub fn flush(&mut self) -> (r: String)
        requires
            decodable_len(old(self)@.len()),
        ensures
            r@ == rest_text(old(self)@),
            final(self)@ == Seq::<u8>::empty(),
    {
        if self.pending.len() == 0 {
            assert(self.pending@ =~= Seq::<u8>::empty());
            return String::new();
        }
        let text = decode_console_bytes(self.pending.as_slice());
        self.pending = Vec::new();
        text
    }
}

impl Default for StreamDecoder {
    fn default() -> (r: Self)
        ensures
            r@ == Seq::<u8>::empty(),
    {
        StreamDecoder::new()
    }
}

/// The text that a decoder has returned after the chunks, one push each, and
/// the bytes that it then holds back.
pub open spec fn streamed(chunks: Seq<Seq<u8>>) -> (Seq<char>, Seq<u8>)
    decreases chunks.len(),
{
    if chunks.len() == 0 {
        (Seq::empty(), Seq::empty())
    } else {
        let (text, held) = streamed(chunks.drop_last());
        let all = held + chunks.last();
        (text + ready_text(all), all.skip(ready_len(all)))
    }
}

/// All bytes of the chunks.
pub open spec fn all_bytes(chunks: Seq<Seq<u8>>) -> Seq<u8>
    decreases chunks.len(),
{
    if chunks.len() == 0 {
        Seq::empty()
    } else {
        all_bytes(chunks.drop_last()) + chunks.last()
    }
}

/// While the stream can still become UTF-8, the decoder has returned the text
/// of every whole character so far and holds back only a broken-off one.
proof fn lemma_stream_of_utf8(chunks: Seq<Seq<u8>>, rest: Seq<u8>) -> (at: int)
    requires
        valid_utf8(all_bytes(chunks) + rest),
    ensures
        0 <= at <= all_bytes(chunks).len(),
        valid_utf8(all_bytes(chunks).take(at)),
        streamed(chunks).0 == decode_utf8(all_bytes(chunks).take(at)),
        streamed(chunks).1 == all_bytes(chunks).skip(at),
        at == all_bytes(chunks).len() || ends_in_partial_char(all_bytes(chunks), at),
    decreases chunks.len(),
{
    let bytes = all_bytes(chunks);
    if chunks.len() == 0 {
        assert(bytes.take(0) =~= Seq::<u8>::empty());
        assert(bytes.skip(0) =~= Seq::<u8>::empty());
        0
    } else {
        let head = all_bytes(chunks.drop_last());
        let last = chunks.last();
        assert(bytes + rest =~= head + (last + rest));
        let before = lemma_stream_of_utf8(chunks.drop_last(), last + rest);
        let all = streamed(chunks.drop_last()).1 + last;
        let done = head.take(before);
        assert(done + all =~= bytes);
        assert(bytes.take(before) =~= done);
        lemma_rest_is_utf8(done, all, rest);
        let cut = lemma_split_of_prefix(all, rest);
        decoding_appends(done, all.take(cut));
        assert(done + all.take(cut) =~= bytes.take(before + cut));
        assert(all.skip(cut) =~= bytes.skip(before + cut));
        if cut == all.len() {
            assert(all.take(cut) =~= all);
            assert(all.skip(all.len() as int) =~= Seq::<u8>::empty());
        } else {
            lemma_partial_is_unique(all, cut);
        }
        before + cut
    }
}

/// What follows whole characters in UTF-8 is UTF-8.
proof fn lemma_rest_is_utf8(done: Seq<u8>, all: Seq<u8>, rest: Seq<u8>)
    requires
        valid_utf8(done),
        valid_utf8(done + all + rest),
    ensures
        valid_utf8(all + rest),
    decreases done.len(),
{
    if done.len() == 0 {
        assert(done + all + rest =~= all + rest);
    } else {
        let whole = done + all + rest;
        let tail = vstd::utf8::pop_first_scalar(done);
        assert(whole[0] == done[0]);
        assert(vstd::utf8::pop_first_scalar(whole) =~= tail + all + rest);
        lemma_rest_is_utf8(tail, all, rest);
    }
}

/// A UTF-8 stream is reassembled however it is cut into chunks: what the
/// pushes return, taken together, is the text of the stream, and nothing is
/// left to flush.
pub proof fn utf8_stream_is_reassembled(chunks: Seq<Seq<u8>>)
    requires
        valid_utf8(all_bytes(chunks)),
    ensures
        streamed(chunks).0 == decode_utf8(all_bytes(chunks)),
        streamed(chunks).1.len() == 0,
{
    let bytes = all_bytes(chunks);
    assert(bytes + Seq::<u8>::empty() =~= bytes);
    let at = lemma_stream_of_utf8(chunks, Seq::<u8>::empty());
    if at < bytes.len() {
        lemma_partial_is_unique(bytes, at);
    }
    assert(bytes.take(at) =~= bytes);
}

/// After each push of a UTF-8 stream, however it is cut, just the longest whole
/// UTF-8 prefix of the bytes so far has come out as text. Only a character that
/// breaks off is held back, at most three bytes. `rest` is what is still to come.
pub proof fn whole_characters_come_out_at_once(chunks: Seq<Seq<u8>>, rest: Seq<u8>)
    requires
        valid_utf8(all_bytes(chunks) + rest),
    ensures
        ({
            let fed = all_bytes(chunks);
            let (text, held) = streamed(chunks);
            let at = fed.len() - held.len();
            &&& held.len() <= 3 && held.len() <= fed.len()
            &&& held == fed.skip(at)
            &&& valid_utf8(fed.take(at))
            &&& text == decode_utf8(fed.take(at))
            &&& forall|k: int| at < k <= fed.len() ==> !valid_utf8(#[trigger] fed.take(k))
        }),
{
    let fed = all_bytes(chunks);
    let at = lemma_stream_of_utf8(chunks, rest);
    if at < fed.len() {
        lemma_partial_is_unique(fed, at);
        let c = choose|c: char| crate::utf8::is_cut_of(fed.skip(at), c);
        crate::utf8::lemma_char_width(c);
    }
}

/// A push neither loses nor repeats bytes, and no newline is ever held back.
pub proof fn push_holds_back_no_newline(all: Seq<u8>)
    ensures
        0 <= ready_len(all) <= all.len(),
        !all.skip(ready_len(all)).contains(10u8),
{
    if valid_utf8(all) {
        assert(all.skip(all.len() as int).len() == 0);
    } else if has_partial_end(all) {
        let at = partial_start(all);
        let cut = all.skip(at);
        let c = choose|c: char| crate::utf8::is_cut_of(cut, c);
        lemma_no_newline_inside(c);
        assert forall|k: int| 0 <= k < cut.len() implies cut[k] != 10u8 by {
            assert(cut[k] == vstd::utf8::encode_utf8(seq![c]).take(cut.len() as int)[k]);
        }
    } else {
        lemma_newline_bounds(all);
        let from = legacy_ready(all);
        assert forall|k: int| 0 <= k < all.skip(from).len() implies all.skip(from)[k] != 10u8 by {}
    }
}

/// However a stream is cut, a decoder holds back no newline, and no more bytes
/// than its longest chunk has, or than it waits for a newline with. So chunks of
/// any number can be pushed one after the other.
pub proof fn held_back_is_bounded(chunks: Seq<Seq<u8>>, longest: nat)
    requires
        forall|i: int| 0 <= i < chunks.len() ==> (#[trigger] chunks[i]).len() <= longest,
    ensures
        streamed(chunks).1.len() <= longest || streamed(chunks).1.len() < MAX_PENDING_BYTES,
        decodable_len(2 * longest) && decodable_len(MAX_PENDING_BYTES as nat + longest)
            ==> decodable_len(streamed(chunks).1.len() + longest),
        !streamed(chunks).1.contains(10u8),
    decreases chunks.len(),
{
    if chunks.len() > 0 {
        let front = chunks.drop_last();
        assert forall|i: int| 0 <= i < front.len() implies (#[trigger] front[i]).len()
            <= longest by {
            assert(front[i] == chunks[i]);
        }
        held_back_is_bounded(front, longest);
        let held = streamed(front).1;
        let last = chunks[chunks.len() - 1];
        let all = held + last;
        push_holds_back_no_newline(all);
        if valid_utf8(all) {
        } else if has_partial_end(all) {
            let c = choose|c: char| crate::utf8::is_cut_of(all.skip(partial_start(all)), c);
            crate::utf8::lemma_char_width(c);
        } else if all.contains(10u8) {
            lemma_newline_bounds(all);
            let at = last_newline(all);
            if at < held.len() {
                let k = choose|k: int| 0 <= k < all.len() && all[k] == 10u8;
                assert(k <= at);
                assert(held[k] == all[k]);
            }
        }
    }
}

proof fn lemma_newline_bounds(all: Seq<u8>)
    ensures
        -1 <= last_newline(all) < all.len(),
        forall|k: int| last_newline(all) < k < all.len() ==> all[k] != 10u8,
    decreases all.len(),
{
    if all.len() > 0 && all.last() != 10u8 {
        lemma_newline_bounds(all.drop_last());
        assert forall|k: int| last_newline(all) < k < all.len() implies all[k] != 10u8 by {
            if k < all.len() - 1 {
                assert(all.drop_last()[k] == all[k]);
            }
        }
    }
}

/// No byte of a character that takes more than one byte is a newline.
proof fn lemma_no_newline_inside(c: char)
    ensures
        vstd::utf8::encode_utf8(seq![c]).len() > 1 ==> !vstd::utf8::encode_utf8(seq![c]).contains(
            10u8,
        ),
{
    crate::utf8::lemma_char_width(c);
    let v = c as u32;
    assert((0xc0u8 | ((v >> 6u32) & 0x1fu32) as u8) >= 0xc0u8) by (bit_vector);
    assert((0xe0u8 | ((v >> 12u32) & 0x0fu32) as u8) >= 0xe0u8) by (bit_vector);
    assert((0xf0u8 | ((v >> 18u32) & 0x7u32) as u8) >= 0xf0u8) by (bit_vector);
    assert((0x80u8 | (v & 0x3fu32) as u8) >= 0x80u8) by (bit_vector);
    assert((0x80u8 | ((v >> 6u32) & 0x3fu32) as u8) >= 0x80u8) by (bit_vector);
    assert((0x80u8 | ((v >> 12u32) & 0x3fu32) as u8) >= 0x80u8) by (bit_vector);
}

/// Of a stream that is not UTF-8, what ends in a newline is ready, up to the last
/// one; without one it is held back until it grows too long.
pub proof fn lines_are_ready(front: Seq<u8>, back: Seq<u8>)
    requires
        !back.contains(10u8),
    ensures
        legacy_ready(front + seq![10u8] + back) == front.len() + 1,
        back.len() < 8192 ==> legacy_ready(back) == 0,
        back.len() >= 8192 ==> legacy_ready(back) == back.len(),
{
    let all = front + seq![10u8] + back;
    assert(all[front.len() as int] == 10u8);
    assert(all.contains(10u8));
    lemma_newline_behind(front, back);
}

proof fn lemma_newline_behind(front: Seq<u8>, back: Seq<u8>)
    requires
        !back.contains(10u8),
    ensures
        last_newline(front + seq![10u8] + back) == front.len(),
    decreases back.len(),
{
    let all = front + seq![10u8] + back;
    if back.len() > 0 {
        let head = back.drop_last();
        assert(back.contains(back[back.len() - 1]));
        assert forall|i: int| 0 <= i < head.len() implies head[i] != 10u8 by {
            assert(back[i] == head[i]);
            assert(back.contains(back[i]));
        }
        assert(!head.contains(10u8));
        lemma_newline_behind(front, head);
        assert(all.last() == back.last());
        assert(all.drop_last() =~= front + seq![10u8] + head);
    } else {
        assert(all.last() == 10u8);
    }
}

/// Console output is read as UTF-8 where it is UTF-8, else by the encoding that
/// is guessed for it, and with its broken parts replaced where that fails.
pub proof fn output_is_read(buf: Seq<u8>, decoded: Seq<char>)
    ensures
        valid_utf8(buf) ==> console_text(buf) == decode_utf8(buf),
        !valid_utf8(buf) && !has_partial_end(buf) && labelled_decoding(guessed_label(buf), buf)
            == Some((decoded, false)) ==> console_text(buf) == decoded,
        !valid_utf8(buf) && !has_partial_end(buf) && (labelled_decoding(guessed_label(buf), buf)
            is None || labelled_decoding(guessed_label(buf), buf) == Some((decoded, true)))
            ==> console_text(buf) == lossy_utf8(buf),
        rest_text(buf) == if buf.len() == 0 {
            Seq::empty()
        } else {
            console_text(buf)
        },
{
}

} // verus!
