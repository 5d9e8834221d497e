use vstd::prelude::*;
use vstd::slice::slice_subrange;
use vstd::string::*;
use vstd::utf8::*;
use crate::text::{decode_text, is_whitespace, lemma_trimmed_drops_trailing_whitespace, trim_text, trimmed};

verus! {

/// The bytes of one read were not well-formed text.
#[derive(Clone, Copy, Debug, PartialEq, Eq)]
pub struct DecodeError;

/// What one read result amounts to.
#[derive(Clone, Copy, Debug, PartialEq, Eq)]
pub enum Assembled<'a> {
    /// Nothing was read: there is nothing to process.
    Empty,
    /// The text of the read, without the whitespace around it.
    Frame(&'a str),
}

/// The text that a read of `count` bytes into `buf` carries.
pub open spec fn frame_text(buf: Seq<u8>, count: int) -> Seq<char> {
    trimmed(decode_utf8(buf.subrange(0, count)))
}

/// Reads `bytes` as text and takes the whitespace off its two ends.
pub fn decode_frame<'a>(bytes: &'a [u8]) -> (r: Result<&'a str, DecodeError>)
    ensures
        r is Err <==> !valid_utf8(bytes@),
        r matches Ok(text) ==> text@ == trimmed(decode_utf8(bytes@)),
{
    match decode_text(bytes) {
        None => Err(DecodeError),
        Some(s) => {
            proof {
                encode_utf8_decode_utf8(s@);
            }
            Ok(trim_text(s))
        },
    }
}

/// Turns the first `count` bytes of `buf` into a frame. Bytes behind `count`
/// are left over from earlier reads and play no part.
pub fn assemble<'a>(buf: &'a [u8], count: usize) -> (r: Result<Assembled<'a>, DecodeError>)
    requires
        count <= buf@.len(),
    ensures
        count == 0 ==> r == Ok::<Assembled<'a>, DecodeError>(Assembled::Empty),
        count > 0 && !valid_utf8(buf@.subrange(0, count as int)) ==> r is Err,
        count > 0 && valid_utf8(buf@.subrange(0, count as int)) ==> (r matches Ok(
            Assembled::Frame(text),
        ) && text@ == frame_text(buf@, count as int)),
{
    if count == 0 {
        return Ok(Assembled::Empty);
    }
    match decode_frame(slice_subrange(buf, 0, count)) {
        Err(e) => Err(e),
        Ok(text) => Ok(Assembled::Frame(text)),
    }
}

/// A read that holds the encoding of a text, and nothing else, carries that
/// text without the whitespace around it.
pub proof fn lemma_frame_of_text(text: Seq<char>)
    ensures
        valid_utf8(encode_utf8(text)),
        frame_text(encode_utf8(text), encode_utf8(text).len() as int) == trimmed(text),
{
    let bytes = encode_utf8(text);
    encode_utf8_valid_utf8(text);
    encode_utf8_decode_utf8(text);
    assert(bytes.subrange(0, bytes.len() as int) =~= bytes);
}

/// What a buffer holds behind the bytes of the last read has no part in the
/// frame.
pub proof fn lemma_frame_ignores_stale_bytes(a: Seq<u8>, b: Seq<u8>, count: int)
    requires
        0 <= count <= a.len(),
        count <= b.len(),
        a.subrange(0, count) == b.subrange(0, count),
    ensures
        frame_text(a, count) == frame_text(b, count),
{
}

/// A line feed that closes a read is not part of the frame: the read with
/// it and the read without it carry the same text.
pub proof fn lemma_line_feed_closes_frame(bytes: Seq<u8>)
    requires
        valid_utf8(bytes),
    ensures
        valid_utf8(bytes.push(0x0Au8)),
        frame_text(bytes.push(0x0Au8), bytes.len() as int + 1) == frame_text(
            bytes,
            bytes.len() as int,
        ),
{
    let lf = seq![0x0Au8];
    let all = bytes.push(0x0Au8);
    let n = bytes.len() as int;
    assert(0x0Au8 & 0x7f == 0x0A) by (bit_vector);
    assert(pop_first_scalar(lf) =~= Seq::<u8>::empty());
    assert(valid_utf8(lf)) by {
        reveal_with_fuel(valid_utf8, 2);
    }
    assert(decode_utf8(lf) =~= seq!['\n']) by {
        reveal_with_fuel(decode_utf8, 2);
    }
    assert(all =~= bytes + lf);
    valid_utf8_concat(bytes, lf);
    is_char_boundary_iff_not_is_continuation_byte(all, n);
    decode_utf8_split(all, n);
    assert(all.subrange(0, n) =~= bytes);
    assert(all.subrange(n, all.len() as int) =~= lf);
    assert(all.subrange(0, n + 1) =~= all);
    assert(bytes.subrange(0, n) =~= bytes);
    assert(decode_utf8(bytes) + seq!['\n'] =~= decode_utf8(bytes).push('\n'));
    assert(is_whitespace('\n'));
    lemma_trimmed_drops_trailing_whitespace(decode_utf8(bytes), '\n');
}

/// The line that answers a frame: a fixed prefix, the frame, a line feed.
pub open spec fn echo_of(text: Seq<char>) -> Seq<char> {
    seq!['e', 'c', 'h', 'o', ':', ' '] + text + seq!['\n']
}

/// Builds the reply to a frame.
pub fn echo_line(frame: &str) -> (line: String)
    ensures
        line@ == echo_of(frame@),
{
    proof {
        reveal_strlit("echo: ");
        reveal_strlit("\n");
    }
    let mut line = String::from_str("echo: ");
    line.append(frame);
    line.append("\n");
    assert("echo: "@ =~= seq!['e', 'c', 'h', 'o', ':', ' ']);
    assert("\n"@ =~= seq!['\n']);
    line
}

} // verus!
