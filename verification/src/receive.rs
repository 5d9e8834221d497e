use vstd::prelude::*;
use vstd::utf8::*;
use vstd::pervasive::unreached;
use vstd::slice::slice_subrange;
use crate::config::AT_CMD;
use crate::frame::{assemble, decode_frame, echo_line, echo_of, frame_text, lemma_frame_of_text};
use crate::text::trimmed;
use crate::trigger::FrameTrigger;

verus! {

/// A fault of the serial receiver that made a read fail. The bytes of such a
/// read are lost.
#[derive(Clone, Copy, Debug, PartialEq, Eq)]
pub enum TransportError {
    /// The read was given no room to put bytes in.
    InvalidArgument,
    /// The receive queue overflowed.
    RxFifoOvf,
    /// A glitch was seen on the line.
    RxGlitchDetected,
    /// A byte came without a proper stop bit.
    RxFrameError,
    /// A byte failed the parity check.
    RxParityError,
}

/// The serial link did not take the reply.
#[derive(Clone, Copy, Debug, PartialEq, Eq)]
pub struct WriteError;

/// Where the receive task stands.
#[derive(Clone, Copy, Debug, PartialEq, Eq)]
pub enum ReceiveState {
    /// Suspended until the transport completes a read.
    AwaitingData,
    /// A reply has been handed out and its write is under way.
    Processing,
}

/// What the receive task wants done after a read.
#[derive(Debug, PartialEq, Eq)]
pub enum Action<'a> {
    /// Nothing was read: wait for the next read.
    Skip,
    /// Write `line` to the serial link, then report how the write went.
    /// `text` is the frame that `line` answers.
    Echo { text: &'a str, line: String },
    /// The bytes were no text: report it and wait for the next read.
    ReportDecodeError,
    /// The read itself failed: report it and wait for the next read.
    ReportReadError(TransportError),
}

/// How a cycle that wrote a reply ended.
#[derive(Clone, Copy, Debug, PartialEq, Eq)]
pub enum Completion {
    /// The reply went out.
    Echoed,
    /// The reply was lost: report it. It is not sent again.
    ReportWriteError(WriteError),
}

/// The task that turns reads into replies. It owns no bytes: every read
/// stands for itself, and nothing is carried from one to the next.
#[derive(Clone, Copy, Debug, PartialEq, Eq)]
pub struct ReceiveTask {
    /// Where the task stands.
    pub state: ReceiveState,
}

/// Where the frame of a read of `n` bytes into `buf` ends: at the first
/// trigger byte among them, or behind the last of them where none is the
/// trigger byte.
pub open spec fn frame_end(buf: Seq<u8>, n: int) -> int
    decreases n,
{
    if n <= 0 {
        0
    } else if frame_end(buf, n - 1) < n - 1 || buf[n - 1] == AT_CMD {
        frame_end(buf, n - 1)
    } else {
        n
    }
}

/// True when a read calls for a reply: it brought bytes, and they are text.
pub open spec fn calls_for_echo(buf: Seq<u8>, read: Result<usize, TransportError>) -> bool {
    read matches Ok(n) && 0 < n <= buf.len() && valid_utf8(buf.subrange(0, n as int))
}

/// True when a read brought bytes that are no text.
pub open spec fn is_decode_failure(buf: Seq<u8>, read: Result<usize, TransportError>) -> bool {
    read matches Ok(n) && 0 < n <= buf.len() && !valid_utf8(buf.subrange(0, n as int))
}

/// The end of a frame lies within the read, no trigger byte stands before
/// it, and where it lies before the end of the read the trigger byte stands
/// at it.
pub proof fn lemma_frame_end(buf: Seq<u8>, n: int)
    requires
        0 <= n <= buf.len(),
    ensures
        0 <= frame_end(buf, n) <= n,
        forall|i: int| 0 <= i < frame_end(buf, n) ==> #[trigger] buf[i] != AT_CMD,
        frame_end(buf, n) < n ==> buf[frame_end(buf, n)] == AT_CMD,
    decreases n,
{
    if n > 0 {
        lemma_frame_end(buf, n - 1);
    }
}

/// A frame ends at the first trigger byte of its read. The bytes that the
/// read brought behind that byte are in no frame: neither in this one nor,
/// since the task keeps no bytes, in a later one.
pub proof fn lemma_frame_ends_at_first_trigger(buf: Seq<u8>, n: int, k: int)
    requires
        0 <= k < n <= buf.len(),
        buf[k] == AT_CMD,
        forall|i: int| 0 <= i < k ==> #[trigger] buf[i] != AT_CMD,
    ensures
        frame_end(buf, n) == k,
{
    lemma_frame_end(buf, n);
    let e = frame_end(buf, n);
    if e < k {
        assert(buf[e] != AT_CMD);
    }
    if k < e {
        assert(buf[k] != AT_CMD);
    }
}

/// A read without a trigger byte is one frame as a whole: a read that fills
/// the buffer ends its frame at the buffer's end.
pub proof fn lemma_frame_without_trigger(buf: Seq<u8>, n: int)
    requires
        0 <= n <= buf.len(),
        forall|i: int| 0 <= i < n ==> #[trigger] buf[i] != AT_CMD,
    ensures
        frame_end(buf, n) == n,
{
    lemma_frame_end(buf, n);
    let e = frame_end(buf, n);
    if e < n {
        assert(buf[e] != AT_CMD);
    }
}

/// The frame of a read that is text is text as well: the trigger byte never
/// stands inside the encoding of a character, so the cut falls between two
/// characters.
pub proof fn lemma_frame_of_valid_read(buf: Seq<u8>, n: int)
    requires
        0 <= n <= buf.len(),
        valid_utf8(buf.subrange(0, n)),
    ensures
        valid_utf8(buf.subrange(0, frame_end(buf, n))),
{
    lemma_frame_end(buf, n);
    let whole = buf.subrange(0, n);
    let k = frame_end(buf, n);
    if k < n {
        assert(whole[k] == AT_CMD);
        assert(0x0Au8 & 0xc0 != 0x80) by (bit_vector);
        is_char_boundary_iff_not_is_continuation_byte(whole, k);
        valid_utf8_split(whole, k);
        assert(whole.subrange(0, k) =~= buf.subrange(0, k));
    }
}

/// Two reads of text that agree up to the first trigger byte call for the
/// same reply, whatever text either holds behind that byte.
pub proof fn lemma_frame_ignores_bytes_behind_trigger(a: Seq<u8>, n: int, b: Seq<u8>, m: int)
    requires
        0 <= n <= a.len(),
        0 <= m <= b.len(),
        valid_utf8(a.subrange(0, n)),
        valid_utf8(b.subrange(0, m)),
        frame_end(a, n) < n,
        frame_end(a, n) < m,
        a.subrange(0, frame_end(a, n) + 1) == b.subrange(0, frame_end(a, n) + 1),
    ensures
        frame_end(b, m) == frame_end(a, n),
        frame_text(b, frame_end(b, m)) == frame_text(a, frame_end(a, n)),
{
    lemma_frame_end(a, n);
    let k = frame_end(a, n);
    let pa = a.subrange(0, k + 1);
    let pb = b.subrange(0, k + 1);
    assert(b[k] == AT_CMD) by {
        assert(pa[k] == a[k]);
        assert(pb[k] == b[k]);
    }
    assert forall|i: int| 0 <= i < k implies #[trigger] b[i] != AT_CMD by {
        assert(pa[i] == a[i]);
        assert(pb[i] == b[i]);
    }
    lemma_frame_ends_at_first_trigger(b, m, k);
    assert(a.subrange(0, k) =~= pa.subrange(0, k));
    assert(b.subrange(0, k) =~= pb.subrange(0, k));
}

/// A read that brings the encoding of a text, at least one byte of it and
/// no trigger byte, calls for a reply, and the frame of that reply is the
/// text without the whitespace around it.
pub proof fn lemma_text_calls_for_echo(text: Seq<char>)
    requires
        0 < encode_utf8(text).len() <= usize::MAX,
        forall|i: int| 0 <= i < encode_utf8(text).len() ==> #[trigger] encode_utf8(text)[i] != AT_CMD,
    ensures
        frame_end(encode_utf8(text), encode_utf8(text).len() as int) == encode_utf8(text).len(),
        calls_for_echo(encode_utf8(text), Ok(encode_utf8(text).len() as usize)),
        frame_text(encode_utf8(text), encode_utf8(text).len() as int) == trimmed(text),
{
    let bytes = encode_utf8(text);
    lemma_frame_of_text(text);
    lemma_frame_without_trigger(bytes, bytes.len() as int);
    assert(bytes.subrange(0, bytes.len() as int) =~= bytes);
}

impl ReceiveTask {
    /// The task after a read: only a task that awaits data takes one, and
    /// only a read that calls for a reply keeps it busy.
    pub open spec fn after_read(self, buf: Seq<u8>, read: Result<usize, TransportError>) -> Self {
        if self.state == ReceiveState::AwaitingData && calls_for_echo(buf, read) {
            ReceiveTask { state: ReceiveState::Processing }
        } else {
            self
        }
    }

    /// The task after each of `reads` in turn, a read being the buffer and
    /// what the transport said of it.
    pub open spec fn after_reads(
        self,
        reads: Seq<(Seq<u8>, Result<usize, TransportError>)>,
    ) -> Self
        decreases reads.len(),
    {
        if reads.len() == 0 {
            self
        } else {
            self.after_read(reads.first().0, reads.first().1).after_reads(reads.drop_first())
        }
    }

    /// A task that awaits its first read.
    pub fn new() -> (task: Self)
        ensures
            task.state == ReceiveState::AwaitingData,
    {
        ReceiveTask { state: ReceiveState::AwaitingData }
    }

    /// Takes the result of a read into `buf` and says what is to be done.
    /// A read whose bytes are not text, wherever among them the fault lies,
    /// is reported and gets no reply. Of a read that is text the frame is
    /// what stands before its first trigger byte, or all of it where it
    /// holds none; what stands behind that byte is dropped, and the task
    /// keeps nothing of it for the next read. Only a reply keeps the task
    /// busy; after anything else it awaits the next read at once.
    pub fn on_read<'a>(&mut self, buf: &'a [u8], read: Result<usize, TransportError>) -> (action:
        Action<'a>)
        requires
            old(self).state == ReceiveState::AwaitingData,
            read matches Ok(n) ==> n <= buf@.len(),
        ensures
            *final(self) == old(self).after_read(buf@, read),
            read matches Err(e) ==> action == Action::<'a>::ReportReadError(e),
            read matches Ok(n) && n == 0 ==> action == Action::<'a>::Skip,
            is_decode_failure(buf@, read) ==> action == Action::<'a>::ReportDecodeError,
            calls_for_echo(buf@, read) ==> (action matches Action::Echo { text, line } && text@
                == frame_text(buf@, frame_end(buf@, read->Ok_0 as int)) && line@ == echo_of(
                text@,
            )),
    {
        let n = match read {
            Err(e) => {
                return Action::ReportReadError(e);
            },
            Ok(n) => n,
        };
        if n == 0 {
            return Action::Skip;
        }
        if assemble(buf, n).is_err() {
            return Action::ReportDecodeError;
        }
        let brought = slice_subrange(buf, 0, n);
        let trigger = FrameTrigger { trigger_byte: AT_CMD, threshold: n };
        let end = match trigger.boundary(brought) {
            Some(k) => k,
            None => unreached(),
        };
        proof {
            lemma_frame_end(buf@, n as int);
            lemma_frame_of_valid_read(buf@, n as int);
            let e = frame_end(buf@, n as int);
            if e < end {
                assert(brought@[e] != AT_CMD);
            }
            if end < e {
                assert(buf@[end as int] != AT_CMD);
                assert(brought@[end as int] == AT_CMD);
            }
        }
        match decode_frame(slice_subrange(buf, 0, end)) {
            Err(_) => unreached(),
            Ok(text) => {
                self.state = ReceiveState::Processing;
                Action::Echo { text, line: echo_line(text) }
            },
        }
    }

    /// Takes the result of writing a reply and ends the cycle. Whether the
    /// write went well or not, the task then awaits the next read.
    pub fn on_write(&mut self, written: Result<(), WriteError>) -> (done: Completion)
        requires
            old(self).state == ReceiveState::Processing,
        ensures
            final(self).state == ReceiveState::AwaitingData,
            written is Ok ==> done == Completion::Echoed,
            written matches Err(e) ==> done == Completion::ReportWriteError(e),
    {
        self.state = ReceiveState::AwaitingData;
        match written {
            Ok(_) => Completion::Echoed,
            Err(e) => Completion::ReportWriteError(e),
        }
    }
    /// A read that calls for no reply leaves a waiting task as it was. So
    /// does any run of such reads, however long: after a hundred reads of
    /// ill-formed text the task is where it was after none.
    pub proof fn lemma_fruitless_reads_change_nothing(
        self,
        reads: Seq<(Seq<u8>, Result<usize, TransportError>)>,
    )
        requires
            forall|i: int| 0 <= i < reads.len() ==> !calls_for_echo(#[trigger] reads[i].0, reads[i].1),
        ensures
            self.after_reads(reads) == self,
        decreases reads.len(),
    {
        if reads.len() > 0 {
            let rest = reads.drop_first();
            assert(!calls_for_echo(reads[0].0, reads[0].1));
            assert forall|i: int| 0 <= i < rest.len() implies !calls_for_echo(
                #[trigger] rest[i].0,
                rest[i].1,
            ) by {
                assert(rest[i] == reads[i + 1]);
            }
            self.lemma_fruitless_reads_change_nothing(rest);
        }
    }
}

} // verus!
