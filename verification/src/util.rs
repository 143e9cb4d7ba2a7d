//! Payload streams: a writer that frames a byte stream, and a reader that
//! delivers the payload of consecutive frames up to the next flush frame.

use crate::error::Error;
use crate::ext::{
    flush_pkt,
    flush_round_trip,
    frame,
    frame_round_trip,
    frames,
    frames_concat,
    read_frame,
    ByteReader,
    ReadExt,
    WriteExt,
    MAX_PKT_SIZE,
};
use vstd::prelude::*;

verus! {

/// A byte count that stops at the largest `u64`.
pub open spec fn saturated(n: int) -> int {
    if n > u64::MAX {
        u64::MAX as int
    } else {
        n
    }
}

/// The largest multiple of `MAX_PKT_SIZE` that does not exceed `len`: the
/// payload bytes that fill whole frames.
pub open spec fn full_len(len: nat) -> int {
    (len / (MAX_PKT_SIZE as nat)) * MAX_PKT_SIZE
}

/// What writing `data` does to a writer that has sent `sink` and holds
/// `pending`: the full frames that the bytes held and written make up are
/// sent, and the rest is held back. The result is the new `sink` and the new
/// `pending`.
pub open spec fn write_effect(sink: Seq<u8>, pending: Seq<u8>, data: Seq<u8>) -> (
    Seq<u8>,
    Seq<u8>,
) {
    let all = pending + data;
    let full = full_len(all.len());
    (sink + frames(all.take(full)), all.skip(full))
}

/// Frames what is written to it and appends the frames to a byte sink. It
/// holds back the bytes of a frame that is not yet full, and it never writes
/// a flush frame.
pub struct WritePkt {
    buffer: Vec<u8>,
    write: Vec<u8>,
    written: u64,
}

impl WritePkt {
    /// The writer holds back less than one full frame.
    pub closed spec fn wf(&self) -> bool {
        self.buffer@.len() < MAX_PKT_SIZE
    }

    /// The bytes that the sink has taken.
    pub closed spec fn sink(&self) -> Seq<u8> {
        self.write@
    }

    /// The payload bytes that are held back.
    pub closed spec fn pending(&self) -> Seq<u8> {
        self.buffer@
    }

    /// The number of payload bytes sent to the sink, saturating.
    pub closed spec fn count(&self) -> int {
        self.written as int
    }

    /// A writer on top of `write`, which may hold bytes already.
    pub fn new(write: Vec<u8>) -> (writer: Self)
        ensures
            writer.wf(),
            writer.sink() == write@,
            writer.pending() == Seq::<u8>::empty(),
            writer.count() == 0,
    {
        WritePkt { buffer: Vec::new(), write, written: 0 }
    }

    /// The number of payload bytes sent to the sink so far.
    pub fn written(&self) -> (n: u64)
        ensures
            n == self.count(),
    {
        self.written
    }

    /// Sends what is held back, as frames.
    pub fn flush_buf(&mut self)
        ensures
            final(self).wf(),
            final(self).sink() == old(self).sink() + frames(old(self).pending()),
            final(self).pending() == Seq::<u8>::empty(),
            final(self).count() == saturated(old(self).count() + old(self).pending().len()),
    {
        self.write.pkt_bin_write(self.buffer.as_slice());
        self.written = self.written.saturating_add(self.buffer.len() as u64);
        self.buffer.truncate(0);
    }

    /// Takes all of `buf`. Whenever a full frame has come together it is
    /// sent; what is left is held back until more is written or the writer
    /// is flushed.
    pub fn write(&mut self, buf: &[u8]) -> (n: usize)
        requires
            old(self).wf(),
        ensures
            n == buf@.len(),
            final(self).wf(),
            (final(self).sink(), final(self).pending()) == write_effect(
                old(self).sink(),
                old(self).pending(),
                buf@,
            ),
            final(self).count() == saturated(
                old(self).count() + full_len(old(self).pending().len() + buf@.len()),
            ),
    {
        let ghost all = old(self).buffer@ + buf@;
        let ghost mut k: int = 0;
        let mut done: usize = 0;
        assert(all.take(0) =~= Seq::<u8>::empty());
        assert(self.buffer@ =~= all.subrange(0, old(self).buffer@.len() as int));
        while done < buf.len()
            invariant
                done <= buf@.len(),
                all == old(self).buffer@ + buf@,
                0 <= k,
                old(self).buffer@.len() + done == k * MAX_PKT_SIZE + self.buffer@.len(),
                self.buffer@.len() < MAX_PKT_SIZE,
                self.write@ == old(self).write@ + frames(all.take(k * MAX_PKT_SIZE)),
                self.buffer@ == all.subrange(
                    k * MAX_PKT_SIZE,
                    old(self).buffer@.len() + done,
                ),
                self.written == saturated(old(self).written + k * MAX_PKT_SIZE),
            decreases buf@.len() - done,
        {
            let room: usize = MAX_PKT_SIZE - self.buffer.len();
            let left: usize = buf.len() - done;
            let to_write: usize = if room < left {
                room
            } else {
                left
            };
            let ghost held = self.buffer@;
            self.buffer.extend_from_slice(vstd::slice::slice_subrange(buf, done, done + to_write));
            assert(self.buffer@ =~= held + buf@.subrange(done as int, done + to_write));
            assert(self.buffer@ =~= all.subrange(
                k * MAX_PKT_SIZE,
                old(self).buffer@.len() + done + to_write,
            ));
            done += to_write;
            if self.buffer.len() == MAX_PKT_SIZE {
                proof {
                    let sent = all.take(k * MAX_PKT_SIZE);
                    assert(sent.len() == k * MAX_PKT_SIZE);
                    assert(sent.len() % (MAX_PKT_SIZE as nat) == 0) by (nonlinear_arith)
                        requires
                            sent.len() == k * MAX_PKT_SIZE,
                            0 <= k,
                    ;
                    frames_concat(sent, self.buffer@);
                    assert(sent + self.buffer@ =~= all.take((k + 1) * MAX_PKT_SIZE));
                }
                self.flush_buf();
                proof {
                    k = k + 1;
                    assert(self.buffer@ =~= all.subrange(
                        k * MAX_PKT_SIZE,
                        old(self).buffer@.len() + done,
                    ));
                }
            }
        }
        proof {
            let full = full_len(all.len());
            assert(all.len() == k * MAX_PKT_SIZE + self.buffer@.len());
            assert(all.len() / (MAX_PKT_SIZE as nat) == k) by (nonlinear_arith)
                requires
                    all.len() == k * MAX_PKT_SIZE + self.buffer@.len(),
                    0 <= k,
                    self.buffer@.len() < MAX_PKT_SIZE,
            ;
            assert(self.buffer@ =~= all.skip(full));
        }
        buf.len()
    }

    /// Sends what is held back. The sink is in memory, so nothing else is
    /// left to do.
    pub fn flush(&mut self)
        ensures
            final(self).wf(),
            final(self).sink() == old(self).sink() + frames(old(self).pending()),
            final(self).pending() == Seq::<u8>::empty(),
            final(self).count() == saturated(old(self).count() + old(self).pending().len()),
    {
        self.flush_buf();
    }

    /// Gives the sink back, after sending what was still held back.
    pub fn close(self) -> (sink: Vec<u8>)
        ensures
            sink@ == self.sink() + frames(self.pending()),
    {
        let mut writer = self;
        writer.flush_buf();
        writer.write
    }
}

/// Reading frames from `wire` up to the next flush frame: the payloads of
/// the data frames joined, or the first error met, and the bytes left after
/// the flush frame or the error.
///
/// The definition is opaque to keep proofs about long streams small: a proof
/// that needs it says `reveal(read_payload)`.
#[verifier::opaque]
pub open spec fn read_payload(wire: Seq<u8>) -> (Result<Seq<u8>, Error>, Seq<u8>)
    decreases wire.len(),
{
    let (first, rest) = read_frame(wire);
    match first {
        Err(e) => (Err(e), rest),
        Ok(None) => (Ok(Seq::empty()), rest),
        Ok(Some(payload)) => {
            let (more, after) = read_payload(rest);
            match more {
                Err(e) => (Err(e), after),
                Ok(data) => (Ok(payload + data), after),
            }
        },
    }
}

/// Delivers the payload of consecutive frames of a stream, up to the next
/// flush frame, as one byte stream.
pub struct ReadPktUntilFlush {
    read: ByteReader,
    read_bytes: u64,
    buffer: Vec<u8>,
    offset: usize,
    eof: bool,
}

impl ReadPktUntilFlush {
    /// The reader's position lies inside the frame that it holds, and at
    /// its end once the flush frame was met.
    pub closed spec fn wf(&self) -> bool {
        &&& self.offset <= self.buffer@.len()
        &&& self.eof ==> self.offset == self.buffer@.len()
    }

    /// The bytes of the underlying stream that are not yet taken from it.
    pub closed spec fn source(&self) -> Seq<u8> {
        self.read@
    }

    /// The payload bytes taken from the stream and not yet delivered.
    pub closed spec fn buffered(&self) -> Seq<u8> {
        self.buffer@.skip(self.offset as int)
    }

    /// The flush frame was met.
    pub closed spec fn is_finished(&self) -> bool {
        self.eof
    }

    /// The number of payload bytes delivered, saturating.
    pub closed spec fn count(&self) -> int {
        self.read_bytes as int
    }

    /// The payload that is still to be delivered before the flush frame, or
    /// the error that reading on will meet.
    pub open spec fn unread(&self) -> Result<Seq<u8>, Error> {
        if self.is_finished() {
            Ok(Seq::empty())
        } else {
            match read_payload(self.source()).0 {
                Err(e) => Err(e),
                Ok(data) => Ok(self.buffered() + data),
            }
        }
    }

    /// A reader of the payload that `read` delivers next.
    pub fn new(read: ByteReader) -> (reader: Self)
        ensures
            reader.wf(),
            reader.source() == read@,
            reader.buffered() == Seq::<u8>::empty(),
            !reader.is_finished(),
            reader.count() == 0,
    {
        ReadPktUntilFlush { read, read_bytes: 0, buffer: Vec::new(), offset: 0, eof: false }
    }

    /// Whether the flush frame that ends the payload was met.
    pub fn finished(&self) -> (done: bool)
        ensures
            done == self.is_finished(),
    {
        self.eof
    }

    /// The number of payload bytes delivered so far.
    pub fn read(&self) -> (n: u64)
        ensures
            n == self.count(),
    {
        self.read_bytes
    }

    /// Delivers the next payload bytes into the front of `buf` and returns
    /// how many they are. A call serves bytes of one frame only: those held
    /// from the frame read last, or else those of the frame that it reads
    /// now. It returns 0 at the flush frame, from then on, and for an empty
    /// `buf`.
    pub fn read_into(&mut self, buf: &mut [u8]) -> (r: Result<usize, Error>)
        requires
            old(self).wf(),
        ensures
            final(self).wf(),
            final(buf)@.len() == old(buf)@.len(),
            old(self).is_finished() ==> (r == Ok::<usize, Error>(0) && final(self).is_finished()
                && final(self).source() == old(self).source() && final(self).buffered()
                == Seq::<u8>::empty() && final(buf)@ == old(buf)@),
            !old(self).is_finished() && old(self).buffered().len() > 0 ==> (served(
                r,
                old(self).buffered(),
                old(buf)@,
                final(buf)@,
                final(self).buffered(),
            ) && final(self).source() == old(self).source() && !final(self).is_finished()),
            !old(self).is_finished() && old(self).buffered().len() == 0 ==> (final(self).source()
                == read_frame(old(self).source()).1 && match read_frame(old(self).source()).0 {
                Err(e) => r == Err::<usize, Error>(e) && !final(self).is_finished()
                    && final(buf)@ == old(buf)@ && final(self).buffered() == Seq::<u8>::empty(),
                Ok(None) => r == Ok::<usize, Error>(0) && final(self).is_finished()
                    && final(buf)@ == old(buf)@ && final(self).buffered() == Seq::<u8>::empty(),
                Ok(Some(payload)) => served(
                    r,
                    payload,
                    old(buf)@,
                    final(buf)@,
                    final(self).buffered(),
                ) && !final(self).is_finished(),
            }),
            r is Ok ==> final(self).count() == saturated(old(self).count() + r->Ok_0),
            r is Err ==> final(self).count() == old(self).count(),
            r is Ok && old(self).unread() is Ok ==> final(self).unread() == Ok::<Seq<u8>, Error>(
                old(self).unread()->Ok_0.skip(r->Ok_0 as int),
            ) && final(buf)@.take(r->Ok_0 as int) == old(self).unread()->Ok_0.take(
                r->Ok_0 as int,
            ),
    {
        proof {
            reveal(read_payload);
        }
        if self.eof {
            proof {
                assert(Seq::<u8>::empty().skip(0) =~= Seq::<u8>::empty());
                assert(buf@.take(0) =~= Seq::<u8>::empty().take(0));
            }
            return Ok(0);
        }
        if self.offset == self.buffer.len() {
            let ghost source = self.read@;
            match self.read.pkt_bin_read(&mut self.buffer) {
                Err(e) => {
                    self.buffer.truncate(0);
                    self.offset = 0;
                    return Err(e);
                },
                Ok(None) => {
                    self.eof = true;
                    proof {
                        assert(read_payload(source).0 == Ok::<Seq<u8>, Error>(Seq::empty()));
                        let all = old(self).buffered() + Seq::<u8>::empty();
                        assert(all.skip(0) =~= Seq::<u8>::empty());
                        assert(buf@.take(0) =~= all.take(0));
                    }
                    return Ok(0);
                },
                Ok(Some(_)) => {
                    self.offset = 0;
                    proof {
                        assert(self.buffer@.skip(0) =~= self.buffer@);
                        assert(self.read@.len() < source.len());
                    }
                },
            }
        }
        let n: usize = self.serve(buf);
        proof {
            let chunk = if old(self).buffered().len() > 0 {
                old(self).buffered()
            } else {
                read_frame(old(self).source()).0->Ok_0->Some_0
            };
            if old(self).unread() is Ok {
                let rest_data = read_payload(self.source()).0->Ok_0;
                if old(self).buffered().len() == 0 {
                    assert(old(self).buffered() + (chunk + rest_data) =~= chunk + rest_data);
                }
                assert(old(self).unread()->Ok_0 =~= chunk + rest_data);
                assert((chunk + rest_data).skip(n as int) =~= chunk.skip(n as int) + rest_data);
                assert(buf@.take(n as int) =~= (chunk + rest_data).take(n as int));
            }
        }
        Ok(n)
    }

    /// Hands out bytes of the frame that is held: as many as `buf` takes.
    fn serve(&mut self, buf: &mut [u8]) -> (n: usize)
        requires
            old(self).wf(),
        ensures
            final(self).wf(),
            final(buf)@.len() == old(buf)@.len(),
            served(
                Ok::<usize, Error>(n),
                old(self).buffered(),
                old(buf)@,
                final(buf)@,
                final(self).buffered(),
            ),
            final(self).read == old(self).read,
            final(self).eof == old(self).eof,
            final(self).count() == saturated(old(self).count() + n),
    {
        let avail: usize = self.buffer.len() - self.offset;
        let n: usize = if avail < buf.len() {
            avail
        } else {
            buf.len()
        };
        let start: usize = self.offset;
        let mut i: usize = 0;
        while i < n
            invariant
                i <= n,
                n <= buf@.len(),
                buf@.len() == old(buf)@.len(),
                start == self.offset,
                start + n <= self.buffer@.len() <= usize::MAX,
                self.buffer == old(self).buffer,
                forall|j: int| 0 <= j < i ==> buf@[j] == self.buffer@[start + j],
                forall|j: int| i <= j < buf@.len() ==> buf@[j] == old(buf)@[j],
            decreases n - i,
        {
            buf[i] = self.buffer[start + i];
            i += 1;
        }
        self.offset = start + n;
        self.read_bytes = self.read_bytes.saturating_add(n as u64);
        proof {
            let chunk = old(self).buffered();
            assert(buf@ =~= chunk.take(n as int) + old(buf)@.skip(n as int));
            assert(self.buffer@.skip(self.offset as int) =~= chunk.skip(n as int));
        }
        n
    }

    /// Delivers all the payload that is left, up to the flush frame, by
    /// appending it to `out`, and returns how many bytes that were.
    pub fn read_to_end(&mut self, out: &mut Vec<u8>) -> (r: Result<usize, Error>)
        requires
            old(self).wf(),
        ensures
            final(self).wf(),
            final(self).buffered() == Seq::<u8>::empty(),
            final(self).source() == if old(self).is_finished() {
                old(self).source()
            } else {
                read_payload(old(self).source()).1
            },
            match r {
                Ok(n) => old(self).unread() == Ok::<Seq<u8>, Error>(
                    final(out)@.skip(old(out)@.len() as int),
                ) && final(out)@.take(old(out)@.len() as int) == old(out)@ && n == final(out)@.len()
                    - old(out)@.len() && final(self).is_finished() && final(self).count()
                    == saturated(old(self).count() + n),
                Err(e) => old(self).unread() == Err::<Seq<u8>, Error>(e)
                    && !final(self).is_finished(),
            },
    {
        let before: usize = out.len();
        if self.eof {
            assert(out@.skip(before as int) =~= Seq::<u8>::empty());
            assert(out@.take(before as int) =~= out@);
            return Ok(0);
        }
        out.extend_from_slice(
            vstd::slice::slice_subrange(self.buffer.as_slice(), self.offset, self.buffer.len()),
        );
        self.read_bytes = self.read_bytes.saturating_add((self.buffer.len() - self.offset) as u64);
        self.offset = self.buffer.len();
        let ghost mut taken: Seq<u8> = Seq::empty();
        assert(out@ =~= old(out)@ + old(self).buffered() + taken);
        loop
            invariant
                self.wf(),
                !self.eof,
                !old(self).eof,
                self.offset == self.buffer@.len(),
                before == old(out)@.len(),
                out@ == old(out)@ + old(self).buffered() + taken,
                self.read_bytes == saturated(
                    old(self).read_bytes + old(self).buffered().len() + taken.len(),
                ),
                read_payload(self.read@).1 == read_payload(old(self).read@).1,
                match read_payload(self.read@).0 {
                    Ok(data) => read_payload(old(self).read@).0 == Ok::<Seq<u8>, Error>(
                        taken + data,
                    ),
                    Err(e) => read_payload(old(self).read@).0 == Err::<Seq<u8>, Error>(e),
                },
            decreases self.read@.len(),
        {
            let ghost source = self.read@;
            proof {
                reveal(read_payload);
            }
            match self.read.pkt_bin_read(&mut self.buffer) {
                Err(e) => {
                    self.buffer.truncate(0);
                    self.offset = 0;
                    proof {
                        assert(read_payload(source) == (Err::<Seq<u8>, Error>(e), self.read@));
                    }
                    return Err(e);
                },
                Ok(None) => {
                    self.eof = true;
                    proof {
                        let data = old(self).buffered() + taken;
                        assert(read_payload(source).0 == Ok::<Seq<u8>, Error>(Seq::empty()));
                        assert(taken + Seq::<u8>::empty() =~= taken);
                        assert(out@.skip(before as int) =~= data);
                        assert(out@.take(before as int) =~= old(out)@);
                    }
                    return Ok(out.len() - before);
                },
                Ok(Some(n)) => {
                    out.extend_from_slice(self.buffer.as_slice());
                    self.offset = n;
                    self.read_bytes = self.read_bytes.saturating_add(n as u64);
                    proof {
                        let payload = self.buffer@;
                        assert(self.read@.len() < source.len());
                        match read_payload(self.read@).0 {
                            Ok(data) => {
                                assert(taken + (payload + data) =~= (taken + payload) + data);
                            },
                            Err(e) => {},
                        }
                        assert(old(out)@ + old(self).buffered() + taken + payload =~= old(out)@
                            + old(self).buffered() + (taken + payload));
                        taken = taken + payload;
                    }
                },
            }
        }
    }

    /// Gives the underlying stream back, as far as it was not taken.
    pub fn into_inner(self) -> (read: ByteReader)
        ensures
            read@ == self.source(),
    {
        self.read
    }
}

/// A read that is served from `chunk`: as many bytes as the buffer takes are
/// placed at its front, their number is returned, and the rest of `chunk`
/// is kept for later.
pub open spec fn served(
    r: Result<usize, Error>,
    chunk: Seq<u8>,
    buf_before: Seq<u8>,
    buf_after: Seq<u8>,
    kept: Seq<u8>,
) -> bool {
    let n = if chunk.len() < buf_before.len() {
        chunk.len() as int
    } else {
        buf_before.len() as int
    };
    &&& r == Ok::<usize, Error>(n as usize)
    &&& buf_after == chunk.take(n) + buf_before.skip(n)
    &&& kept == chunk.skip(n)
}

/// What a writer has sent and holds after the writes `chunks`, made one
/// after the other, when it had sent `sink` and held `pending` before.
pub open spec fn write_all(sink: Seq<u8>, pending: Seq<u8>, chunks: Seq<Seq<u8>>) -> (
    Seq<u8>,
    Seq<u8>,
)
    decreases chunks.len(),
{
    if chunks.len() == 0 {
        (sink, pending)
    } else {
        let (sent, held) = write_effect(sink, pending, chunks.first());
        write_all(sent, held, chunks.drop_first())
    }
}

/// The chunks joined in order.
pub open spec fn joined(chunks: Seq<Seq<u8>>) -> Seq<u8>
    decreases chunks.len(),
{
    if chunks.len() == 0 {
        Seq::empty()
    } else {
        chunks.first() + joined(chunks.drop_first())
    }
}

/// However a byte stream is cut into writes, once the writer is flushed the
/// sink has gained the frames of the whole stream.
pub proof fn writes_frame_the_whole(sink: Seq<u8>, pending: Seq<u8>, chunks: Seq<Seq<u8>>)
    requires
        pending.len() < MAX_PKT_SIZE,
    ensures
        write_all(sink, pending, chunks).1.len() < MAX_PKT_SIZE,
        write_all(sink, pending, chunks).0 + frames(write_all(sink, pending, chunks).1) == sink
            + frames(pending + joined(chunks)),
    decreases chunks.len(),
{
    if chunks.len() == 0 {
        assert(pending + joined(chunks) =~= pending);
    } else {
        let all = pending + chunks.first();
        let full = full_len(all.len());
        let k = all.len() / (MAX_PKT_SIZE as nat);
        assert(0 <= full <= all.len() && all.len() - full < MAX_PKT_SIZE && full % (
        MAX_PKT_SIZE as int) == 0) by (nonlinear_arith)
            requires
                full == (all.len() / (MAX_PKT_SIZE as nat)) * MAX_PKT_SIZE,
        ;
        let (sent, held) = write_effect(sink, pending, chunks.first());
        let later = joined(chunks.drop_first());
        writes_frame_the_whole(sent, held, chunks.drop_first());
        frames_concat(all.take(full), held + later);
        assert(all.take(full) + (held + later) =~= pending + joined(chunks));
        assert(sink + frames(all.take(full)) + frames(held + later) =~= sink + (frames(
            all.take(full),
        ) + frames(held + later)));
    }
}

/// Reading on after a data frame: the payload of that frame comes before
/// what the frames behind it deliver.
proof fn read_payload_after_frame(wire: Seq<u8>, payload: Seq<u8>, rest: Seq<u8>)
    requires
        read_frame(wire) == (Ok::<Option<Seq<u8>>, Error>(Some(payload)), rest),
    ensures
        read_payload(wire).1 == read_payload(rest).1,
        read_payload(wire).0 == match read_payload(rest).0 {
            Err(e) => Err::<Seq<u8>, Error>(e),
            Ok(data) => Ok(payload + data),
        },
{
    reveal(read_payload);
    assert(rest.len() < wire.len());
}

/// Content that ends at once: a flush frame reads as no content.
proof fn read_payload_of_flush(rest: Seq<u8>)
    ensures
        read_payload(flush_pkt() + rest) == (Ok::<Seq<u8>, Error>(Seq::empty()), rest),
{
    reveal(read_payload);
    flush_round_trip(rest);
}

/// Content that begins with a frame around `payload`: the payload comes
/// before what the frames behind it deliver.
proof fn read_payload_of_frame(payload: Seq<u8>, after: Seq<u8>)
    requires
        1 <= payload.len() <= MAX_PKT_SIZE,
    ensures
        read_payload(frame(payload) + after).1 == read_payload(after).1,
        read_payload(frame(payload) + after).0 == match read_payload(after).0 {
            Err(e) => Err::<Seq<u8>, Error>(e),
            Ok(data) => Ok(payload + data),
        },
{
    frame_round_trip(payload, after);
    read_payload_after_frame(frame(payload) + after, payload, after);
}

/// What the writer frames, the reader delivers: the frames of `data`, then
/// a flush frame, then anything, read as `data` and leave what followed the
/// flush frame.
pub proof fn payload_round_trip(data: Seq<u8>, rest: Seq<u8>)
    ensures
        read_payload(frames(data) + flush_pkt() + rest) == (Ok::<Seq<u8>, Error>(data), rest),
    decreases data.len(),
{
    let end = flush_pkt() + rest;
    if data.len() == 0 {
        read_payload_of_flush(rest);
        assert(frames(data) + flush_pkt() + rest =~= end);
        assert(data =~= Seq::<u8>::empty());
    } else {
        let head = if data.len() <= MAX_PKT_SIZE {
            data
        } else {
            data.take(MAX_PKT_SIZE as int)
        };
        let tail = if data.len() <= MAX_PKT_SIZE {
            Seq::<u8>::empty()
        } else {
            data.skip(MAX_PKT_SIZE as int)
        };
        let after = frames(tail) + flush_pkt() + rest;
        payload_round_trip(tail, rest);
        read_payload_of_frame(head, after);
        assert(head + tail =~= data);
        assert(frames(data) == frame(head) + frames(tail)) by {
            assert(frame(head) + Seq::<u8>::empty() =~= frame(head));
        }
        let wire = frames(data) + flush_pkt() + rest;
        assert(wire == frame(head) + after) by {
            assert(frame(head) + frames(tail) + flush_pkt() + rest =~= frame(head) + (frames(tail)
                + flush_pkt() + rest));
        }
    }
}

/// A byte stream that goes through the writer, cut into writes in any way,
/// and is closed with a flush frame, comes out of the reader unchanged.
pub proof fn stream_round_trip(chunks: Seq<Seq<u8>>, rest: Seq<u8>)
    ensures
        read_payload(
            write_all(Seq::empty(), Seq::empty(), chunks).0 + frames(
                write_all(Seq::empty(), Seq::empty(), chunks).1,
            ) + flush_pkt() + rest,
        ) == (Ok::<Seq<u8>, Error>(joined(chunks)), rest),
{
    writes_frame_the_whole(Seq::empty(), Seq::empty(), chunks);
    assert(Seq::<u8>::empty() + joined(chunks) =~= joined(chunks));
    assert(Seq::<u8>::empty() + frames(joined(chunks)) =~= frames(joined(chunks)));
    payload_round_trip(joined(chunks), rest);
}

/// Reading content takes at least its flush frame.
pub proof fn read_payload_consumes(wire: Seq<u8>)
    ensures
        read_payload(wire).1.len() <= wire.len(),
        read_payload(wire).0 is Ok ==> read_payload(wire).1.len() < wire.len(),
    decreases wire.len(),
{
    reveal(read_payload);
    let (first, rest) = read_frame(wire);
    if first is Ok && first->Ok_0 is Some {
        read_payload_consumes(rest);
    }
}

} // verus!
