//! The pkt-line codec: frames of a four-digit hex length and a payload, and
//! the flush frame `0000`.

use crate::error::{Error, ParseError};
use vstd::prelude::*;
use vstd::string::StringSliceAdditionalSpecFns;
use vstd::utf8::{decode_utf8, encode_utf8, valid_utf8};

verus! {

/// The most payload bytes that one frame carries.
pub const MAX_PKT_SIZE: usize = 65516;

/// The value of an ASCII hex digit of either case, `None` for any other byte.
pub open spec fn hex_digit_value(c: u8) -> Option<int> {
    if 0x30 <= c <= 0x39 {
        Some(c - 0x30)
    } else if 0x61 <= c <= 0x66 {
        Some(c - 0x61 + 10)
    } else if 0x41 <= c <= 0x46 {
        Some(c - 0x41 + 10)
    } else {
        None
    }
}

/// Every byte of `digits` is a hex digit.
pub open spec fn all_hex_digits(digits: Seq<u8>) -> bool {
    forall|i: int| 0 <= i < digits.len() ==> (#[trigger] hex_digit_value(digits[i])) is Some
}

/// The bytes that an even number of hex digits spell, two digits to a byte.
pub open spec fn hex_to_bytes(digits: Seq<u8>) -> Seq<u8> {
    Seq::new(
        (digits.len() / 2) as nat,
        |i: int|
            (16 * hex_digit_value(digits[2 * i])->0 + hex_digit_value(digits[2 * i + 1])->0) as u8,
    )
}

/// The lower-case ASCII digit for a value below 16.
pub open spec fn lower_hex_digit(v: int) -> u8 {
    if v < 10 {
        (0x30 + v) as u8
    } else {
        (0x57 + v) as u8
    }
}

/// The lower-case hex digits that spell `bytes`, two digits to a byte.
pub open spec fn bytes_to_hex(bytes: Seq<u8>) -> Seq<u8> {
    Seq::new(
        2 * bytes.len(),
        |i: int|
            if i % 2 == 0 {
                lower_hex_digit(bytes[i / 2] as int / 16)
            } else {
                lower_hex_digit(bytes[i / 2] as int % 16)
            },
    )
}

/// Declares `hex::FromHexError`, the error of the `hex` crate, as a type
/// whose values are passed on unread.
#[verifier::external_type_specification]
#[verifier::external_body]
pub struct ExFromHexError(hex::FromHexError);

/// `hex::decode_to_slice`, not verified here. It succeeds exactly when `data`
/// holds two hex digits, of either case, for each byte of `out`, and then
/// `out` holds the bytes they spell. When it fails, `out` keeps its length.
#[verifier::external_body]
fn decode_to_slice(data: &[u8], out: &mut [u8]) -> (r: Result<(), hex::FromHexError>)
    ensures
        final(out)@.len() == old(out)@.len(),
        r is Ok <==> (data@.len() == 2 * old(out)@.len() && all_hex_digits(data@)),
        r is Ok ==> final(out)@ == hex_to_bytes(data@),
{
    hex::decode_to_slice(data, out)
}

/// `hex::encode_to_slice`, not verified here. It succeeds exactly when
/// `output` has room for two digits per byte of `input`, and then `output`
/// holds the lower-case digits. When it fails, `output` keeps its length.
#[verifier::external_body]
fn encode_to_slice(input: &[u8], output: &mut [u8]) -> (r: Result<(), hex::FromHexError>)
    ensures
        final(output)@.len() == old(output)@.len(),
        r is Ok <==> 2 * input@.len() == old(output)@.len(),
        r is Ok ==> final(output)@ == bytes_to_hex(input@),
{
    hex::encode_to_slice(input, output)
}

/// The number that four hex digits spell, most significant digit first.
pub open spec fn header_value(header: Seq<u8>) -> int {
    4096 * hex_digit_value(header[0])->0 + 256 * hex_digit_value(header[1])->0 + 16
        * hex_digit_value(header[2])->0 + hex_digit_value(header[3])->0
}

/// The four lower-case hex digits that spell `total`, a number below 65536.
pub open spec fn header_digits(total: int) -> Seq<u8> {
    seq![
        lower_hex_digit(total / 4096),
        lower_hex_digit((total / 256) % 16),
        lower_hex_digit((total / 16) % 16),
        lower_hex_digit(total % 16),
    ]
}

/// What a length header announces: `Ok(None)` for the flush frame,
/// `Ok(Some(n))` for a frame of `n` payload bytes, or the reason why the
/// header is refused.
pub open spec fn header_meaning(header: Seq<u8>) -> Result<Option<int>, ParseError> {
    if header.len() != 4 || !all_hex_digits(header) {
        Err(ParseError::BadHexLen)
    } else if header_value(header) == 0 {
        Ok(None)
    } else if header_value(header) < 4 {
        Err(ParseError::PacketSizeBelowHeader)
    } else if header_value(header) - 4 > MAX_PKT_SIZE {
        Err(ParseError::MaxPacketSizeExceeded)
    } else if header_value(header) == 4 {
        Err(ParseError::PacketSizeZero)
    } else {
        Ok(Some(header_value(header) - 4))
    }
}

/// Reads a length header: the payload length that it announces, `None` for a
/// flush frame, or the parse error that it causes.
pub fn parse_header(header: &[u8]) -> (r: Result<Option<usize>, ParseError>)
    ensures
        match r {
            Ok(Some(n)) => header_meaning(header@) == Ok::<Option<int>, ParseError>(
                Some(n as int),
            ),
            Ok(None) => header_meaning(header@) == Ok::<Option<int>, ParseError>(None),
            Err(e) => header_meaning(header@) == Err::<Option<int>, ParseError>(e),
        },
{
    let mut len_bytes = [0u8;2];
    if decode_to_slice(header, &mut len_bytes).is_err() {
        return Err(ParseError::BadHexLen);
    }
    let len: usize = (len_bytes[0] as usize) * 256 + (len_bytes[1] as usize);
    assert(len == header_value(header@));
    if len == 0 {
        return Ok(None);
    }
    if len < 4 {
        return Err(ParseError::PacketSizeBelowHeader);
    }
    let len: usize = len - 4;
    if len > MAX_PKT_SIZE {
        Err(ParseError::MaxPacketSizeExceeded)
    } else if len == 0 {
        Err(ParseError::PacketSizeZero)
    } else {
        Ok(Some(len))
    }
}

/// The two bytes of a 16-bit number spell, as hex digits, the four digits of
/// the number.
proof fn lemma_header_digits(total: usize)
    requires
        total < 65536,
    ensures
        bytes_to_hex(seq![(total / 256) as u8, (total % 256) as u8]) == header_digits(
            total as int,
        ),
{
    let t: u32 = total as u32;
    assert((t / 256) / 16 == t / 4096 && (t % 256) / 16 == (t / 16) % 16 && (t % 256) % 16 == t
        % 16 && t / 256 < 256) by (bit_vector)
        requires
            t < 65536,
    ;
    let bytes: Seq<u8> = seq![(total / 256) as u8, (total % 256) as u8];
    let digits = bytes_to_hex(bytes);
    assert(digits.len() == 4);
    assert(digits[0] == lower_hex_digit(bytes[0] as int / 16));
    assert(digits[1] == lower_hex_digit(bytes[0] as int % 16));
    assert(digits[2] == lower_hex_digit(bytes[1] as int / 16));
    assert(digits[3] == lower_hex_digit(bytes[1] as int % 16));
    assert(digits =~= header_digits(total as int));
}

/// Writes the length header of a frame with `payload_len` payload bytes.
fn frame_header(payload_len: usize) -> (header: [u8; 4])
    requires
        payload_len <= MAX_PKT_SIZE,
    ensures
        header@ == header_digits(payload_len + 4),
{
    let total: usize = payload_len + 4;
    let len_bytes: [u8; 2] = [(total / 256) as u8, (total % 256) as u8];
    let mut len_hex = [0u8;4];
    let encoded = encode_to_slice(&len_bytes, &mut len_hex);
    proof {
        assert(encoded is Ok);
        assert(len_bytes@ =~= seq![(total / 256) as u8, (total % 256) as u8]);
        lemma_header_digits(total);
    }
    len_hex
}

/// The flush frame `0000`.
pub open spec fn flush_pkt() -> Seq<u8> {
    seq![0x30u8, 0x30u8, 0x30u8, 0x30u8]
}

/// One frame: the header for `payload`, then `payload`.
pub open spec fn frame(payload: Seq<u8>) -> Seq<u8> {
    header_digits(payload.len() as int + 4) + payload
}

/// The frames that carry `data`: every frame is full but the last, and no
/// frame is written for no data.
pub open spec fn frames(data: Seq<u8>) -> Seq<u8>
    decreases data.len(),
{
    if data.len() == 0 {
        Seq::empty()
    } else if data.len() <= MAX_PKT_SIZE {
        frame(data)
    } else {
        frame(data.take(MAX_PKT_SIZE as int)) + frames(data.skip(MAX_PKT_SIZE as int))
    }
}

/// The payload of a text frame: the UTF-8 bytes of `text` and a newline.
pub open spec fn text_line(text: Seq<char>) -> Seq<u8> {
    encode_utf8(text) + seq![0x0au8]
}

/// The frames that carry `text` as a line.
pub open spec fn text_frames(text: Seq<char>) -> Seq<u8> {
    frames(text_line(text))
}

/// Reading one frame from `wire`: what is read, and the bytes left after it.
/// `Ok(None)` is the flush frame, `Ok(Some(payload))` a data frame. A refused
/// header costs its four bytes and no more. Input that ends where the frame
/// would begin is `EndOfStream`; input that ends inside the frame is
/// `Truncated` and leaves nothing.
pub open spec fn read_frame(wire: Seq<u8>) -> (Result<Option<Seq<u8>>, Error>, Seq<u8>) {
    if wire.len() == 0 {
        (Err(Error::EndOfStream), wire)
    } else if wire.len() < 4 {
        (Err(Error::Truncated), Seq::empty())
    } else {
        match header_meaning(wire.take(4)) {
            Err(e) => (Err(Error::Parse(e)), wire.skip(4)),
            Ok(None) => (Ok(None), wire.skip(4)),
            Ok(Some(n)) => if wire.len() - 4 < n {
                (Err(Error::Truncated), Seq::empty())
            } else {
                (Ok(Some(wire.subrange(4, 4 + n))), wire.skip(4 + n))
            },
        }
    }
}

/// The text that a data frame carries: its payload without the closing
/// newline, decoded, or the reason why it is no text.
pub open spec fn payload_text(payload: Seq<u8>) -> Result<Seq<char>, ParseError> {
    if payload.len() == 0 || payload.last() != 0x0au8 {
        Err(ParseError::MissingNewline)
    } else if !valid_utf8(payload.drop_last()) {
        Err(ParseError::BadUtf8)
    } else {
        Ok(decode_utf8(payload.drop_last()))
    }
}

/// Reading one text frame from `wire`: the line without its newline, `None`
/// for the flush frame, and the bytes left after the frame.
pub open spec fn read_text(wire: Seq<u8>) -> (Result<Option<Seq<char>>, Error>, Seq<u8>) {
    let (frame, rest) = read_frame(wire);
    match frame {
        Err(e) => (Err(e), rest),
        Ok(None) => (Ok(None), rest),
        Ok(Some(payload)) => match payload_text(payload) {
            Err(e) => (Err(Error::Parse(e)), rest),
            Ok(text) => (Ok(Some(text)), rest),
        },
    }
}

/// Declares `core::str::Utf8Error` as a type whose values are passed on
/// unread.
#[verifier::external_type_specification]
#[verifier::external_body]
pub struct ExUtf8Error(core::str::Utf8Error);

/// `core::str::from_utf8`, not verified here. It succeeds exactly on valid
/// UTF-8, and the string it returns is made of the bytes it was given.
#[verifier::external_body]
fn from_utf8(bytes: &[u8]) -> (r: Result<&str, core::str::Utf8Error>)
    ensures
        r is Ok <==> valid_utf8(bytes@),
        r is Ok ==> r->Ok_0.spec_bytes() == bytes@,
{
    core::str::from_utf8(bytes)
}

/// An input stream held in memory: bytes that were supplied and are not yet
/// read. Its view is those bytes.
pub struct ByteReader {
    data: Vec<u8>,
    pos: usize,
}

impl View for ByteReader {
    type V = Seq<u8>;

    closed spec fn view(&self) -> Seq<u8> {
        self.data@.skip(self.pos as int)
    }
}

impl ByteReader {
    #[verifier::type_invariant]
    spec fn well_formed(&self) -> bool {
        self.pos <= self.data@.len()
    }

    /// A stream that will deliver `data`.
    pub fn new(data: Vec<u8>) -> (reader: Self)
        ensures
            reader@ == data@,
    {
        ByteReader { data, pos: 0 }
    }

    /// The number of bytes that are still unread.
    pub fn available(&self) -> (n: usize)
        ensures
            n == self@.len(),
    {
        proof {
            use_type_invariant(self);
        }
        self.data.len() - self.pos
    }

    /// Fills `buf` with the next bytes. If fewer bytes are left than `buf`
    /// holds, the call fails with `Truncated` and the stream is left empty.
    pub fn read_exact(&mut self, buf: &mut [u8]) -> (r: Result<(), Error>)
        ensures
            final(buf)@.len() == old(buf)@.len(),
            old(self)@.len() >= old(buf)@.len() ==> r is Ok && final(buf)@ == old(self)@.take(
                old(buf)@.len() as int,
            ) && final(self)@ == old(self)@.skip(old(buf)@.len() as int),
            old(self)@.len() < old(buf)@.len() ==> r == Err::<(), Error>(Error::Truncated)
                && final(self)@ == Seq::<u8>::empty(),
    {
        proof {
            use_type_invariant(&*self);
        }
        let n: usize = buf.len();
        if self.data.len() - self.pos < n {
            self.pos = self.data.len();
            return Err(Error::Truncated);
        }
        let start: usize = self.pos;
        let mut i: usize = 0;
        while i < n
            invariant
                i <= n,
                n == buf@.len(),
                start == self.pos,
                start + n <= self.data@.len() <= usize::MAX,
                self.data == old(self).data,
                forall|j: int| 0 <= j < i ==> buf@[j] == self.data@[start + j],
            decreases n - i,
        {
            buf[i] = self.data[start + i];
            i += 1;
        }
        self.pos = start + n;
        assert(buf@ =~= old(self)@.take(n as int));
        assert(self@ =~= old(self)@.skip(n as int));
        Ok(())
    }
}

/// Reading pkt-line frames from a stream.
pub trait ReadExt {
    /// The bytes that the stream has still to deliver.
    spec fn unread(&self) -> Seq<u8>;

    /// Reads one frame. For a data frame the payload is placed in `out`, which
    /// is resized to it, and its length is returned; for the flush frame
    /// `None` is returned and `out` is left as it was.
    fn pkt_bin_read(&mut self, out: &mut Vec<u8>) -> (r: Result<Option<usize>, Error>)
        ensures
            final(self).unread() == read_frame(old(self).unread()).1,
            match r {
                Ok(Some(n)) => read_frame(old(self).unread()).0 == Ok::<Option<Seq<u8>>, Error>(
                    Some(final(out)@),
                ) && n == final(out)@.len(),
                Ok(None) => read_frame(old(self).unread()).0 == Ok::<Option<Seq<u8>>, Error>(None)
                    && final(out)@ == old(out)@,
                Err(e) => read_frame(old(self).unread()).0 == Err::<Option<Seq<u8>>, Error>(e),
            },
    ;

    /// Reads one text frame and returns its line without the newline, or
    /// `None` for the flush frame. `out` serves as the buffer for the payload:
    /// after a line was read it holds the line and its newline, and after a
    /// flush frame it is as it was.
    fn pkt_text_read(&mut self, out: &mut Vec<u8>) -> (r: Result<Option<String>, Error>)
        ensures
            final(self).unread() == read_text(old(self).unread()).1,
            match r {
                Ok(Some(text)) => read_text(old(self).unread()).0 == Ok::<
                    Option<Seq<char>>,
                    Error,
                >(Some(text@)) && final(out)@ == text_line(text@),
                Ok(None) => read_text(old(self).unread()).0 == Ok::<Option<Seq<char>>, Error>(
                    None,
                ) && final(out)@ == old(out)@,
                Err(e) => read_text(old(self).unread()).0 == Err::<Option<Seq<char>>, Error>(e),
            },
    ;
}

impl ReadExt for ByteReader {
    open spec fn unread(&self) -> Seq<u8> {
        self@
    }

    fn pkt_bin_read(&mut self, out: &mut Vec<u8>) -> (r: Result<Option<usize>, Error>) {
        if self.available() == 0 {
            return Err(Error::EndOfStream);
        }
        let mut len_hex = [0u8;4];
        self.read_exact(&mut len_hex)?;
        let len: usize = match parse_header(&len_hex) {
            Err(e) => {
                return Err(Error::Parse(e));
            },
            Ok(None) => {
                return Ok(None);
            },
            Ok(Some(len)) => len,
        };
        out.resize(len, 0);
        self.read_exact(out.as_mut_slice())?;
        assert(out@ =~= old(self)@.subrange(4, 4 + len));
        assert(self@ =~= old(self)@.skip(4 + len));
        Ok(Some(len))
    }

    fn pkt_text_read(&mut self, out: &mut Vec<u8>) -> (r: Result<Option<String>, Error>) {
        let len: usize = match self.pkt_bin_read(out)? {
            None => {
                return Ok(None);
            },
            Some(len) => len,
        };
        if out[len - 1] != 0x0a {
            return Err(Error::Parse(ParseError::MissingNewline));
        }
        let line = vstd::slice::slice_subrange(out.as_slice(), 0, len - 1);
        assert(line@ =~= out@.drop_last());
        match from_utf8(line) {
            Err(_) => Err(Error::Parse(ParseError::BadUtf8)),
            Ok(text) => {
                proof {
                    vstd::utf8::encode_utf8_decode_utf8(text@);
                    assert(out@ =~= text_line(text@));
                }
                Ok(Some(text.to_owned()))
            },
        }
    }
}

/// Writing pkt-line frames to a stream.
pub trait WriteExt {
    /// The bytes that the stream has taken so far.
    spec fn written(&self) -> Seq<u8>;

    /// Writes `data` as frames of at most `MAX_PKT_SIZE` payload bytes each;
    /// writes nothing for no data.
    fn pkt_bin_write(&mut self, data: &[u8])
        ensures
            final(self).written() == old(self).written() + frames(data@),
    ;

    /// Writes `data` and a newline as frames.
    fn pkt_text_write(&mut self, data: &str)
        ensures
            final(self).written() == old(self).written() + text_frames(data@),
    ;

    /// Writes the flush frame.
    fn pkt_end(&mut self)
        ensures
            final(self).written() == old(self).written() + flush_pkt(),
    ;
}

impl WriteExt for Vec<u8> {
    open spec fn written(&self) -> Seq<u8> {
        self@
    }

    fn pkt_bin_write(&mut self, data: &[u8]) {
        let mut start: usize = 0;
        assert(data@.skip(0) =~= data@);
        while start < data.len()
            invariant
                start <= data@.len(),
                self@ + frames(data@.skip(start as int)) == old(self)@ + frames(data@),
            decreases data@.len() - start,
        {
            let left: usize = data.len() - start;
            let n: usize = if left < MAX_PKT_SIZE {
                left
            } else {
                MAX_PKT_SIZE
            };
            let chunk = vstd::slice::slice_subrange(data, start, start + n);
            let header = frame_header(n);
            let ghost before = self@;
            self.extend_from_slice(&header);
            self.extend_from_slice(chunk);
            proof {
                let rest = data@.skip(start as int);
                assert(chunk@ =~= rest.take(n as int));
                assert(self@ =~= before + frame(chunk@));
                assert(data@.skip(start + n) =~= rest.skip(n as int));
                if left <= MAX_PKT_SIZE {
                    assert(rest.take(n as int) =~= rest);
                    assert(frames(rest.skip(n as int)) =~= Seq::<u8>::empty());
                }
                assert(frames(rest) =~= frame(chunk@) + frames(rest.skip(n as int)));
            }
            start += n;
        }
        assert(frames(data@.skip(start as int)) =~= Seq::<u8>::empty());
    }

    fn pkt_text_write(&mut self, data: &str) {
        let mut line: Vec<u8> = Vec::new();
        line.extend_from_slice(data.as_bytes());
        line.push(0x0a);
        assert(line@ =~= text_line(data@));
        self.pkt_bin_write(line.as_slice());
    }

    fn pkt_end(&mut self) {
        let ghost before = self@;
        self.push(0x30);
        self.push(0x30);
        self.push(0x30);
        self.push(0x30);
        assert(self@ =~= before + flush_pkt());
    }
}

/// A header written for a number below 65536 is made of hex digits and
/// spells that number.
pub proof fn header_round_trip(total: int)
    requires
        0 <= total < 65536,
    ensures
        header_digits(total).len() == 4,
        all_hex_digits(header_digits(total)),
        header_value(header_digits(total)) == total,
{
    let t: u32 = total as u32;
    assert(t / 4096 < 16 && (t / 256) % 16 < 16 && (t / 16) % 16 < 16 && t % 16 < 16 && 4096 * (t
        / 4096) + 256 * ((t / 256) % 16) + 16 * ((t / 16) % 16) + t % 16 == t) by (bit_vector)
        requires
            t < 65536,
    ;
    let digits = header_digits(total);
    assert(hex_digit_value(digits[0]) == Some(total / 4096));
    assert(hex_digit_value(digits[1]) == Some((total / 256) % 16));
    assert(hex_digit_value(digits[2]) == Some((total / 16) % 16));
    assert(hex_digit_value(digits[3]) == Some(total % 16));
}

/// Encoding then decoding one frame gives the payload back: a frame around
/// 1 to `MAX_PKT_SIZE` bytes, followed by anything, reads as that payload and
/// leaves what followed.
pub proof fn frame_round_trip(payload: Seq<u8>, rest: Seq<u8>)
    requires
        1 <= payload.len() <= MAX_PKT_SIZE,
    ensures
        read_frame(frame(payload) + rest) == (
            Ok::<Option<Seq<u8>>, Error>(Some(payload)),
            rest,
        ),
{
    let total = payload.len() as int + 4;
    header_round_trip(total);
    let wire = frame(payload) + rest;
    assert(wire.take(4) =~= header_digits(total));
    assert(wire.subrange(4, total) =~= payload);
    assert(wire.skip(total) =~= rest);
}

/// The flush frame, followed by anything, reads as a flush and leaves what
/// followed.
pub proof fn flush_round_trip(rest: Seq<u8>)
    ensures
        read_frame(flush_pkt() + rest) == (Ok::<Option<Seq<u8>>, Error>(None), rest),
{
    let wire = flush_pkt() + rest;
    assert(wire.take(4) =~= flush_pkt());
    assert(wire.skip(4) =~= rest);
    assert(header_value(flush_pkt()) == 0);
}

/// Writing a line then reading it gives the line back, as long as the line
/// and its newline fit in one frame.
pub proof fn text_round_trip(text: Seq<char>, rest: Seq<u8>)
    requires
        encode_utf8(text).len() < MAX_PKT_SIZE,
    ensures
        read_text(text_frames(text) + rest) == (
            Ok::<Option<Seq<char>>, Error>(Some(text)),
            rest,
        ),
{
    let line = text_line(text);
    frame_round_trip(line, rest);
    assert(line.drop_last() =~= encode_utf8(text));
    vstd::utf8::encode_utf8_valid_utf8(text);
    vstd::utf8::encode_utf8_decode_utf8(text);
}

/// A header with a byte that is no hex digit is a parse error, and reading
/// it takes the four header bytes and nothing after them.
pub proof fn non_hex_header_is_refused(wire: Seq<u8>, i: int)
    requires
        wire.len() >= 4,
        0 <= i < 4,
        hex_digit_value(wire[i]) is None,
    ensures
        read_frame(wire) == (
            Err::<Option<Seq<u8>>, Error>(Error::Parse(ParseError::BadHexLen)),
            wire.skip(4),
        ),
{
    assert(wire.take(4)[i] == wire[i]);
}

/// A header that announces 1, 2, 3 or 4 bytes is a parse error, and reading
/// it takes the four header bytes and nothing after them.
pub proof fn short_length_is_refused(wire: Seq<u8>)
    requires
        wire.len() >= 4,
        all_hex_digits(wire.take(4)),
        1 <= header_value(wire.take(4)) <= 4,
    ensures
        read_frame(wire).0 is Err,
        read_frame(wire).0->Err_0 is Parse,
        read_frame(wire).1 == wire.skip(4),
{
}

/// A header that announces more than `MAX_PKT_SIZE` payload bytes is a parse
/// error, and reading it takes the four header bytes and nothing after them.
pub proof fn oversized_length_is_refused(wire: Seq<u8>)
    requires
        wire.len() >= 4,
        all_hex_digits(wire.take(4)),
        header_value(wire.take(4)) > MAX_PKT_SIZE + 4,
    ensures
        read_frame(wire) == (
            Err::<Option<Seq<u8>>, Error>(Error::Parse(ParseError::MaxPacketSizeExceeded)),
            wire.skip(4),
        ),
{
}

/// Frames are cut at multiples of `MAX_PKT_SIZE`: behind data whose length
/// is such a multiple, more data is framed as if it stood alone.
pub proof fn frames_concat(a: Seq<u8>, b: Seq<u8>)
    requires
        a.len() % (MAX_PKT_SIZE as nat) == 0,
    ensures
        frames(a + b) == frames(a) + frames(b),
    decreases a.len(),
{
    let max = MAX_PKT_SIZE as int;
    if a.len() == 0 {
        assert(a + b =~= b);
        assert(frames(a) + frames(b) =~= frames(b));
    } else if b.len() == 0 {
        assert(a + b =~= a);
        assert(frames(a) + frames(b) =~= frames(a));
    } else {
        assert(a.len() >= max);
        let tail = a.skip(max);
        assert((a + b).take(max) =~= a.take(max));
        assert((a + b).skip(max) =~= tail + b);
        assert(tail.len() % (MAX_PKT_SIZE as nat) == 0);
        frames_concat(tail, b);
        if a.len() == max {
            assert(a.take(max) =~= a);
            assert(frames(tail) =~= Seq::<u8>::empty());
        }
        assert(frames(a) =~= frame(a.take(max)) + frames(tail));
        assert(frames(a + b) =~= frame(a.take(max)) + (frames(tail) + frames(b)));
        assert(frame(a.take(max)) + (frames(tail) + frames(b)) =~= frames(a) + frames(b));
    }
}

} // verus!
