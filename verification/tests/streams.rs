use git_filter_server::ext::{ByteReader, WriteExt};
use git_filter_server::util::{ReadPktUntilFlush, WritePkt};
use git_filter_server::{Error, ParseError};

fn framed(chunks: &[&[u8]]) -> Vec<u8> {
    let mut writer = WritePkt::new(Vec::new());
    for chunk in chunks {
        assert_eq!(writer.write(chunk), chunk.len());
    }
    let mut wire = writer.close();
    wire.pkt_end();
    wire
}

fn drain(wire: Vec<u8>, buf_len: usize) -> (Vec<u8>, usize) {
    let mut reader = ReadPktUntilFlush::new(ByteReader::new(wire));
    let mut out = Vec::new();
    let mut buf = vec![0u8; buf_len];
    while !reader.finished() {
        let n = reader.read_into(&mut buf).unwrap();
        out.extend_from_slice(&buf[..n]);
    }
    (out, reader.into_inner().available())
}

#[test]
fn writer_holds_back_until_flushed() {
    let mut writer = WritePkt::new(b"0000".to_vec());
    assert_eq!(writer.write(b"abc"), 3);
    assert_eq!(writer.written(), 0);
    assert_eq!(writer.write(b"de"), 2);
    writer.flush();
    assert_eq!(writer.written(), 5);
    assert_eq!(writer.close(), b"00000009abcde".to_vec());
}

#[test]
fn writer_never_writes_a_flush_frame() {
    let mut writer = WritePkt::new(Vec::new());
    writer.flush();
    writer.write(b"");
    writer.flush_buf();
    assert_eq!(writer.written(), 0);
    assert_eq!(writer.close(), Vec::<u8>::new());
}

#[test]
fn close_sends_what_was_held_back() {
    let mut writer = WritePkt::new(Vec::new());
    writer.write(b"xyz");
    assert_eq!(writer.close(), b"0007xyz".to_vec());
}

#[test]
fn writer_sends_a_frame_as_soon_as_it_is_full() {
    let mut writer = WritePkt::new(Vec::new());
    writer.write(&vec![1u8; 65515]);
    assert_eq!(writer.written(), 0);
    writer.write(&[2u8, 3u8]);
    assert_eq!(writer.written(), 65516);
    let wire = writer.close();
    assert_eq!(wire.len(), 65520 + 5);
    assert_eq!(&wire[..4], b"fff0");
    assert_eq!(wire[65519], 2);
    assert_eq!(&wire[65520..], &[b'0', b'0', b'0', b'5', 3u8][..]);
}

#[test]
fn one_large_write_makes_full_frames() {
    let mut writer = WritePkt::new(Vec::new());
    let data = vec![5u8; 2 * 65516 + 10];
    assert_eq!(writer.write(&data), data.len());
    assert_eq!(writer.written(), 2 * 65516);
    let wire = writer.close();
    assert_eq!(wire.len(), 2 * 65520 + 14);
    assert_eq!(&wire[65520..65524], b"fff0");
    assert_eq!(&wire[2 * 65520..2 * 65520 + 4], b"000e");
}

#[test]
fn chunking_of_writes_does_not_show_on_the_wire() {
    let data: Vec<u8> = (0..150_000u32).map(|i| (i % 253) as u8).collect();
    let whole = framed(&[&data]);
    let halves = framed(&[&data[..75_000], &data[75_000..]]);
    let uneven = framed(&[&data[..1], &data[1..65_516], &data[65_516..65_517], &data[65_517..]]);
    let mut by_bytes = WritePkt::new(Vec::new());
    for piece in data.chunks(997) {
        by_bytes.write(piece);
    }
    let mut by_bytes = by_bytes.close();
    by_bytes.pkt_end();
    let mut direct: Vec<u8> = Vec::new();
    direct.pkt_bin_write(&data);
    direct.pkt_end();
    assert_eq!(whole, direct);
    assert_eq!(halves, direct);
    assert_eq!(uneven, direct);
    assert_eq!(by_bytes, direct);
}

#[test]
fn stream_round_trip_with_any_chunking() {
    let data: Vec<u8> = (0..200_000u32).map(|i| (i % 241) as u8).collect();
    let mut wire = framed(&[&data[..10], &data[10..70_000], &data[70_000..]]);
    wire.extend_from_slice(b"next");
    for buf_len in [1usize, 7, 4096, 65516, 100_000, 300_000] {
        if buf_len == 1 {
            continue;
        }
        let (out, left) = drain(wire.clone(), buf_len);
        assert_eq!(out, data);
        assert_eq!(left, 4);
    }
    let (small, left) = drain(framed(&[b"hello ", b"world"]), 1);
    assert_eq!(small, b"hello world".to_vec());
    assert_eq!(left, 0);
}

#[test]
fn empty_stream_round_trip() {
    let wire = framed(&[]);
    assert_eq!(wire, b"0000".to_vec());
    let (out, left) = drain(wire, 16);
    assert!(out.is_empty());
    assert_eq!(left, 0);
}

#[test]
fn reader_serves_one_frame_per_call() {
    let mut reader = ReadPktUntilFlush::new(ByteReader::new(b"0006ab0007cde0000zz".to_vec()));
    let mut buf = [0u8; 8];
    assert!(!reader.finished());
    assert_eq!(reader.read_into(&mut buf), Ok(2));
    assert_eq!(&buf[..2], b"ab");
    assert_eq!(reader.read(), 2);
    assert_eq!(reader.read_into(&mut buf[..2]), Ok(2));
    assert_eq!(&buf[..2], b"cd");
    assert_eq!(reader.read_into(&mut buf), Ok(1));
    assert_eq!(buf[0], b'e');
    assert_eq!(reader.read(), 5);
    assert!(!reader.finished());
    assert_eq!(reader.read_into(&mut buf), Ok(0));
    assert!(reader.finished());
    assert_eq!(reader.read_into(&mut buf), Ok(0));
    assert_eq!(reader.read(), 5);
    assert_eq!(reader.into_inner().available(), 2);
}

#[test]
fn reader_leaves_the_rest_of_the_buffer_alone() {
    let mut reader = ReadPktUntilFlush::new(ByteReader::new(b"0006ab0000".to_vec()));
    let mut buf = [9u8; 4];
    assert_eq!(reader.read_into(&mut buf), Ok(2));
    assert_eq!(buf, [b'a', b'b', 9, 9]);
}

#[test]
fn empty_buffer_reads_nothing_and_does_not_finish() {
    let mut reader = ReadPktUntilFlush::new(ByteReader::new(b"0006ab0000".to_vec()));
    let mut none: [u8; 0] = [];
    assert_eq!(reader.read_into(&mut none), Ok(0));
    assert!(!reader.finished());
    let mut out = Vec::new();
    assert_eq!(reader.read_to_end(&mut out), Ok(2));
    assert_eq!(out, b"ab".to_vec());
    assert!(reader.finished());
}

#[test]
fn reader_passes_errors_on() {
    let mut reader = ReadPktUntilFlush::new(ByteReader::new(b"0006ab00zz0000".to_vec()));
    let mut buf = [0u8; 8];
    assert_eq!(reader.read_into(&mut buf), Ok(2));
    assert_eq!(reader.read_into(&mut buf), Err(Error::Parse(ParseError::BadHexLen)));
    assert!(!reader.finished());
    assert_eq!(reader.read(), 2);
    assert_eq!(reader.into_inner().available(), 4);

    let mut reader = ReadPktUntilFlush::new(ByteReader::new(b"0006ab".to_vec()));
    assert_eq!(reader.read_into(&mut buf), Ok(2));
    assert_eq!(reader.read_into(&mut buf), Err(Error::EndOfStream));

    let mut reader = ReadPktUntilFlush::new(ByteReader::new(b"0006a".to_vec()));
    assert_eq!(reader.read_into(&mut buf), Err(Error::Truncated));
}

#[test]
fn read_to_end_appends_the_whole_payload() {
    let mut reader =
        ReadPktUntilFlush::new(ByteReader::new(b"0006ab0007cde00000005x".to_vec()));
    let mut one = [0u8; 1];
    assert_eq!(reader.read_into(&mut one), Ok(1));
    let mut out = b">".to_vec();
    assert_eq!(reader.read_to_end(&mut out), Ok(4));
    assert_eq!(out, b">bcde".to_vec());
    assert!(reader.finished());
    assert_eq!(reader.read(), 5);
    assert_eq!(reader.read_to_end(&mut out), Ok(0));
    assert_eq!(out, b">bcde".to_vec());
    assert_eq!(reader.into_inner().available(), 5);
}

#[test]
fn read_to_end_reports_the_first_error() {
    let mut reader = ReadPktUntilFlush::new(ByteReader::new(b"0006ab0004cd0000".to_vec()));
    let mut out = Vec::new();
    assert_eq!(reader.read_to_end(&mut out), Err(Error::Parse(ParseError::PacketSizeZero)));
    assert!(!reader.finished());
    assert_eq!(reader.into_inner().available(), 6);

    let mut reader = ReadPktUntilFlush::new(ByteReader::new(b"0006ab".to_vec()));
    assert_eq!(reader.read_to_end(&mut out), Err(Error::EndOfStream));
}

#[test]
fn new_reader_has_delivered_nothing() {
    let reader = ReadPktUntilFlush::new(ByteReader::new(b"0000".to_vec()));
    assert!(!reader.finished());
    assert_eq!(reader.read(), 0);
    let writer = WritePkt::new(b"abc".to_vec());
    assert_eq!(writer.written(), 0);
    assert_eq!(writer.close(), b"abc".to_vec());
}
