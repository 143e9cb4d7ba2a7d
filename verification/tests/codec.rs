use git_filter_server::ext::{parse_header, ByteReader, ReadExt, WriteExt, MAX_PKT_SIZE};
use git_filter_server::{Error, ParseError};

fn read_one(wire: &[u8]) -> (Result<Option<usize>, Error>, Vec<u8>, usize) {
    let mut reader = ByteReader::new(wire.to_vec());
    let mut buf = Vec::new();
    let r = reader.pkt_bin_read(&mut buf);
    (r, buf, reader.available())
}

fn read_line(wire: &[u8]) -> (Result<Option<String>, Error>, usize) {
    let mut reader = ByteReader::new(wire.to_vec());
    let mut buf = Vec::new();
    let r = reader.pkt_text_read(&mut buf);
    (r, reader.available())
}

#[test]
fn max_pkt_size_is_65516() {
    assert_eq!(MAX_PKT_SIZE, 65516);
}

#[test]
fn binary_frame_is_header_and_payload() {
    let mut wire: Vec<u8> = Vec::new();
    wire.pkt_bin_write(b"hi");
    assert_eq!(wire, b"0006hi".to_vec());
}

#[test]
fn binary_write_appends_to_what_is_there() {
    let mut wire: Vec<u8> = b"xy".to_vec();
    wire.pkt_bin_write(b"abc");
    assert_eq!(wire, b"xy0007abc".to_vec());
}

#[test]
fn header_digits_are_lower_case() {
    let mut wire: Vec<u8> = Vec::new();
    wire.pkt_bin_write(&[7u8; 0xab - 4]);
    assert_eq!(&wire[..4], b"00ab");
    assert_eq!(wire.len(), 0xab);
}

#[test]
fn empty_data_writes_nothing() {
    let mut wire: Vec<u8> = Vec::new();
    wire.pkt_bin_write(b"");
    assert!(wire.is_empty());
}

#[test]
fn full_frame_has_header_fff0() {
    let data = vec![b'a'; 65516];
    let mut wire: Vec<u8> = Vec::new();
    wire.pkt_bin_write(&data);
    assert_eq!(wire.len(), 65520);
    assert_eq!(&wire[..4], b"fff0");
    assert_eq!(&wire[4..], &data[..]);
}

#[test]
fn long_data_is_cut_into_frames() {
    let mut data = vec![b'a'; 65516];
    data.push(b'b');
    let mut wire: Vec<u8> = Vec::new();
    wire.pkt_bin_write(&data);
    assert_eq!(wire.len(), 65520 + 5);
    assert_eq!(&wire[..4], b"fff0");
    assert_eq!(&wire[65520..], b"0005b");
}

#[test]
fn flush_is_four_zeros() {
    let mut wire: Vec<u8> = Vec::new();
    wire.pkt_end();
    assert_eq!(wire, b"0000".to_vec());
}

#[test]
fn text_frame_ends_with_newline() {
    let mut wire: Vec<u8> = Vec::new();
    wire.pkt_text_write("hello");
    assert_eq!(wire, b"000ahello\n".to_vec());
}

#[test]
fn binary_frame_round_trip() {
    let mut wire: Vec<u8> = Vec::new();
    wire.pkt_bin_write(b"hi");
    wire.extend_from_slice(b"rest");
    let (r, buf, left) = read_one(&wire);
    assert_eq!(r, Ok(Some(2)));
    assert_eq!(buf, b"hi".to_vec());
    assert_eq!(left, 4);
}

#[test]
fn largest_frame_round_trip() {
    let data: Vec<u8> = (0..65516u32).map(|i| (i % 251) as u8).collect();
    let mut wire: Vec<u8> = Vec::new();
    wire.pkt_bin_write(&data);
    let (r, buf, left) = read_one(&wire);
    assert_eq!(r, Ok(Some(65516)));
    assert_eq!(buf, data);
    assert_eq!(left, 0);
}

#[test]
fn read_resizes_the_buffer() {
    let mut reader = ByteReader::new(b"0006hi0005x".to_vec());
    let mut buf = vec![9u8; 10];
    assert_eq!(reader.pkt_bin_read(&mut buf), Ok(Some(2)));
    assert_eq!(buf, b"hi".to_vec());
    assert_eq!(reader.pkt_bin_read(&mut buf), Ok(Some(1)));
    assert_eq!(buf, b"x".to_vec());
}

#[test]
fn flush_reads_as_none_and_keeps_the_buffer() {
    let mut reader = ByteReader::new(b"0000tail".to_vec());
    let mut buf = b"kept".to_vec();
    assert_eq!(reader.pkt_bin_read(&mut buf), Ok(None));
    assert_eq!(buf, b"kept".to_vec());
    assert_eq!(reader.available(), 4);
}

#[test]
fn upper_case_header_is_accepted() {
    let (r, buf, left) = read_one(b"000Aabcdef");
    assert_eq!(r, Ok(Some(6)));
    assert_eq!(buf, b"abcdef".to_vec());
    assert_eq!(left, 0);
}

#[test]
fn non_hex_header_is_a_parse_error() {
    let (r, _, left) = read_one(b"00zzrest");
    assert_eq!(r, Err(Error::Parse(ParseError::BadHexLen)));
    assert_eq!(left, 4);
}

#[test]
fn each_header_position_is_checked() {
    for wire in [&b"g006hi"[..], b"0g06hi", b"00g6hi", b"000ghi", b"00 6hi", b"-006hi"] {
        let (r, _, left) = read_one(wire);
        assert_eq!(r, Err(Error::Parse(ParseError::BadHexLen)));
        assert_eq!(left, 2);
    }
}

#[test]
fn lengths_below_the_header_are_refused() {
    for wire in [&b"0001rest"[..], b"0002rest", b"0003rest"] {
        let (r, _, left) = read_one(wire);
        assert_eq!(r, Err(Error::Parse(ParseError::PacketSizeBelowHeader)));
        assert_eq!(left, 4);
    }
}

#[test]
fn length_of_the_header_alone_is_refused() {
    let (r, _, left) = read_one(b"0004rest");
    assert_eq!(r, Err(Error::Parse(ParseError::PacketSizeZero)));
    assert_eq!(left, 4);
}

#[test]
fn oversized_frame_is_refused() {
    let mut wire = b"fffd".to_vec();
    wire.extend_from_slice(&[0u8; 100]);
    let (r, _, left) = read_one(&wire);
    assert_eq!(r, Err(Error::Parse(ParseError::MaxPacketSizeExceeded)));
    assert_eq!(left, 100);
}

#[test]
fn smallest_oversized_length_is_fff1() {
    assert_eq!(parse_header(b"fff0"), Ok(Some(65516)));
    assert_eq!(parse_header(b"fff1"), Err(ParseError::MaxPacketSizeExceeded));
    assert_eq!(parse_header(b"ffff"), Err(ParseError::MaxPacketSizeExceeded));
}

#[test]
fn parse_header_reads_big_endian_hex() {
    assert_eq!(parse_header(b"0000"), Ok(None));
    assert_eq!(parse_header(b"0005"), Ok(Some(1)));
    assert_eq!(parse_header(b"0010"), Ok(Some(12)));
    assert_eq!(parse_header(b"0100"), Ok(Some(252)));
    assert_eq!(parse_header(b"1000"), Ok(Some(4092)));
    assert_eq!(parse_header(b"1a2B"), Ok(Some(0x1a2b - 4)));
}

#[test]
fn parse_header_wants_four_digits() {
    assert_eq!(parse_header(b"000"), Err(ParseError::BadHexLen));
    assert_eq!(parse_header(b"00006"), Err(ParseError::BadHexLen));
    assert_eq!(parse_header(b""), Err(ParseError::BadHexLen));
}

#[test]
fn end_of_input_before_a_frame_is_end_of_stream() {
    let (r, _, left) = read_one(b"");
    assert_eq!(r, Err(Error::EndOfStream));
    assert_eq!(left, 0);
}

#[test]
fn end_of_input_inside_a_header_is_truncated() {
    for wire in [&b"0"[..], b"00", b"000"] {
        let (r, _, left) = read_one(wire);
        assert_eq!(r, Err(Error::Truncated));
        assert_eq!(left, 0);
    }
}

#[test]
fn end_of_input_inside_a_payload_is_truncated() {
    for wire in [&b"0006"[..], b"0006h"] {
        let (r, _, left) = read_one(wire);
        assert_eq!(r, Err(Error::Truncated));
        assert_eq!(left, 0);
    }
}

#[test]
fn read_exact_takes_bytes_in_order() {
    let mut reader = ByteReader::new(b"abcdef".to_vec());
    let mut two = [0u8; 2];
    assert_eq!(reader.read_exact(&mut two), Ok(()));
    assert_eq!(&two, b"ab");
    assert_eq!(reader.available(), 4);
    let mut none: [u8; 0] = [];
    assert_eq!(reader.read_exact(&mut none), Ok(()));
    let mut five = [0u8; 5];
    assert_eq!(reader.read_exact(&mut five), Err(Error::Truncated));
    assert_eq!(reader.available(), 0);
}

#[test]
fn text_round_trip() {
    let mut wire: Vec<u8> = Vec::new();
    wire.pkt_text_write("command=clean");
    assert_eq!(wire, b"0012command=clean\n".to_vec());
    let (r, left) = read_line(&wire);
    assert_eq!(r, Ok(Some("command=clean".to_string())));
    assert_eq!(left, 0);
}

#[test]
fn text_round_trip_beyond_ascii() {
    let text = "pathname=d\u{e9}j\u{e0} vu/\u{1f600}.txt";
    let mut wire: Vec<u8> = Vec::new();
    wire.pkt_text_write(text);
    assert_eq!(wire.len(), 4 + text.len() + 1);
    let (r, _) = read_line(&wire);
    assert_eq!(r, Ok(Some(text.to_string())));
}

#[test]
fn empty_line_round_trip() {
    let mut wire: Vec<u8> = Vec::new();
    wire.pkt_text_write("");
    assert_eq!(wire, b"0005\n".to_vec());
    let (r, _) = read_line(&wire);
    assert_eq!(r, Ok(Some(String::new())));
}

#[test]
fn text_keeps_inner_newlines() {
    let (r, _) = read_line(b"0008a\nb\n");
    assert_eq!(r, Ok(Some("a\nb".to_string())));
}

#[test]
fn text_without_newline_is_refused() {
    let (r, left) = read_line(b"0009hellorest");
    assert_eq!(r, Err(Error::Parse(ParseError::MissingNewline)));
    assert_eq!(left, 4);
}

#[test]
fn text_that_is_not_utf8_is_refused() {
    let (r, left) = read_line(b"0007\xff\xfe\n");
    assert_eq!(r, Err(Error::Parse(ParseError::BadUtf8)));
    assert_eq!(left, 0);
    let (r, _) = read_line(b"0006\xc3\n");
    assert_eq!(r, Err(Error::Parse(ParseError::BadUtf8)));
}

#[test]
fn text_read_passes_flush_and_errors_on() {
    assert_eq!(read_line(b"0000"), (Ok(None), 0));
    assert_eq!(read_line(b""), (Err(Error::EndOfStream), 0));
    assert_eq!(read_line(b"00"), (Err(Error::Truncated), 0));
    assert_eq!(read_line(b"00zz"), (Err(Error::Parse(ParseError::BadHexLen)), 0));
    assert_eq!(read_line(b"0004"), (Err(Error::Parse(ParseError::PacketSizeZero)), 0));
}

#[test]
fn parse_error_messages() {
    assert_eq!(ParseError::BadHexLen.message(), "bad hex len");
    assert_eq!(ParseError::PacketSizeZero.message(), "packet size is zero");
    assert_eq!(ParseError::MaxPacketSizeExceeded.message(), "max packet size exceeded");
    assert_eq!(ParseError::MissingNewline.message(), "string should end with \\n");
    assert_eq!(ParseError::BadUtf8.message(), "bad utf-8");
    assert_eq!(ParseError::BadPrelude.message(), "bad prelude");
    assert_eq!(ParseError::UnknownVersion.message(), "unknown version");
    assert_eq!(
        ParseError::UnexpectedTextAfterHello.message(),
        "unexpected text after client hello"
    );
    assert_eq!(ParseError::MissingCommand.message(), "missing command");
    assert_eq!(ParseError::MissingPathname.message(), "missing pathname");
    assert_eq!(ParseError::UnknownCommand.message(), "unknown command");
    assert_eq!(ParseError::DelayedBlobHasData.message(), "delayed blob should have no data");
    assert_eq!(
        ParseError::PacketSizeBelowHeader.message(),
        "packet size is below the header size"
    );
}
