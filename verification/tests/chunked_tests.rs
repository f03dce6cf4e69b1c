use g3icap::protocol::chunked::{encode_chunked, ChunkedParseError, ChunkedParser};

#[test]
fn test_chunked_parsing() {
    let chunked_data = b"1a\r\nThis is the first chunk\r\n15\r\nSecond chunk here\r\n0\r\n\r\n";
    let mut parser = ChunkedParser::new();

    let (decoded, consumed) = parser.parse_chunk(chunked_data).unwrap();
    assert_eq!(decoded, b"This is the first chunkSecond chunk here");
    assert_eq!(consumed, chunked_data.len());
    assert!(parser.is_complete());
}

#[test]
fn test_empty_chunked() {
    let chunked_data = b"0\r\n\r\n";
    let mut parser = ChunkedParser::new();

    let (decoded, consumed) = parser.parse_chunk(chunked_data).unwrap();
    assert_eq!(decoded, b"");
    assert_eq!(consumed, chunked_data.len());
    assert!(parser.is_complete());
}

#[test]
fn test_large_chunk() {
    let large_data = "x".repeat(10000);
    let chunk_size = format!("{:x}", large_data.len());
    let chunked_data = format!("{}\r\n{}\r\n0\r\n\r\n", chunk_size, large_data);

    let mut parser = ChunkedParser::new();
    let (decoded, consumed) = parser.parse_chunk(chunked_data.as_bytes()).unwrap();

    assert_eq!(decoded, large_data.as_bytes());
    assert_eq!(consumed, chunked_data.len());
    assert!(parser.is_complete());
}

#[test]
fn test_chunked_encoding() {
    let data = b"Hello, World!";
    let encoded = encode_chunked(data);
    let expected = b"d\r\nHello, World!\r\n0\r\n\r\n";

    assert_eq!(encoded.as_slice(), expected);
}

#[test]
fn test_invalid_chunk_size() {
    let invalid_data = b"invalid\r\nchunk data\r\n0\r\n\r\n";
    let mut parser = ChunkedParser::new();

    let result = parser.parse_chunk(invalid_data);
    assert!(result.is_err());
    assert!(matches!(result.unwrap_err(), ChunkedParseError::InvalidChunkSize(_)));
}

#[test]
fn test_chunk_size_too_large() {
    let large_size = "1000000000"; // 1GB in hex
    let data = format!("{}\r\n{}\r\n0\r\n\r\n", large_size, "x".repeat(1000));
    let mut parser = ChunkedParser::new();

    let result = parser.parse_chunk(data.as_bytes());
    assert!(result.is_err());
    assert!(matches!(result.unwrap_err(), ChunkedParseError::ChunkSizeTooLarge(_)));
}

#[test]
fn chunked_roundtrip_of_encoded_data() {
    let data: Vec<u8> = (0..20000u32).map(|i| b'a' + (i % 26) as u8).collect();
    let encoded = encode_chunked(&data);
    let mut parser = ChunkedParser::new();
    let (decoded, consumed) = parser.parse_chunk(&encoded).unwrap();
    assert_eq!(decoded, data);
    assert_eq!(consumed, encoded.len());
    assert!(parser.is_complete());
}

#[test]
fn chunked_encoding_of_empty_data() {
    assert_eq!(encode_chunked(b"").as_slice(), b"0\r\n\r\n");
}

#[test]
fn chunked_encoding_splits_at_8192() {
    let data = vec![b'z'; 8193];
    let encoded = encode_chunked(&data);
    assert!(encoded.starts_with(b"2000\r\n"));
    assert!(encoded.ends_with(b"\r\n1\r\nz\r\n0\r\n\r\n"));
}

#[test]
fn chunked_parser_waits_for_more_input() {
    let mut parser = ChunkedParser::new();
    let (decoded, consumed) = parser.parse_chunk(b"5\r\nhel").unwrap();
    assert_eq!(decoded, b"hel");
    assert_eq!(consumed, 6);
    assert!(!parser.is_complete());
    let (decoded, consumed) = parser.parse_chunk(b"lo\r\n0\r\n\r\n").unwrap();
    assert_eq!(decoded, b"lo");
    assert_eq!(consumed, 9);
    assert!(parser.is_complete());
}

#[test]
fn chunked_parser_reset_and_trailers() {
    let mut parser = ChunkedParser::new();
    let (_, consumed) = parser.parse_chunk(b"3\r\nabc\r\n0\r\nX-T: 1\r\n\r\n").unwrap();
    assert_eq!(consumed, 21);
    assert!(parser.is_complete());
    parser.reset();
    assert!(!parser.is_complete());
}

#[test]
fn chunked_error_messages() {
    let mut parser = ChunkedParser::new();
    let e = parser.parse_chunk(b"zz\r\n").unwrap_err();
    assert_eq!(e.to_string(), "Invalid chunk size encoding: invalid digit found in string");
    let mut parser = ChunkedParser::new();
    let e = parser.parse_chunk(b"\r\n").unwrap_err();
    assert_eq!(e.to_string(), "Invalid chunk size encoding: cannot parse integer from empty string");
    let mut parser = ChunkedParser::new();
    let e = parser.parse_chunk(b"40000001\r\n").unwrap_err();
    assert_eq!(e.to_string(), "Chunk size too large: 1073741825");
    let mut parser = ChunkedParser::new();
    let e = parser.parse_chunk(b"\xff\r\n").unwrap_err();
    assert_eq!(e.to_string(), "Invalid chunked encoding format");
}

#[test]
fn chunk_data_with_line_breaks_round_trips() {
    for data in [&b"\r\n"[..], b"a\r\nb", b"line one\r\nline two\r\n\r\n", b"\r\n\r\n0\r\n\r\n"] {
        let encoded = encode_chunked(data);
        let mut parser = ChunkedParser::new();
        let (decoded, consumed) = parser.parse_chunk(&encoded).unwrap();
        assert_eq!(decoded, data.to_vec());
        assert_eq!(consumed, encoded.len());
        assert!(parser.is_complete());
    }
    let big: Vec<u8> = (0..20000u32).map(|i| if i % 7 == 0 { 13 } else if i % 7 == 1 { 10 } else { b'x' }).collect();
    let encoded = encode_chunked(&big);
    let mut parser = ChunkedParser::new();
    let (decoded, consumed) = parser.parse_chunk(&encoded).unwrap();
    assert_eq!(decoded, big);
    assert_eq!(consumed, encoded.len());
    assert!(parser.is_complete());
}

#[test]
fn declared_size_wins_over_inner_line_break() {
    let body = b"6\r\nab\r\ncd\r\n0\r\n\r\n";
    let mut parser = ChunkedParser::new();
    let (decoded, consumed) = parser.parse_chunk(body).unwrap();
    assert_eq!(decoded, b"ab\r\ncd".to_vec());
    assert_eq!(consumed, body.len());
    assert!(parser.is_complete());
}

#[test]
fn well_formed_body_with_trailers_decodes() {
    let body = b"4\r\na\r\nb\r\n3\r\nxyz\r\n0\r\nx-check: 1\r\nx-more: \r\r\n\r\n";
    let mut parser = ChunkedParser::new();
    let (decoded, consumed) = parser.parse_chunk(body).unwrap();
    assert_eq!(decoded, b"a\r\nbxyz".to_vec());
    assert_eq!(consumed, body.len());
    assert!(parser.is_complete());
}

#[test]
fn body_split_anywhere_decodes_the_same() {
    let body: &[u8] = b"5\r\nhello\r\n6\r\n world\r\n0\r\nx-note: done\r\n\r\n";
    for k in 0..=body.len() {
        let mut parser = ChunkedParser::new();
        let (first, used) = parser.parse_chunk(&body[..k]).unwrap();
        assert!(used <= k);
        let (second, rest_used) = parser.parse_chunk(&body[used..]).unwrap();
        let mut all = first.clone();
        all.extend_from_slice(&second);
        assert_eq!(all, b"hello world".to_vec(), "cut at {}", k);
        assert_eq!(rest_used, body.len() - used);
        assert!(parser.is_complete());
    }
}

#[test]
fn body_with_inner_line_break_split_anywhere_decodes_the_same() {
    let body: &[u8] = b"4\r\na\r\nb\r\n0\r\n\r\n";
    for k in 0..=body.len() {
        let mut parser = ChunkedParser::new();
        let (first, used) = parser.parse_chunk(&body[..k]).unwrap();
        assert!(used <= k);
        let (second, rest_used) = parser.parse_chunk(&body[used..]).unwrap();
        let mut all = first.clone();
        all.extend_from_slice(&second);
        assert_eq!(all, b"a\r\nb".to_vec(), "cut at {}", k);
        assert_eq!(rest_used, body.len() - used);
        assert!(parser.is_complete());
    }
}

#[test]
fn partial_chunk_stops_before_an_inner_line_break() {
    let mut parser = ChunkedParser::new();
    let (decoded, consumed) = parser.parse_chunk(b"6\r\nab\r\ncd").unwrap();
    assert_eq!(decoded, b"ab".to_vec());
    assert_eq!(consumed, 5);
    assert!(!parser.is_complete());
    let (decoded, consumed) = parser.parse_chunk(b"\r\ncd\r\n0\r\n\r\n").unwrap();
    assert_eq!(decoded, b"\r\ncd".to_vec());
    assert_eq!(consumed, 11);
    assert!(parser.is_complete());
}

#[test]
fn incremental_parsing_of_the_sample_body() {
    let chunked_data = b"1a\r\nThis is the first chunk\r\n15\r\nSecond chunk here\r\n0\r\n\r\n";
    let mut parser = ChunkedParser::new();
    let (decoded1, consumed1) = parser.parse_chunk(&chunked_data[..20]).unwrap();
    assert_eq!(decoded1, b"This is the firs".to_vec());
    assert_eq!(consumed1, 20);
    assert!(!parser.is_complete());
    let (decoded2, consumed2) = parser.parse_chunk(&chunked_data[20..]).unwrap();
    assert_eq!(decoded2, b"t chunkSecond chunk here".to_vec());
    assert_eq!(consumed2, chunked_data.len() - 20);
    assert!(parser.is_complete());
}
