use g3icap::protocol::chunked::encode_chunked;
use g3icap::protocol::streaming::{
    ContentFilter, KeywordFilter, PassThroughFilter, StreamingConnectionHandler, StreamingProcessor,
    StreamingRequestProcessor, StreamingResponseProcessor,
};
use g3icap::error::IcapError;

/// Feeds `data` to the processor in reads of at most `step` bytes, then
/// reads of nothing, and collects what comes out.
fn run(processor: &mut StreamingProcessor, data: &[u8], step: usize) -> Result<Vec<u8>, IcapError> {
    let mut out = Vec::new();
    let mut pos = 0;
    let mut idle = 0;
    while idle < 3 {
        let end = std::cmp::min(pos + step, data.len());
        let piece = &data[pos..end];
        pos = end;
        if piece.is_empty() {
            idle += 1;
        }
        if let Some(d) = processor.process_chunk(piece)? {
            out.extend_from_slice(&d);
        }
    }
    Ok(out)
}

#[test]
fn streaming_processor_decodes_whole_input() {
    let mut processor = StreamingProcessor::new(1024);
    let data = b"1a\r\nThis is the first chunk\r\n15\r\nSecond chunk here\r\n0\r\n\r\n";
    let result = run(&mut processor, data, 4096).unwrap();
    assert_eq!(result, b"This is the first chunkSecond chunk here");
    assert!(processor.is_complete());
    assert_eq!(processor.buffer_size(), 0);
}

#[test]
fn streaming_processor_decodes_input_in_small_reads() {
    let body = b"streamed content that arrives a few bytes at a time";
    let encoded = encode_chunked(body);
    let mut processor = StreamingProcessor::new(1024);
    let result = run(&mut processor, &encoded, 5).unwrap();
    assert_eq!(result, body.to_vec());
    assert!(processor.is_complete());
}

#[test]
fn streaming_processor_refuses_an_overfull_buffer() {
    let mut processor = StreamingProcessor::new(8);
    let e = processor.process_chunk(b"1a\r\nThis is more than eight").unwrap_err();
    match e {
        IcapError::Protocol(m) => assert_eq!(m, "STREAMING: Buffer size exceeded limit: 8 bytes"),
        _ => panic!("expected a protocol error"),
    }
}

#[test]
fn streaming_processor_waits_on_bad_size_until_full() {
    let mut processor = StreamingProcessor::new(16);
    assert!(processor.process_chunk(b"zz\r\n").unwrap().is_none());
    let e = processor.process_chunk(b"0123456789ab").unwrap_err();
    match e {
        IcapError::Protocol(m) => assert_eq!(m, "CHUNKED: Invalid chunk size encoding: invalid digit found in string"),
        _ => panic!("expected a protocol error"),
    }
}

#[test]
fn streaming_processor_reset_starts_over() {
    let mut processor = StreamingProcessor::new(1024);
    run(&mut processor, b"3\r\nabc\r\n0\r\n\r\n", 4096).unwrap();
    assert!(processor.is_complete());
    assert!(processor.process_chunk(b"3\r\nxyz\r\n").unwrap().is_none());
    processor.reset();
    assert!(!processor.is_complete());
    assert_eq!(processor.process_chunk(b"3\r\nxyz\r\n").unwrap().unwrap(), b"xyz".to_vec());
}

#[test]
fn keyword_filter_replaces_keywords() {
    let filter = KeywordFilter::new(vec!["badword".to_string(), "blocked".to_string()], "[FILTERED]".to_string());
    let data = b"This contains badword and blocked content";
    let result = filter.filter_request_data(data).unwrap();
    assert_eq!(result, b"This contains [FILTERED] and [FILTERED] content".to_vec());
    let result = filter.filter_response_data(b"blockedblocked badwor").unwrap();
    assert_eq!(result, b"[FILTERED][FILTERED] badwor".to_vec());
}

#[test]
fn keyword_filter_edge_cases() {
    let filter = KeywordFilter::new(vec!["aa".to_string()], "b".to_string());
    assert_eq!(filter.filter_request_data(b"aaa").unwrap(), b"ba".to_vec());
    let empty = KeywordFilter::new(vec!["".to_string()], "-".to_string());
    assert_eq!(empty.filter_request_data(b"ab").unwrap(), b"-a-b-".to_vec());
    let unicode = KeywordFilter::new(vec!["é".to_string()], "e".to_string());
    assert_eq!(unicode.filter_request_data("café".as_bytes()).unwrap(), b"cafe".to_vec());
    let e = filter.filter_request_data(&[0xff, 0x61]).unwrap_err();
    assert_eq!(e, "invalid utf-8 sequence of 1 bytes from index 0");
}

#[test]
fn pass_through_filter_keeps_data() {
    let f = PassThroughFilter;
    assert_eq!(f.filter_request_data(b"abc").unwrap(), b"abc".to_vec());
    assert_eq!(f.filter_response_data(&[0xff]).unwrap(), vec![0xff]);
}

#[test]
fn request_processor_filters_decoded_data() {
    let mut p: StreamingRequestProcessor<KeywordFilter> = StreamingRequestProcessor::new(1024);
    p.set_content_filter(KeywordFilter::new(vec!["secret".to_string()], "***".to_string()));
    let out = p.process_request_chunk(b"9\r\nmy secret\r\n0\r\n\r\n").unwrap().unwrap();
    assert_eq!(out, b"my ***".to_vec());
    assert!(p.is_complete());
    assert!(p.process_request_chunk(b"").unwrap().is_none());
}

#[test]
fn response_processor_reports_filter_errors() {
    let mut p: StreamingResponseProcessor<KeywordFilter> = StreamingResponseProcessor::new(1024);
    p.set_content_filter(KeywordFilter::new(vec!["x".to_string()], "y".to_string()));
    let e = p.process_response_chunk(b"1\r\n\xff\r\n").unwrap_err();
    match e {
        IcapError::Service(m) => assert_eq!(m, "invalid utf-8 sequence of 1 bytes from index 0"),
        _ => panic!("expected a service error"),
    }
    let mut q: StreamingResponseProcessor<PassThroughFilter> = StreamingResponseProcessor::new(1024);
    assert_eq!(q.process_response_chunk(b"2\r\nok\r\n").unwrap().unwrap(), b"ok".to_vec());
}

#[test]
fn connection_handler_limits_connections() {
    let mut handler = StreamingConnectionHandler::new(1024, 1);
    assert!(handler.can_accept_connection());
    handler.begin_connection().unwrap();
    assert_eq!(handler.active_connections(), 1);
    assert!(!handler.can_accept_connection());
    match handler.begin_connection().unwrap_err() {
        IcapError::Service(m) => assert_eq!(m, "Maximum connections exceeded"),
        _ => panic!("expected a service error"),
    }
    let data = b"1a\r\nThis is test data\r\n0\r\n\r\n";
    let mut written = Vec::new();
    let mut first = true;
    loop {
        let piece: &[u8] = if first { &data[..] } else { &[] };
        first = false;
        match handler.request_chunk(piece).unwrap() {
            Some(d) => written.extend_from_slice(&d),
            None => break,
        }
    }
    assert_eq!(written, b"This is test data".to_vec());
    assert!(handler.response_chunk(b"").unwrap().is_none());
    handler.end_connection();
    assert_eq!(handler.active_connections(), 0);
}

#[test]
fn buffered_bytes_are_reported() {
    let mut handler = StreamingConnectionHandler::new(1024, 1);
    assert_eq!(handler.request_buffer_size(), 0);
    handler.request_chunk(b"5\r\nhe").unwrap();
    assert_eq!(handler.request_buffer_size(), 0);
    handler.request_chunk(b"llo\r\n1").unwrap();
    assert_eq!(handler.request_buffer_size(), 1);
    assert_eq!(handler.response_buffer_size(), 0);
}
