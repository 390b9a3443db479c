use hdc_forward::protocol::{
    build_check_body, filter_command, frame, frame_payload, get_cid, payload_body, request_target,
    FilterError, MAX_SIZE_IOBUF,
};
use hdc_forward::uart::{build_header, build_header_obj, UartError, UartHead, UartReader, PACKET_FLAG};

#[test]
fn data_message_round_trip() {
    let framed = frame(7, b"abc");
    assert_eq!(framed, vec![0, 0, 0, 7, b'a', b'b', b'c']);
    assert_eq!(get_cid(&framed), 7);
    assert_eq!(payload_body(&framed), b"abc".to_vec());
}

#[test]
fn cid_is_big_endian() {
    let framed = frame(0x0102_0304, &[]);
    assert_eq!(framed, vec![1, 2, 3, 4]);
    assert_eq!(get_cid(&[0xff, 0xfe, 0xfd, 0xfc, 9]), 0xfffe_fdfc);
}

#[test]
fn oversized_payload_is_refused() {
    let big = vec![0u8; MAX_SIZE_IOBUF * 2 + 1];
    assert!(frame_payload(1, &big).is_none());
    let fits = vec![5u8; MAX_SIZE_IOBUF * 2];
    assert_eq!(frame_payload(1, &fits).unwrap().len(), MAX_SIZE_IOBUF * 2 + 4);
}

#[test]
fn filter_command_reads_text_and_id() {
    let (text, id) = filter_command(&[0, 0, 1, 0, b'h', b'i']).unwrap();
    assert_eq!(text, "hi");
    assert_eq!(id, 256);
    assert_eq!(filter_command(&[0, 0, 0, 1, 0xff, 0xfe]), Err(FilterError::NotText));
}

#[test]
fn check_body_layout() {
    let body = build_check_body(&"tcp:9090".to_string());
    let mut expected = vec![0u8; 8];
    expected.extend_from_slice(b"tcp:9090");
    expected.push(0);
    assert_eq!(body, expected);
    let text = String::from_utf8(body).unwrap();
    assert_eq!(request_target(&text), "tcp:9090");
}

#[test]
fn uart_header_bytes() {
    let bytes = build_header(0x0102_0304, 0x0506, 0x0a0b_0c0d, 7);
    assert_eq!(
        bytes,
        vec![
            b'H', b'W', 6, 5, 4, 3, 2, 1, 0x0d, 0x0c, 0x0b, 0x0a, 7, 0, 0, 0, 0, 0, 0, 0, 0, 0, 0, 0
        ]
    );
    let head = build_header_obj(1, 2, 3, 4);
    assert_eq!(head.flag, PACKET_FLAG);
    assert_eq!((head.session_id, head.option, head.data_size, head.package_index), (1, 2, 3, 4));
    let back = UartHead::parse(&bytes).unwrap();
    assert_eq!(back.session_id, 0x0102_0304);
    assert_eq!(back.data_size, 0x0a0b_0c0d);
}

#[test]
fn uart_head_checks() {
    let mut reader = UartReader { fd: 3, head: None };
    assert_eq!(reader.check_protocol_head(&[b'H', b'W']), Err(UartError::Short));
    let mut bytes = build_header(9, 0, 100, 2);
    assert_eq!(reader.check_protocol_head(&bytes), Ok((100, 2, 9)));
    assert_eq!(reader.head.unwrap().session_id, 9);
    bytes[0] = b'X';
    assert_eq!(reader.check_protocol_head(&bytes), Err(UartError::BadFlag));
}
