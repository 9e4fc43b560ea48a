use jwx_rs::ipc::{
    frame, payload_length, unframe, IpcError, IpcMessage, IpcMessageReceiver, IpcMessageSender,
};

fn round_trip(message: IpcMessage) -> IpcMessage {
    let bytes = message.encode();
    let (decoded, taken) = IpcMessage::decode(&bytes).unwrap();
    assert_eq!(taken, bytes.len());
    decoded
}

#[test]
pub fn control_messages_round_trip() {
    assert!(matches!(round_trip(IpcMessage::Poll), IpcMessage::Poll));
    assert!(matches!(round_trip(IpcMessage::Okay), IpcMessage::Okay));
    assert!(matches!(round_trip(IpcMessage::Close), IpcMessage::Close));
    match round_trip(IpcMessage::Request { request_path: "abc".to_string() }) {
        IpcMessage::Request { request_path } => assert_eq!(request_path, "abc"),
        other => panic!("{:?}", other),
    }
}

#[test]
pub fn request_ids_of_any_length_round_trip() {
    match round_trip(IpcMessage::Request { request_path: String::new() }) {
        IpcMessage::Request { request_path } => assert_eq!(request_path, ""),
        other => panic!("{:?}", other),
    }
    let long = "x\u{e9}".repeat(40_000);
    assert!(long.len() > 64 * 1024);
    match round_trip(IpcMessage::Request { request_path: long.clone() }) {
        IpcMessage::Request { request_path } => assert_eq!(request_path, long),
        other => panic!("{:?}", other),
    }
}

#[test]
pub fn encoding_is_tag_then_framed_text() {
    assert_eq!(IpcMessage::Poll.encode(), b"p".to_vec());
    assert_eq!(IpcMessage::Okay.encode(), b"o".to_vec());
    assert_eq!(IpcMessage::Close.encode(), b"c".to_vec());
    assert_eq!(
        IpcMessage::Request { request_path: "ab".to_string() }.encode(),
        vec![b'r', 2, 0, 0, 0, 0, 0, 0, 0, b'a', b'b']
    );
}

#[test]
pub fn decode_errors() {
    assert_eq!(IpcMessage::decode(b"").unwrap_err(), IpcError::Truncated);
    assert_eq!(IpcMessage::decode(b"x").unwrap_err(), IpcError::InvalidTag);
    assert_eq!(IpcMessage::decode(b"r\x01\x00").unwrap_err(), IpcError::Truncated);
    assert_eq!(
        IpcMessage::decode(&[b'r', 3, 0, 0, 0, 0, 0, 0, 0, b'a', b'b']).unwrap_err(),
        IpcError::Truncated
    );
    assert_eq!(
        IpcMessage::decode(&[b'r', 1, 0, 0, 0, 0, 0, 0, 0, 0xff]).unwrap_err(),
        IpcError::InvalidText
    );
}

#[test]
pub fn frames() {
    let framed = frame(b"hello");
    assert_eq!(framed, vec![5, 0, 0, 0, 0, 0, 0, 0, b'h', b'e', b'l', b'l', b'o']);
    assert_eq!(unframe(&framed), Some(&b"hello"[..]));
    assert_eq!(unframe(&framed[..12]), None);
    assert_eq!(unframe(&framed[..7]), None);
    assert_eq!(payload_length(&framed[..8]), Some(5));
    assert_eq!(payload_length(&framed[..7]), None);
    assert_eq!(payload_length(&[0, 1, 0, 0, 0, 0, 0, 0]), Some(256));
    let mut longer = framed.clone();
    longer.extend_from_slice(b"rest");
    assert_eq!(unframe(&longer), Some(&b"hello"[..]));
}

#[test]
pub fn buffers_send_and_receive_in_order() {
    let mut wire: Vec<u8> = Vec::new();
    wire.send_message(IpcMessage::Request { request_path: "7_1".to_string() }).unwrap();
    wire.send_message(IpcMessage::Okay).unwrap();
    wire.send_message(IpcMessage::Close).unwrap();
    let mut reader: &[u8] = &wire;
    match reader.read_message().unwrap() {
        IpcMessage::Request { request_path } => assert_eq!(request_path, "7_1"),
        other => panic!("{:?}", other),
    }
    assert!(matches!(reader.read_message().unwrap(), IpcMessage::Okay));
    assert!(matches!(reader.read_message().unwrap(), IpcMessage::Close));
    assert_eq!(reader.read_message().unwrap_err(), IpcError::Truncated);
    assert!(reader.is_empty());
}
