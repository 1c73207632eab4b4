use handterm::protocol::{
    encode_frame, frame_payload_len, take_frame, ClientMessage, FrameError, ServerMessage,
    MAX_FRAME_SIZE,
};

#[test]
fn oversized_frame_is_rejected() {
    let mut buf = Vec::new();
    buf.extend_from_slice(&((MAX_FRAME_SIZE as u32) + 1).to_le_bytes());
    buf.extend_from_slice(&[0u8; 8]);

    assert!(take_frame(&mut buf).is_err());
}

#[test]
fn take_frame_rejects_oversized_payloads() {
    let mut buf = Vec::new();
    buf.extend_from_slice(&(8 * 1024 * 1024u32 + 1).to_le_bytes());
    buf.extend_from_slice(&[0u8; 16]);

    assert!(take_frame(&mut buf).is_err());
}

#[test]
fn take_frame_waits_for_a_complete_payload() {
    let frame = encode_frame(b"bell").expect("frame should encode");
    assert_eq!(frame, vec![4, 0, 0, 0, b'b', b'e', b'l', b'l']);
    let mut partial = frame[..frame.len() - 1].to_vec();
    assert_eq!(take_frame(&mut partial), Ok(None));
    partial.push(*frame.last().unwrap());
    partial.extend_from_slice(&[9, 9]);
    assert_eq!(take_frame(&mut partial), Ok(Some(b"bell".to_vec())));
    assert_eq!(partial, vec![9, 9]);
    let mut short = vec![1, 0];
    assert_eq!(take_frame(&mut short), Ok(None));
}

#[test]
fn frame_header_is_little_endian_and_capped() {
    assert_eq!(frame_payload_len([1, 2, 0, 0]), Ok(0x0201));
    assert_eq!(
        frame_payload_len([1, 0, 0x80, 0]),
        Err(FrameError::Oversized)
    );
    assert_eq!(frame_payload_len([0, 0, 0x80, 0]), Ok(MAX_FRAME_SIZE));
}

#[test]
fn take_frame_waits_for_complete_payload() {
    // The payload stands for an encoded server message.
    let payload = vec![12u8, 0, 0, 0, 7, 0, 0, 0, 0, 0, 0, 0];
    let encoded = encode_frame(&payload).expect("frame should encode");
    let mut partial = encoded[..encoded.len() - 1].to_vec();

    assert!(take_frame(&mut partial)
        .expect("partial frame parse should succeed")
        .is_none());

    partial.push(*encoded.last().expect("frame should have a last byte"));
    let taken = take_frame(&mut partial)
        .expect("complete frame parse should succeed")
        .expect("complete frame should decode");
    assert_eq!(taken, payload);
    assert!(partial.is_empty());
}

// A message's payload is its bincode encoding: the variant's index as a
// `u32`, then its fields.

#[test]
fn framed_client_messages_roundtrip() {
    let message = ClientMessage::Paste {
        window_id: 3,
        text: b"printf 'hi'\n".to_vec(),
    };
    let payload = match &message {
        ClientMessage::Paste { window_id, text } => bincode::serialize(&(6u32, *window_id, text.clone()))
            .expect("framed client message should write"),
        _ => unreachable!(),
    };
    let mut buf = encode_frame(&payload).expect("framed client message should write");
    let read = take_frame(&mut buf)
        .expect("framed client message should read")
        .expect("framed client message should read");
    assert!(buf.is_empty());
    let (variant, window_id, text): (u32, u32, Vec<u8>) =
        bincode::deserialize(&read).expect("framed client message should read");
    assert_eq!(variant, 6);
    let decoded = ClientMessage::Paste { window_id, text };
    assert_eq!(decoded, message);
}

#[test]
fn framed_server_messages_roundtrip() {
    let message = ServerMessage::SetTitle {
        window_id: 11,
        title: "handterm [server]".to_string(),
    };
    let payload = match &message {
        ServerMessage::SetTitle { window_id, title } => bincode::serialize(&(4u32, *window_id, title.clone()))
            .expect("framed server message should write"),
        _ => unreachable!(),
    };
    let mut buf = encode_frame(&payload).expect("framed server message should write");
    let read = take_frame(&mut buf)
        .expect("framed server message should read")
        .expect("framed server message should read");
    let (variant, window_id, title): (u32, u32, String) =
        bincode::deserialize(&read).expect("framed server message should read");
    assert_eq!(variant, 4);
    let decoded = ServerMessage::SetTitle { window_id, title };
    assert_eq!(decoded, message);
}
