use webrockets::codec::{build_websocket_frame, parse_frame, parse_websocket_frame, FrameError};

fn masked_frame(text: &str, mask: [u8; 4]) -> Vec<u8> {
    let bytes = text.as_bytes();
    let mut frame = vec![0x81u8, 0x80u8 | bytes.len() as u8];
    frame.extend_from_slice(&mask);
    for (i, b) in bytes.iter().enumerate() {
        frame.push(b ^ mask[i % 4]);
    }
    frame
}

#[test]
fn decodes_masked_text_frame() {
    let frame = [0x81u8, 0x82, 0x01, 0x02, 0x03, 0x04, 0x69, 0x6b];
    assert_eq!(parse_websocket_frame(&frame, frame.len()), Ok(String::from("hi")));
}

#[test]
fn decodes_only_the_filled_part_of_a_buffer() {
    let mut buffer = [0u8; 4096];
    let frame = masked_frame("ShutdownServer", [9, 8, 7, 6]);
    buffer[..frame.len()].copy_from_slice(&frame);
    assert_eq!(parse_frame(buffer, frame.len()), Ok(String::from("ShutdownServer")));
}

#[test]
fn decodes_unmasked_frame() {
    let frame = [0x81u8, 0x03, b'a', b'b', b'c'];
    assert_eq!(parse_websocket_frame(&frame, 5), Ok(String::from("abc")));
}

#[test]
fn ignores_bytes_after_the_payload() {
    let frame = [0x81u8, 0x81, 0, 0, 0, 0, b'x', b'y', b'z'];
    assert_eq!(parse_websocket_frame(&frame, frame.len()), Ok(String::from("x")));
}

#[test]
fn empty_payload_is_empty_text() {
    let frame = [0x81u8, 0x80, 1, 2, 3, 4];
    assert_eq!(parse_websocket_frame(&frame, 6), Ok(String::new()));
}

#[test]
fn short_input_is_too_short() {
    let frame = [0x81u8];
    assert_eq!(parse_websocket_frame(&frame, 1), Err(FrameError::TooShort));
    assert_eq!(parse_websocket_frame(&[], 0), Err(FrameError::TooShort));
}

#[test]
fn missing_mask_bytes_are_too_short() {
    let frame = [0x81u8, 0x82, 1, 2, 3];
    assert_eq!(parse_websocket_frame(&frame, frame.len()), Err(FrameError::TooShort));
}

#[test]
fn truncated_payload_is_too_short() {
    let frame = [0x81u8, 0x85, 1, 2, 3, 4, 0x69, 0x6b];
    assert_eq!(parse_websocket_frame(&frame, frame.len()), Err(FrameError::TooShort));
}

#[test]
fn extended_lengths_are_refused() {
    let mut frame = vec![0x81u8, 0x80 | 126, 0, 200, 1, 2, 3, 4];
    frame.extend(std::iter::repeat(0u8).take(200));
    assert_eq!(parse_websocket_frame(&frame, frame.len()), Err(FrameError::ExtendedLength));
    frame[1] = 0x80 | 127;
    assert_eq!(parse_websocket_frame(&frame, frame.len()), Err(FrameError::ExtendedLength));
}

#[test]
fn invalid_utf8_payload_is_refused() {
    let frame = [0x81u8, 0x81, 0, 0, 0, 0, 0xff];
    assert_eq!(parse_websocket_frame(&frame, frame.len()), Err(FrameError::InvalidText));
}

#[test]
fn builds_unmasked_text_frame() {
    assert_eq!(
        build_websocket_frame("Echo: hi"),
        Ok(vec![0x81u8, 8, b'E', b'c', b'h', b'o', b':', b' ', b'h', b'i'])
    );
    assert_eq!(build_websocket_frame(""), Ok(vec![0x81u8, 0]));
}

#[test]
fn builds_longest_short_frame() {
    let text = "a".repeat(125);
    let frame = build_websocket_frame(&text).unwrap();
    assert_eq!(frame.len(), 127);
    assert_eq!(frame[0], 0x81);
    assert_eq!(frame[1], 125);
}

#[test]
fn longer_text_needs_an_extended_length() {
    assert_eq!(build_websocket_frame(&"a".repeat(126)), Err(FrameError::ExtendedLength));
    assert_eq!(build_websocket_frame(&"é".repeat(63)), Err(FrameError::ExtendedLength));
}

#[test]
fn client_frame_round_trips_through_server_frame() {
    for text in ["hi", "", "héllo wörld", "ShutdownServer", &"z".repeat(125)] {
        let frame = masked_frame(text, [0x37, 0xfa, 0x21, 0x3d]);
        let decoded = parse_websocket_frame(&frame, frame.len()).unwrap();
        assert_eq!(decoded, text);
        let server_frame = build_websocket_frame(&decoded).unwrap();
        assert_eq!(parse_websocket_frame(&server_frame, server_frame.len()), Ok(decoded.clone()));
        let remasked = masked_frame(&decoded, [0xde, 0xad, 0xbe, 0xef]);
        assert_eq!(remasked[1] & 0x7f, server_frame[1]);
        assert_eq!(parse_websocket_frame(&remasked, remasked.len()), Ok(decoded));
    }
}
