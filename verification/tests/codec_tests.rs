use remote_ctl::codec::{
    classify_header, handshake_message, ClientIdentError, CommandInfo, ResponseHeader,
    ACK_ACCEPTED, NO_COMMAND_HEADER, REQUEST_BYTE, TERMINATE_HEADER, TERMINATION_BYTE,
};

fn frame(discriminant: u8, value: [u8; 8]) -> [u8; 16] {
    let mut buf = [0u8; 16];
    buf[0] = discriminant;
    buf[8..16].copy_from_slice(&value);
    buf
}

#[test]
fn decode_volume_frame() {
    let buf = frame(4, 0.5f64.to_le_bytes());
    match CommandInfo::try_from_frame(&buf) {
        Ok(CommandInfo::Vol(bits)) => assert_eq!(f64::from_bits(bits), 0.5),
        other => panic!("expected a volume command, got {:?}", other),
    }
}

#[test]
fn decode_simple_frames() {
    assert_eq!(CommandInfo::try_from_frame(&frame(1, [0; 8])), Ok(CommandInfo::Next));
    assert_eq!(CommandInfo::try_from_frame(&frame(2, [0; 8])), Ok(CommandInfo::Prev));
    assert_eq!(CommandInfo::try_from_frame(&frame(3, [0; 8])), Ok(CommandInfo::Pause));
}

#[test]
fn decode_unknown_discriminant() {
    assert_eq!(
        CommandInfo::try_from_frame(&frame(5, [0; 8])),
        Err(ClientIdentError::InvalidByte)
    );
    assert_eq!(
        CommandInfo::try_from_frame(&frame(0, [0; 8])),
        Err(ClientIdentError::InvalidByte)
    );
    assert_eq!(
        CommandInfo::try_from_frame(&frame(255, [0; 8])),
        Err(ClientIdentError::InvalidByte)
    );
}

#[test]
fn decode_nonzero_padding() {
    let mut buf = frame(1, [0; 8]);
    buf[3] = 7;
    assert_eq!(CommandInfo::try_from_frame(&buf), Err(ClientIdentError::InvalidByte));
}

#[test]
fn header_classification() {
    assert_eq!(classify_header(0), ResponseHeader::NoCommand);
    assert_eq!(classify_header(255), ResponseHeader::Terminate);
    assert_eq!(classify_header(7), ResponseHeader::Payload(7));
    assert_eq!(classify_header(254), ResponseHeader::Payload(254));
}

#[test]
fn handshake_bytes() {
    let name = b"site".to_vec();
    let msg = handshake_message(&name);
    let mut expected = vec![1u8, 4, 0, 0, 0, 0, 0, 0, 0];
    expected.extend_from_slice(b"site");
    assert_eq!(msg, expected);
}

#[test]
fn handshake_empty_name() {
    let msg = handshake_message(&Vec::new());
    assert_eq!(msg, vec![1u8, 0, 0, 0, 0, 0, 0, 0, 0]);
}

#[test]
fn wire_constants() {
    assert_eq!(REQUEST_BYTE, 1);
    assert_eq!(ACK_ACCEPTED, 1);
    assert_eq!(TERMINATION_BYTE, 2);
    assert_eq!(NO_COMMAND_HEADER, 0);
    assert_eq!(TERMINATE_HEADER, u8::MAX);
}

#[test]
fn ident_error_messages() {
    assert_eq!(
        ClientIdentError::InvalidByte.describe(),
        "Invalid byte received for client type"
    );
    assert_eq!(
        ClientIdentError::AlreadyExists.describe(),
        "Host with different address already exists"
    );
}
