use risty::error::CodecError;
use risty::marshal::{to_bytes, Marshal};
use risty::rtp::{Header, Packet};

#[test]
fn test_new() {
    let want = Header {
        version: 2,
        padding: false,
        extension: false,
        csrc_count: 0,
        marker: true,
        payload_type: 96,
        sequence_number: 13415,
        timestamp: 0xDEADBEEF,
        ssrc: 3141565102,
    };
    let got = Header::new(96, 0xDEADBEEF, true, Some(0xDEADBEEF5555AAAA)).unwrap();

    assert_eq!(want, got);
}

#[test]
fn test_marshal() {
    let mut buf = [0u8; 12];
    let header = Header::new(18, 160, true, Some(0xDEADBEEF5555AAAA)).unwrap();
    let n = header.marshal(&mut buf).unwrap();

    assert_eq!(n, 12);

    assert_eq!(header.marshal_size(), 12);

    assert_eq!(
        buf,
        [0x80, 0x92, 0x34, 0x67, 0x00, 0x00, 0x00, 0xA0, 0xBB, 0x40, 0x7A, 0xAE]
    );
}

#[test]
fn test_update() {
    let mut header = Header::new(18, 160, true, Some(0xDEADBEEF5555AAAA)).unwrap();

    let initial_sequence_number = header.sequence_number;

    header.update(320, false);

    assert_eq!(header.sequence_number, initial_sequence_number + 1);

    assert_eq!(header.timestamp, 320);

    assert_eq!(header.marker, false);
}

#[test]
fn equal_seeds_give_equal_headers() {
    let a = Header::new(96, 1, false, Some(7)).unwrap();
    let b = Header::new(96, 1, false, Some(7)).unwrap();
    let c = Header::new(96, 1, false, Some(8)).unwrap();
    assert_eq!(a, b);
    assert!(a.sequence_number != c.sequence_number || a.ssrc != c.ssrc);
}

#[test]
fn header_without_a_seed_takes_its_identifiers_from_the_system() {
    let drawn = Header::new(97, 5, true, None).unwrap();
    assert_eq!(
        drawn,
        Header::with_identifiers(97, 5, true, drawn.sequence_number, drawn.ssrc)
    );
    let again = Header::new(97, 5, true, None).unwrap();
    let third = Header::new(97, 5, true, None).unwrap();
    assert!(drawn.ssrc != again.ssrc || drawn.ssrc != third.ssrc);
}

#[test]
fn update_wraps_the_sequence_number_and_keeps_the_rest() {
    let mut header = Header::with_identifiers(96, 10, false, u16::MAX, 0x0102_0304);
    header.update(20, true);
    assert_eq!(
        header,
        Header {
            version: 2,
            padding: false,
            extension: false,
            csrc_count: 0,
            marker: true,
            payload_type: 96,
            sequence_number: 0,
            timestamp: 20,
            ssrc: 0x0102_0304,
        }
    );
}

#[test]
fn header_roundtrip() {
    let header = Header {
        version: 2,
        padding: true,
        extension: true,
        csrc_count: 15,
        marker: true,
        payload_type: 127,
        sequence_number: 0xFFFE,
        timestamp: 0xFFFF_FFFE,
        ssrc: 0x8000_0001,
    };
    let mut buf = [0u8; 16];
    assert_eq!(header.marshal(&mut buf), Ok(12));
    assert_eq!(
        buf,
        [0xBF, 0xFF, 0xFF, 0xFE, 0xFF, 0xFF, 0xFF, 0xFE, 0x80, 0x00, 0x00, 0x01, 0, 0, 0, 0]
    );
    assert_eq!(Header::unmarshal(&buf), Ok((header, 12)));
}

#[test]
fn header_marshal_errors() {
    let header = Header::with_identifiers(96, 0, false, 1, 2);
    let mut short = [7u8; 11];
    assert_eq!(header.marshal(&mut short), Err(CodecError::BufferTooSmall));
    assert_eq!(short, [7u8; 11]);

    let mut buf = [7u8; 12];
    let wide = Header { payload_type: 128, ..header };
    assert_eq!(wide.marshal(&mut buf), Err(CodecError::FieldOutOfRange));
    let wide = Header { csrc_count: 16, ..header };
    assert_eq!(wide.marshal(&mut buf), Err(CodecError::FieldOutOfRange));
    let wide = Header { version: 4, ..header };
    assert_eq!(wide.marshal(&mut buf), Err(CodecError::FieldOutOfRange));
    assert_eq!(buf, [7u8; 12]);
}

#[test]
fn header_unmarshal_errors() {
    assert_eq!(Header::unmarshal(&[0x80u8; 11]), Err(CodecError::Truncated));
    let mut buf = [0u8; 12];
    buf[0] = 0x40;
    assert_eq!(Header::unmarshal(&buf), Err(CodecError::UnsupportedVersion));
    buf[0] = 0xC0;
    assert_eq!(Header::unmarshal(&buf), Err(CodecError::UnsupportedVersion));
}

#[test]
fn packet_roundtrip() {
    let header = Header::with_identifiers(96, 0x01020304, true, 0x0506, 0x0708090A);
    let packet = Packet::new(header, vec![1, 2, 3, 4, 5]);
    assert_eq!(packet.marshal_size(), 17);
    let mut buf = [0xEEu8; 20];
    assert_eq!(packet.marshal(&mut buf), Ok(17));
    assert_eq!(
        buf,
        [
            0x80, 0xE0, 0x05, 0x06, 0x01, 0x02, 0x03, 0x04, 0x07, 0x08, 0x09, 0x0A, 1, 2, 3, 4, 5,
            0xEE, 0xEE, 0xEE
        ]
    );
    let (decoded, used) = Packet::unmarshal(&buf[..17]).unwrap();
    assert_eq!(used, 17);
    assert_eq!(*decoded.header(), header);
    assert_eq!(decoded.payload(), &vec![1u8, 2, 3, 4, 5]);
    assert_eq!(to_bytes(&packet).unwrap(), buf[..17].to_vec());
}

#[test]
fn packet_errors() {
    let header = Header::with_identifiers(96, 0, false, 1, 2);
    let packet = Packet::new(header, vec![9; 4]);
    let mut short = [0u8; 15];
    assert_eq!(packet.marshal(&mut short), Err(CodecError::BufferTooSmall));
    assert_eq!(short, [0u8; 15]);
    assert!(matches!(Packet::unmarshal(&[0x80u8; 5]), Err(CodecError::Truncated)));
    let empty = Packet::unmarshal(&[0x80u8, 0, 0, 0, 0, 0, 0, 0, 0, 0, 0, 0]).unwrap();
    assert_eq!(empty.0.payload().len(), 0);
    assert_eq!(empty.1, 12);
}
