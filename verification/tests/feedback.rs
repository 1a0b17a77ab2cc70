use risty::error::CodecError;
use risty::marshal::{to_bytes, Marshal};
use risty::rtcp::feedback::nack::{Fci, GenericNack};
use risty::rtcp::feedback::rist::{PacketRangeRequest, RangeBasedNACK, RttEcho};
use risty::rtcp::feedback::{Subtype, RIST_NAME};
use risty::rtcp::header::Header;

#[test]
fn subtype_codes() {
    assert_eq!(Subtype::RangeBasedNACK.code(), 0);
    assert_eq!(Subtype::GenericNack.code(), 1);
    assert_eq!(Subtype::EchoRequest.code(), 2);
    assert_eq!(Subtype::EchoResponse.code(), 3);
    assert_eq!(RIST_NAME.to_be_bytes(), *b"RIST");
}

#[test]
fn fci_names_the_packets_of_its_bitmask() {
    let fci = Fci { pid: 100, blp: 0b0000000000000011 };
    assert_eq!(fci.lost_sequence_numbers(), vec![100, 101, 102]);
    assert_eq!(Fci { pid: 7, blp: 0 }.lost_sequence_numbers(), vec![7]);
    assert_eq!(Fci { pid: 0xFFFF, blp: 0x8001 }.lost_sequence_numbers(), vec![0xFFFF, 0, 15]);
    let all = Fci { pid: 10, blp: 0xFFFF }.lost_sequence_numbers();
    assert_eq!(all, (10u16..=26).collect::<Vec<u16>>());
    assert_eq!(Fci { pid: 1, blp: 0b100 }.lost_sequence_numbers(), vec![1, 4]);
}

#[test]
fn generic_nack_layout_and_roundtrip() {
    let fcis = [Fci { pid: 100, blp: 3 }, Fci { pid: 0xFFFF, blp: 0x8001 }];
    let nack = GenericNack::new(0x11223344, &fcis);
    assert_eq!(nack.ssrc_packet_sender, 0);
    assert_eq!(nack.ssrc_media_src, 0x11223344);
    assert_eq!(nack.fcis, fcis.to_vec());
    assert_eq!(nack.marshal_size(), 20);
    let mut buf = [0xEEu8; 21];
    assert_eq!(nack.marshal(&mut buf), Ok(20));
    assert_eq!(
        buf,
        [
            0x81, 0xCD, 0x00, 0x04, 0x00, 0x00, 0x00, 0x00, 0x11, 0x22, 0x33, 0x44, 0x00, 0x64,
            0x00, 0x03, 0xFF, 0xFF, 0x80, 0x01, 0xEE
        ]
    );
    assert_eq!(GenericNack::unmarshal(&buf), Ok((nack.clone(), 20)));
    assert_eq!(nack.lost_sequence_numbers(), vec![100, 101, 102, 0xFFFF, 0, 15]);
}

#[test]
fn generic_nack_grows_by_four_bytes_for_each_entry() {
    let mut fcis = Vec::new();
    for n in 0..5u16 {
        let nack = GenericNack::new(1, &fcis);
        assert_eq!(nack.marshal_size(), 12 + 4 * n as usize);
        assert_eq!(to_bytes(&nack).unwrap().len(), 12 + 4 * n as usize);
        fcis.push(Fci { pid: n, blp: n });
    }
    let none = GenericNack::new(9, &[]);
    let bytes = to_bytes(&none).unwrap();
    assert_eq!(bytes, vec![0x81, 0xCD, 0x00, 0x02, 0, 0, 0, 0, 0, 0, 0, 9]);
    assert_eq!(GenericNack::unmarshal(&bytes), Ok((none, 12)));
}

#[test]
fn generic_nack_errors() {
    let nack = GenericNack::new(1, &[Fci { pid: 1, blp: 2 }]);
    let mut short = [4u8; 15];
    assert_eq!(nack.marshal(&mut short), Err(CodecError::BufferTooSmall));
    assert_eq!(short, [4u8; 15]);
    let many = GenericNack::new(1, &vec![Fci { pid: 1, blp: 2 }; 65534]);
    let mut big = vec![0u8; 12 + 4 * 65534];
    assert_eq!(many.marshal(&mut big), Err(CodecError::FieldOutOfRange));
    let most = GenericNack::new(1, &vec![Fci { pid: 1, blp: 2 }; 65533]);
    assert_eq!(most.marshal(&mut big), Ok(12 + 4 * 65533));
    assert_eq!(&big[..4], &[0x81, 0xCD, 0xFF, 0xFF]);
    assert_eq!(GenericNack::unmarshal(&big[..12 + 4 * 65533]), Ok((most, 12 + 4 * 65533)));

    let good = to_bytes(&nack).unwrap();
    assert_eq!(GenericNack::unmarshal(&good[..15]), Err(CodecError::Truncated));
    let mut kind = good.clone();
    kind[0] = 0x80;
    assert_eq!(GenericNack::unmarshal(&kind), Err(CodecError::UnknownPacketType));
    let mut brief = good.clone();
    brief[3] = 1;
    assert_eq!(GenericNack::unmarshal(&brief), Err(CodecError::Truncated));
    let mut other = good.clone();
    other[1] = 204;
    assert_eq!(GenericNack::unmarshal(&other), Err(CodecError::UnknownPacketType));
}

#[test]
fn range_request_names_its_run() {
    assert_eq!(PacketRangeRequest { seq_start: 10, nb_consecutive: 0 }.lost_sequence_numbers(), vec![10]);
    assert_eq!(PacketRangeRequest { seq_start: 10, nb_consecutive: 2 }.lost_sequence_numbers(), vec![10, 11, 12]);
    assert_eq!(PacketRangeRequest { seq_start: 0xFFFE, nb_consecutive: 3 }.lost_sequence_numbers(), vec![0xFFFE, 0xFFFF, 0, 1]);
    assert_eq!(PacketRangeRequest { seq_start: 5, nb_consecutive: 0xFFFF }.lost_sequence_numbers().len(), 65536);
}

#[test]
fn range_nack_layout_and_roundtrip() {
    let ranges = [PacketRangeRequest { seq_start: 10, nb_consecutive: 2 }];
    let nack = RangeBasedNACK::new(0x55667788, &ranges);
    assert_eq!(nack.marshal_size(), 16);
    let mut buf = [0xEEu8; 16];
    assert_eq!(nack.marshal(&mut buf), Ok(16));
    assert_eq!(
        buf,
        [
            0x80, 0xCD, 0x00, 0x03, 0x55, 0x66, 0x77, 0x88, 0x52, 0x49, 0x53, 0x54, 0x00, 0x0A,
            0x00, 0x02
        ]
    );
    assert_eq!(RangeBasedNACK::unmarshal(&buf), Ok((nack.clone(), 16)));
    assert_eq!(nack.lost_sequence_numbers(), vec![10, 11, 12]);
}

#[test]
fn range_nack_errors() {
    let nack = RangeBasedNACK::new(1, &[PacketRangeRequest { seq_start: 1, nb_consecutive: 1 }]);
    let mut short = [0u8; 15];
    assert_eq!(nack.marshal(&mut short), Err(CodecError::BufferTooSmall));
    let many = RangeBasedNACK::new(1, &vec![PacketRangeRequest { seq_start: 1, nb_consecutive: 1 }; 65534]);
    let mut big = vec![0u8; 12 + 4 * 65534];
    assert_eq!(many.marshal(&mut big), Err(CodecError::FieldOutOfRange));
    let good = to_bytes(&nack).unwrap();
    let mut name = good.clone();
    name[11] = 0x55;
    assert_eq!(RangeBasedNACK::unmarshal(&name), Err(CodecError::UnknownPacketType));
    let mut kind = good.clone();
    kind[0] = 0x81;
    assert_eq!(RangeBasedNACK::unmarshal(&kind), Err(CodecError::UnknownPacketType));
    assert_eq!(RangeBasedNACK::unmarshal(&good[..14]), Err(CodecError::Truncated));
    let mut brief = good.clone();
    brief[3] = 0;
    assert_eq!(RangeBasedNACK::unmarshal(&brief), Err(CodecError::Truncated));
}

#[test]
fn echo_layout_and_roundtrip() {
    let request = RttEcho::new_request(0xAABBCCDD, 1, 0x0102030405060708);
    assert_eq!(
        request,
        RttEcho {
            subtype: Subtype::EchoRequest,
            ssrc: 0xAABBCCDD,
            timestamp: 0x0102030405060708,
            processing_delay: 0,
            padding_size: 1,
        }
    );
    assert_eq!(request.marshal_size(), 32);
    let mut buf = [0xEEu8; 33];
    assert_eq!(request.marshal(&mut buf), Ok(32));
    assert_eq!(
        buf,
        [
            0x82, 0xCC, 0x00, 0x06, 0xAA, 0xBB, 0xCC, 0xDD, 0x52, 0x49, 0x53, 0x54, 0x01, 0x02,
            0x03, 0x04, 0x05, 0x06, 0x07, 0x08, 0, 0, 0, 0, 0, 0, 0, 0, 0, 0, 0, 0, 0xEE
        ]
    );
    assert_eq!(RttEcho::unmarshal(&buf), Ok((request, 32)));

    let response = RttEcho::new_response(1, 2, 0x1122334455667788, 0);
    assert_eq!(response.marshal_size(), 28);
    let bytes = to_bytes(&response).unwrap();
    assert_eq!(
        bytes,
        vec![
            0x83, 0xCC, 0x00, 0x05, 0, 0, 0, 1, 0x52, 0x49, 0x53, 0x54, 0, 0, 0, 0, 0, 0, 0, 2,
            0x11, 0x22, 0x33, 0x44, 0x55, 0x66, 0x77, 0x88
        ]
    );
    assert_eq!(RttEcho::unmarshal(&bytes), Ok((response, 28)));
}

#[test]
fn echo_size_is_twenty_eight_bytes_and_the_padding() {
    for padding in [0u32, 1, 2, 17, 1000] {
        let echo = RttEcho::new_request(1, padding, 2);
        assert_eq!(echo.marshal_size(), 28 + 4 * padding as usize);
        let bytes = to_bytes(&echo).unwrap();
        assert_eq!(bytes.len(), 28 + 4 * padding as usize);
        assert_eq!(u16::from_be_bytes([bytes[2], bytes[3]]) as u32, 5 + padding);
        assert!(bytes[28..].iter().all(|b| *b == 0));
        assert_eq!(RttEcho::unmarshal(&bytes), Ok((echo, bytes.len())));
    }
    assert_eq!(RttEcho::calculate_length(0), Some(5));
    assert_eq!(RttEcho::calculate_length(65530), Some(65535));
    assert_eq!(RttEcho::calculate_length(65531), None);
}

#[test]
fn feedback_headers_can_be_read_without_encoding() {
    let request = RttEcho::new_request(1, 3, 2);
    assert_eq!(request.header(), Some(Header::new(2, 204, 8)));
    assert_eq!(request.name(), 0x52495354);
    assert_eq!(RttEcho::new_response(1, 2, 3, 0).header(), Some(Header::new(3, 204, 5)));
    assert_eq!(RttEcho::new_request(1, 65531, 2).header(), None);
    let nack = GenericNack::new(1, &[Fci { pid: 1, blp: 2 }, Fci { pid: 3, blp: 4 }]);
    assert_eq!(nack.header(), Some(Header::new(1, 205, 4)));
    assert_eq!(GenericNack::new(1, &vec![Fci { pid: 1, blp: 2 }; 65534]).header(), None);
    let ranges = RangeBasedNACK::new(1, &[PacketRangeRequest { seq_start: 1, nb_consecutive: 1 }]);
    assert_eq!(ranges.header(), Some(Header::new(0, 205, 3)));
    assert_eq!(ranges.name(), RIST_NAME);
}

#[test]
fn echo_errors() {
    let echo = RttEcho::new_request(1, 0, 2);
    let mut short = [8u8; 27];
    assert_eq!(echo.marshal(&mut short), Err(CodecError::BufferTooSmall));
    assert_eq!(short, [8u8; 27]);
    let mut buf = vec![8u8; 28 + 4 * 65531];
    assert_eq!(RttEcho::new_request(1, 65531, 2).marshal(&mut buf), Err(CodecError::FieldOutOfRange));
    assert_eq!(RttEcho { subtype: Subtype::GenericNack, ..echo }.marshal(&mut buf), Err(CodecError::FieldOutOfRange));
    assert!(buf.iter().all(|b| *b == 8));
    assert_eq!(RttEcho::new_request(1, 65530, 2).marshal(&mut buf), Ok(28 + 4 * 65530));

    let good = to_bytes(&echo).unwrap();
    assert_eq!(RttEcho::unmarshal(&good[..27]), Err(CodecError::Truncated));
    assert_eq!(RttEcho::unmarshal(&good[..23]), Err(CodecError::Truncated));
    let mut kind = good.clone();
    kind[0] = 0x84;
    assert_eq!(RttEcho::unmarshal(&kind), Err(CodecError::UnknownPacketType));
    let mut name = good.clone();
    name[8] = b'X';
    assert_eq!(RttEcho::unmarshal(&name), Err(CodecError::UnknownPacketType));
    let mut brief = good.clone();
    brief[3] = 4;
    assert_eq!(RttEcho::unmarshal(&brief), Err(CodecError::Truncated));
    let mut other = good.clone();
    other[1] = 205;
    assert_eq!(RttEcho::unmarshal(&other), Err(CodecError::UnknownPacketType));
}
