use risty::error::CodecError;
use risty::marshal::{to_bytes, Marshal};
use risty::rtcp::header::{Header, PacketType};
use risty::rtcp::receiver_report::ReceiverReport;
use risty::rtcp::report_block::ReportBlock;
use risty::rtcp::sdes::{calculate_sdes_length, sdes_header, Chunk, Sdes};
use risty::rtcp::sender_report::{SenderInfo, SenderReport};

fn block() -> ReportBlock {
    ReportBlock {
        ssrc: 0x51525354,
        fraction_lost: 0x61,
        cumm_packets_lost: 0x717273,
        highest_extended_seq_num_received: 0x81828384,
        interarrival_jitter: 0x91929394,
        last_sr_timestamp: 0xA1A2A3A4,
        delay_since_last_sr: 0xB1B2B3B4,
    }
}

#[test]
fn packet_type_codes() {
    assert_eq!(PacketType::SenderReport.code(), 200);
    assert_eq!(PacketType::ReceiverReport.code(), 201);
    assert_eq!(PacketType::Sdes.code(), 202);
    assert_eq!(PacketType::App.code(), 204);
    assert_eq!(PacketType::Feedback.code(), 205);
    assert_eq!(PacketType::from_code(200), Some(PacketType::SenderReport));
    assert_eq!(PacketType::from_code(205), Some(PacketType::Feedback));
    assert_eq!(PacketType::from_code(203), None);
    assert_eq!(PacketType::from_code(0), None);
}

#[test]
fn rtcp_header_layout() {
    let header = Header { version: 2, padding: true, packet_specific: 31, packet_type: 204, length: 0x1234 };
    let mut buf = [0u8; 4];
    assert_eq!(header.marshal(&mut buf), Ok(4));
    assert_eq!(buf, [0xBF, 0xCC, 0x12, 0x34]);
    assert_eq!(header.marshal_size(), 4);
    assert_eq!(Header::unmarshal(&buf), Ok((header, 4)));
    assert_eq!(header.packet_size(), 4 * 0x1235);
    assert_eq!(Header::new(1, 205, 3), Header { version: 2, padding: false, packet_specific: 1, packet_type: 205, length: 3 });
}

#[test]
fn rtcp_header_errors() {
    let header = Header::new(32, 200, 0);
    let mut buf = [9u8; 4];
    assert_eq!(header.marshal(&mut buf), Err(CodecError::FieldOutOfRange));
    assert_eq!(Header { version: 4, ..Header::new(0, 200, 0) }.marshal(&mut buf), Err(CodecError::FieldOutOfRange));
    assert_eq!(buf, [9u8; 4]);
    let mut short = [9u8; 3];
    assert_eq!(Header::new(0, 200, 0).marshal(&mut short), Err(CodecError::BufferTooSmall));
    assert_eq!(Header::unmarshal(&[0x80, 200, 0]), Err(CodecError::Truncated));
    assert_eq!(Header::unmarshal(&[0x00, 200, 0, 0]), Err(CodecError::UnsupportedVersion));
    assert_eq!(Header::read_frame(&[0x80, 200, 0, 1, 0, 0, 0], 200), Err(CodecError::Truncated));
    assert_eq!(Header::read_frame(&[0x80, 200, 0, 0], 201), Err(CodecError::UnknownPacketType));
    assert_eq!(Header::read_frame(&[0x80, 200, 0, 0], 200), Ok(Header::new(0, 200, 0)));
}

#[test]
fn sender_report_layout_and_roundtrip() {
    let report = SenderReport {
        ssrc_sender: 0x01020304,
        sender_info: SenderInfo {
            ntp_ts: 0x1112131415161718,
            rtp_ts: 0x21222324,
            sender_packet_count: 0x31323334,
            sender_octet_count: 0x41424344,
        },
    };
    let mut buf = [0xEEu8; 30];
    assert_eq!(report.marshal_size(), 28);
    assert_eq!(report.marshal(&mut buf), Ok(28));
    assert_eq!(
        buf,
        [
            0x80, 0xC8, 0x00, 0x06, 0x01, 0x02, 0x03, 0x04, 0x11, 0x12, 0x13, 0x14, 0x15, 0x16,
            0x17, 0x18, 0x21, 0x22, 0x23, 0x24, 0x31, 0x32, 0x33, 0x34, 0x41, 0x42, 0x43, 0x44,
            0xEE, 0xEE
        ]
    );
    assert_eq!(SenderReport::unmarshal(&buf), Ok((report, 28)));
    let fresh = SenderReport::new(7);
    assert_eq!(fresh.ssrc_sender, 7);
    assert_eq!(fresh.sender_info, SenderInfo { ntp_ts: 0, rtp_ts: 0, sender_packet_count: 0, sender_octet_count: 0 });
}

#[test]
fn sender_report_errors() {
    let bytes = to_bytes(&SenderReport::new(7)).unwrap();
    let mut short = [0u8; 27];
    assert_eq!(SenderReport::new(7).marshal(&mut short), Err(CodecError::BufferTooSmall));
    assert_eq!(SenderReport::unmarshal(&bytes[..27]), Err(CodecError::Truncated));
    assert_eq!(SenderReport::unmarshal(&bytes[..3]), Err(CodecError::Truncated));
    let mut other = bytes.clone();
    other[1] = 201;
    assert_eq!(SenderReport::unmarshal(&other), Err(CodecError::UnknownPacketType));
    let mut blocks = bytes.clone();
    blocks[0] = 0x81;
    assert_eq!(SenderReport::unmarshal(&blocks), Err(CodecError::UnknownPacketType));
    let mut version = bytes.clone();
    version[0] = 0x40;
    assert_eq!(SenderReport::unmarshal(&version), Err(CodecError::UnsupportedVersion));
    let mut brief = bytes.clone();
    brief[3] = 5;
    assert_eq!(SenderReport::unmarshal(&brief), Err(CodecError::Truncated));
    let mut long = bytes.clone();
    long[3] = 7;
    long.extend_from_slice(&[1, 2, 3, 4]);
    assert_eq!(SenderReport::unmarshal(&long), Ok((SenderReport::new(7), 32)));
}

#[test]
fn receiver_report_layout_and_roundtrip() {
    let empty = ReceiverReport::new_empty(0x01020304);
    assert_eq!(empty.marshal_size(), 8);
    let mut buf = [0xEEu8; 8];
    assert_eq!(empty.marshal(&mut buf), Ok(8));
    assert_eq!(buf, [0x80, 0xC9, 0x00, 0x01, 0x01, 0x02, 0x03, 0x04]);
    assert_eq!(ReceiverReport::unmarshal(&buf), Ok((empty, 8)));

    let full = ReceiverReport::new_with_report_block(0x01020304, block());
    assert_eq!(full.marshal_size(), 32);
    let mut buf = [0xEEu8; 32];
    assert_eq!(full.marshal(&mut buf), Ok(32));
    assert_eq!(
        buf,
        [
            0x81, 0xC9, 0x00, 0x07, 0x01, 0x02, 0x03, 0x04, 0x51, 0x52, 0x53, 0x54, 0x61, 0x71,
            0x72, 0x73, 0x81, 0x82, 0x83, 0x84, 0x91, 0x92, 0x93, 0x94, 0xA1, 0xA2, 0xA3, 0xA4,
            0xB1, 0xB2, 0xB3, 0xB4
        ]
    );
    assert_eq!(ReceiverReport::unmarshal(&buf), Ok((full, 32)));

    let zero = ReceiverReport::new(5);
    assert_eq!(zero.ssrc_sender, 5);
    assert_eq!(
        zero.report_block,
        Some(ReportBlock {
            ssrc: 0,
            fraction_lost: 0,
            cumm_packets_lost: 0,
            highest_extended_seq_num_received: 0,
            interarrival_jitter: 0,
            last_sr_timestamp: 0,
            delay_since_last_sr: 0,
        })
    );
    assert_eq!(ReceiverReport::rr_header(), Header::new(1, 201, 7));
    assert_eq!(ReceiverReport::empty_rr_header(), Header::new(0, 201, 1));
}

#[test]
fn receiver_report_errors() {
    let wide = ReceiverReport::new_with_report_block(1, ReportBlock { cumm_packets_lost: 0x0100_0000, ..block() });
    let mut buf = [3u8; 32];
    assert_eq!(wide.marshal(&mut buf), Err(CodecError::FieldOutOfRange));
    assert_eq!(buf, [3u8; 32]);
    let widest = ReceiverReport::new_with_report_block(1, ReportBlock { cumm_packets_lost: 0x00FF_FFFF, ..block() });
    assert_eq!(widest.marshal(&mut buf), Ok(32));
    assert_eq!(ReceiverReport::unmarshal(&buf), Ok((widest, 32)));
    let mut short = [0u8; 31];
    assert_eq!(widest.marshal(&mut short), Err(CodecError::BufferTooSmall));
    let mut short = [0u8; 7];
    assert_eq!(ReceiverReport::new_empty(1).marshal(&mut short), Err(CodecError::BufferTooSmall));

    let mut two = buf;
    two[0] = 0x82;
    assert_eq!(ReceiverReport::unmarshal(&two), Err(CodecError::UnknownPacketType));
    let mut brief = buf;
    brief[3] = 6;
    assert_eq!(ReceiverReport::unmarshal(&brief), Err(CodecError::Truncated));
    assert_eq!(ReceiverReport::unmarshal(&buf[..31]), Err(CodecError::Truncated));
    assert_eq!(ReceiverReport::unmarshal(&[0x80, 0xC9, 0, 0]), Err(CodecError::Truncated));
}

#[test]
fn headers_can_be_read_without_encoding() {
    assert_eq!(SenderReport::new(1).header(), Header::new(0, 200, 6));
    assert_eq!(ReceiverReport::new_empty(1).header(), Header::new(0, 201, 1));
    assert_eq!(ReceiverReport::new(1).header(), Header::new(1, 201, 7));
    let sdes = Sdes::new(Chunk::new(1, String::from("ab@c")));
    assert_eq!(sdes.header(), Some(Header::new(1, 202, 3)));
    assert_eq!(to_bytes(&sdes).unwrap()[..4], [0x81, 0xCA, 0x00, 0x03]);
    assert_eq!(Sdes::new(Chunk::new(1, "x".repeat(258))).header(), None);
}

#[test]
fn sdes_length_formula() {
    assert_eq!(calculate_sdes_length(0), 2);
    assert_eq!(calculate_sdes_length(1), 2);
    assert_eq!(calculate_sdes_length(2), 2);
    assert_eq!(calculate_sdes_length(3), 3);
    assert_eq!(calculate_sdes_length(4), 3);
    assert_eq!(calculate_sdes_length(6), 3);
    assert_eq!(calculate_sdes_length(7), 4);
    assert_eq!(calculate_sdes_length(255), 66);
    assert_eq!(sdes_header(3), Header::new(1, 202, 3));
}

#[test]
fn chunk_new_takes_the_length_of_the_name() {
    let chunk = Chunk::new(0x0A0B0C0D, String::from("ab@c"));
    assert_eq!(chunk.ssrc, 0x0A0B0C0D);
    assert_eq!(chunk.cname, 1);
    assert_eq!(chunk.name_length, 4);
    assert_eq!(chunk.user_and_domain, "ab@c");
    let long = Chunk::new(1, "x".repeat(258));
    assert_eq!(long.name_length, 2);
}

#[test]
fn sdes_layout_and_roundtrip() {
    let sdes = Sdes::new(Chunk::new(0x0A0B0C0D, String::from("ab@c")));
    assert_eq!(sdes.marshal_size(), 16);
    let mut buf = [0xEEu8; 17];
    assert_eq!(sdes.marshal(&mut buf), Ok(16));
    assert_eq!(
        buf,
        [
            0x81, 0xCA, 0x00, 0x03, 0x0A, 0x0B, 0x0C, 0x0D, 0x01, 0x04, 0x61, 0x62, 0x40, 0x63,
            0x00, 0x00, 0xEE
        ]
    );
    assert_eq!(Sdes::unmarshal(&buf), Ok((sdes, 16)));

    let exact = Sdes::new(Chunk::new(1, String::from("ab")));
    assert_eq!(exact.marshal_size(), 12);
    let bytes = to_bytes(&exact).unwrap();
    assert_eq!(bytes, vec![0x81, 0xCA, 0x00, 0x02, 0, 0, 0, 1, 0x01, 0x02, 0x61, 0x62]);
    assert_eq!(Sdes::unmarshal(&bytes), Ok((exact, 12)));

    let longest = Sdes::new(Chunk::new(1, "n".repeat(255)));
    let bytes = to_bytes(&longest).unwrap();
    assert_eq!(bytes.len(), 268);
    assert_eq!(&bytes[..4], &[0x81, 0xCA, 0x00, 66]);
    assert_eq!(Sdes::unmarshal(&bytes), Ok((longest, 268)));
}

#[test]
fn sdes_errors() {
    let mut buf = [5u8; 300];
    let long = Sdes::new(Chunk::new(1, "x".repeat(258)));
    assert_eq!(long.marshal(&mut buf), Err(CodecError::FieldOutOfRange));
    let accent = Sdes::new(Chunk::new(1, String::from("caf\u{e9}")));
    assert_eq!(accent.marshal(&mut buf), Err(CodecError::FieldOutOfRange));
    let mut wrong = Chunk::new(1, String::from("abc"));
    wrong.name_length = 2;
    assert_eq!(Sdes::new(wrong).marshal(&mut buf), Err(CodecError::FieldOutOfRange));
    let mut item = Chunk::new(1, String::from("abc"));
    item.cname = 2;
    assert_eq!(Sdes::new(item).marshal(&mut buf), Err(CodecError::FieldOutOfRange));
    assert_eq!(buf, [5u8; 300]);
    let mut short = [0u8; 15];
    assert_eq!(Sdes::new(Chunk::new(1, String::from("ab@c"))).marshal(&mut short), Err(CodecError::BufferTooSmall));

    let good = to_bytes(&Sdes::new(Chunk::new(1, String::from("ab@c")))).unwrap();
    let mut count = good.clone();
    count[0] = 0x82;
    assert_eq!(Sdes::unmarshal(&count), Err(CodecError::UnknownPacketType));
    let mut item = good.clone();
    item[8] = 2;
    assert_eq!(Sdes::unmarshal(&item), Err(CodecError::UnknownPacketType));
    let mut name = good.clone();
    name[9] = 7;
    assert_eq!(Sdes::unmarshal(&name), Err(CodecError::Truncated));
    let mut high = good.clone();
    high[10] = 0xE9;
    assert_eq!(Sdes::unmarshal(&high), Err(CodecError::FieldOutOfRange));
    let mut two_bytes = good.clone();
    two_bytes[10] = 0xC3;
    two_bytes[11] = 0xA9;
    assert_eq!(Sdes::unmarshal(&two_bytes), Err(CodecError::FieldOutOfRange));
    assert_eq!(Sdes::unmarshal(&[0x81, 0xCA, 0, 1, 0, 0, 0, 1]), Err(CodecError::Truncated));
    assert_eq!(Sdes::unmarshal(&good[..15]), Err(CodecError::Truncated));
}
