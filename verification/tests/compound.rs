use risty::error::CodecError;
use risty::marshal::to_bytes;
use risty::rtcp::compound::{decode_compound, decode_one, Decoded, RtcpPacket};
use risty::rtcp::feedback::nack::{Fci, GenericNack};
use risty::rtcp::feedback::rist::{PacketRangeRequest, RangeBasedNACK, RttEcho};
use risty::rtcp::receiver_report::ReceiverReport;
use risty::rtcp::sdes::{Chunk, Sdes};
use risty::rtcp::sender_report::SenderReport;
use risty::runtime::dispatcher::{dispatch, route, Routing};

fn unknown_packet() -> Vec<u8> {
    vec![0x85, 207, 0x00, 0x02, 1, 2, 3, 4, 5, 6, 7, 8]
}

#[test]
fn unknown_type_between_known_packets_is_stepped_over() {
    let report = SenderReport::new(0x01020304);
    let nack = GenericNack::new(7, &[Fci { pid: 100, blp: 3 }]);
    let mut datagram = to_bytes(&report).unwrap();
    datagram.extend_from_slice(&unknown_packet());
    datagram.extend_from_slice(&to_bytes(&nack).unwrap());

    let decoded = decode_compound(&datagram).unwrap();
    assert_eq!(
        decoded,
        vec![
            Decoded::Packet(RtcpPacket::SenderReport(report)),
            Decoded::Ignored { packet_type: 207, packet_specific: 5 },
            Decoded::Packet(RtcpPacket::GenericNack(nack)),
        ]
    );
    let routed = dispatch(&datagram).unwrap();
    let routings: Vec<Routing> = routed.iter().map(|r| r.0).collect();
    assert_eq!(
        routings,
        vec![Routing::RoutedToReports, Routing::Ignored, Routing::RoutedToNackHandler]
    );
    let items: Vec<Decoded> = routed.into_iter().map(|r| r.1).collect();
    assert_eq!(items, decoded);
}

#[test]
fn every_kind_in_one_datagram() {
    let report = SenderReport::new(1);
    let receiver = ReceiverReport::new_empty(2);
    let sdes = Sdes::new(Chunk::new(3, String::from("a@b")));
    let echo = RttEcho::new_response(4, 5, 6, 2);
    let nack = GenericNack::new(7, &[Fci { pid: 8, blp: 9 }]);
    let ranges = RangeBasedNACK::new(10, &[PacketRangeRequest { seq_start: 11, nb_consecutive: 12 }]);
    let mut datagram = Vec::new();
    datagram.extend_from_slice(&to_bytes(&report).unwrap());
    datagram.extend_from_slice(&to_bytes(&receiver).unwrap());
    datagram.extend_from_slice(&to_bytes(&sdes).unwrap());
    datagram.extend_from_slice(&to_bytes(&echo).unwrap());
    datagram.extend_from_slice(&to_bytes(&nack).unwrap());
    datagram.extend_from_slice(&to_bytes(&ranges).unwrap());

    let decoded = decode_compound(&datagram).unwrap();
    assert_eq!(
        decoded,
        vec![
            Decoded::Packet(RtcpPacket::SenderReport(report)),
            Decoded::Packet(RtcpPacket::ReceiverReport(receiver)),
            Decoded::Packet(RtcpPacket::Sdes(sdes)),
            Decoded::Packet(RtcpPacket::RttEcho(echo)),
            Decoded::Packet(RtcpPacket::GenericNack(nack)),
            Decoded::Packet(RtcpPacket::RangeBasedNack(ranges)),
        ]
    );
    let routings: Vec<Routing> = decoded.iter().map(route).collect();
    assert_eq!(
        routings,
        vec![
            Routing::RoutedToReports,
            Routing::RoutedToReports,
            Routing::RoutedToReports,
            Routing::RoutedToRttEstimator,
            Routing::RoutedToNackHandler,
            Routing::RoutedToNackHandler,
        ]
    );
}

#[test]
fn empty_datagram_holds_nothing() {
    assert_eq!(decode_compound(&[]), Ok(vec![]));
    assert_eq!(dispatch(&[]).unwrap().len(), 0);
}

#[test]
fn a_fault_ends_the_decoding() {
    let mut datagram = to_bytes(&SenderReport::new(1)).unwrap();
    datagram.extend_from_slice(&[0x80, 0xC8, 0x00]);
    assert_eq!(decode_compound(&datagram), Err(CodecError::Truncated));
    assert!(matches!(dispatch(&datagram), Err(CodecError::Truncated)));

    let mut datagram = to_bytes(&SenderReport::new(1)).unwrap();
    datagram.extend_from_slice(&[0x40, 0xC8, 0x00, 0x00]);
    assert_eq!(decode_compound(&datagram), Err(CodecError::UnsupportedVersion));

    let mut datagram = unknown_packet();
    datagram.truncate(11);
    assert_eq!(decode_compound(&datagram), Err(CodecError::Truncated));

    let mut datagram = to_bytes(&SenderReport::new(1)).unwrap();
    datagram[3] = 5;
    assert_eq!(decode_compound(&datagram), Err(CodecError::Truncated));
}

#[test]
fn unknown_subtypes_are_stepped_over_too() {
    let mut app = to_bytes(&RttEcho::new_request(1, 0, 2)).unwrap();
    app[0] = 0x9F;
    app[3] = 6;
    let mut datagram = app.clone();
    datagram.extend_from_slice(&to_bytes(&ReceiverReport::new_empty(2)).unwrap());
    assert_eq!(
        decode_compound(&datagram),
        Ok(vec![
            Decoded::Ignored { packet_type: 204, packet_specific: 31 },
            Decoded::Packet(RtcpPacket::ReceiverReport(ReceiverReport::new_empty(2))),
        ])
    );
    let mut item = to_bytes(&Sdes::new(Chunk::new(3, String::from("a@b")))).unwrap();
    item[8] = 7;
    assert_eq!(
        decode_compound(&item),
        Ok(vec![Decoded::Ignored { packet_type: 202, packet_specific: 1 }])
    );
    assert_eq!(
        decode_one(&unknown_packet()),
        Ok((Decoded::Ignored { packet_type: 207, packet_specific: 5 }, 12))
    );
}
