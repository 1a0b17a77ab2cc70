//! The feedback dispatcher: it decodes what the receiver sent and says where
//! each packet belongs.
//!
//! The dispatcher keeps nothing between datagrams. For each datagram it goes
//! from idle to decoding and, packet by packet, to one of its routing
//! outcomes, and is idle again at the end. A datagram that does not decode
//! is refused as a whole: nothing of it is routed.
use vstd::prelude::*;
use crate::error::CodecError;
use crate::rtcp::compound::{
    decode_compound, parse_compound, views, Decoded, DecodedView, RtcpPacket, RtcpPacketView,
};

verus! {

/// Where a decoded packet belongs.
#[derive(Clone, Copy, Debug, PartialEq, Eq, Structural)]
pub enum Routing {
    /// A retransmission request, for the retransmission cache.
    RoutedToNackHandler,
    /// A round-trip echo, for the round-trip estimator.
    RoutedToRttEstimator,
    /// A report or a source description, which the sender only passes on.
    RoutedToReports,
    /// A packet of an unknown type or subtype, which was stepped over.
    Ignored,
}

/// Where a decoded packet belongs.
pub open spec fn routing_of(item: DecodedView) -> Routing {
    match item {
        DecodedView::Packet(RtcpPacketView::GenericNack(_)) => Routing::RoutedToNackHandler,
        DecodedView::Packet(RtcpPacketView::RangeBasedNack(_)) => Routing::RoutedToNackHandler,
        DecodedView::Packet(RtcpPacketView::RttEcho(_)) => Routing::RoutedToRttEstimator,
        DecodedView::Packet(_) => Routing::RoutedToReports,
        DecodedView::Ignored { .. } => Routing::Ignored,
    }
}

/// The packets of a list with the routing of each.
pub open spec fn routed_views(routed: Seq<(Routing, Decoded)>) -> Seq<(Routing, DecodedView)> {
    Seq::new(routed.len(), |i: int| (routed[i].0, routed[i].1@))
}

/// The packets of a list of views with the routing of each.
pub open spec fn with_routing(items: Seq<DecodedView>) -> Seq<(Routing, DecodedView)> {
    Seq::new(items.len(), |i: int| (routing_of(items[i]), items[i]))
}

/// Says where a decoded packet belongs.
pub fn route(item: &Decoded) -> (routing: Routing)
    ensures
        routing == routing_of(item@),
{
    match item {
        Decoded::Packet(RtcpPacket::GenericNack(_)) => Routing::RoutedToNackHandler,
        Decoded::Packet(RtcpPacket::RangeBasedNack(_)) => Routing::RoutedToNackHandler,
        Decoded::Packet(RtcpPacket::RttEcho(_)) => Routing::RoutedToRttEstimator,
        Decoded::Packet(_) => Routing::RoutedToReports,
        Decoded::Ignored { .. } => Routing::Ignored,
    }
}

/// Decodes a datagram and routes each packet in it. A datagram with a fault
/// gives the fault and nothing else.
pub fn dispatch(bytes: &[u8]) -> (r: Result<Vec<(Routing, Decoded)>, CodecError>)
    ensures
        match (r, parse_compound(bytes@)) {
            (Ok(routed), Ok(items)) => routed_views(routed@) == with_routing(items),
            (Err(e), Err(f)) => e == f,
            _ => false,
        },
{
    let mut items: Vec<Decoded> = match decode_compound(bytes) {
        Err(e) => {
            return Err(e);
        },
        Ok(items) => items,
    };
    let ghost decoded = views(items@);
    let n: usize = items.len();
    // A packet can only be moved out of the list at its end, so the routed
    // list is built backwards first and turned round afterwards.
    let mut back: Vec<(Routing, Decoded)> = Vec::new();
    while items.len() > 0
        invariant
            items@.len() + back@.len() == n,
            n == decoded.len(),
            forall|i: int| 0 <= i < items@.len() ==> (#[trigger] items@[i])@ == decoded[i],
            forall|j: int|
                0 <= j < back@.len() ==> (#[trigger] back@[j]).1@ == decoded[n - 1 - j] && back@[j].0
                    == routing_of(decoded[n - 1 - j]),
        decreases items@.len(),
    {
        match items.pop() {
            Some(item) => {
                let routing = route(&item);
                back.push((routing, item));
            },
            None => {},
        }
    }
    let mut routed: Vec<(Routing, Decoded)> = Vec::new();
    while back.len() > 0
        invariant
            routed@.len() + back@.len() == n,
            n == decoded.len(),
            forall|j: int|
                0 <= j < back@.len() ==> (#[trigger] back@[j]).1@ == decoded[n - 1 - j] && back@[j].0
                    == routing_of(decoded[n - 1 - j]),
            forall|i: int|
                0 <= i < routed@.len() ==> (#[trigger] routed@[i]).1@ == decoded[i] && routed@[i].0
                    == routing_of(decoded[i]),
        decreases back@.len(),
    {
        match back.pop() {
            Some(pair) => {
                routed.push(pair);
            },
            None => {},
        }
    }
    assert(routed_views(routed@) =~= with_routing(decoded));
    Ok(routed)
}

} // verus!
