//! Connection session: the per-connection delivery logic. A session owns
//! one subscriber and one connection; it folds each hub receive outcome
//! into its two-state machine (streaming until a terminal event, then
//! terminated for good) and tells its runner what to do with the
//! connection: write one length-prefixed frame, wait for input, skip ahead
//! after a lag, or stop and release both resources.
//!
//! A fault in one session never touches the hub's other subscribers: the
//! session only ever receives on, and finally unregisters, its own handle.

use crate::codec::spec_decode;
use crate::codec::spec_encode;
use crate::codec::Packet;
use crate::hub::lemma_publish_all_in_order;
use crate::hub::sub_publish_all;
use crate::hub::Received;
use crate::hub::SubscriberView;
use vstd::prelude::*;

verus! {

/// The four big-endian bytes of a 32-bit length.
pub open spec fn spec_u32_to_be_bytes(x: u32) -> Seq<u8> {
    seq![
        ((x >> 24) & 0xff) as u8,
        ((x >> 16) & 0xff) as u8,
        ((x >> 8) & 0xff) as u8,
        (x & 0xff) as u8,
    ]
}

/// The wire frame around one encoded packet: a 4-byte big-endian length,
/// then the payload.
pub open spec fn spec_frame(payload: Seq<u8>) -> Seq<u8>
    recommends
        payload.len() <= u32::MAX,
{
    spec_u32_to_be_bytes(payload.len() as u32) + payload
}

/// Builds the length prefix of a frame.
fn u32_to_be_bytes(x: u32) -> (r: Vec<u8>)
    ensures
        r@ == spec_u32_to_be_bytes(x),
{
    let mut r: Vec<u8> = Vec::new();
    r.push(((x >> 24) & 0xff) as u8);
    r.push(((x >> 16) & 0xff) as u8);
    r.push(((x >> 8) & 0xff) as u8);
    r.push((x & 0xff) as u8);
    proof {
        assert(r@ =~= spec_u32_to_be_bytes(x));
    }
    r
}

/// Wraps one encoded packet in its wire frame.
pub fn frame(payload: &Vec<u8>) -> (r: Vec<u8>)
    requires
        payload@.len() <= u32::MAX,
    ensures
        r@ == spec_frame(payload@),
        r@.len() == 4 + payload@.len(),
{
    let mut r = u32_to_be_bytes(payload.len() as u32);
    let mut body = vstd::slice::slice_to_vec(payload.as_slice());
    r.append(&mut body);
    proof {
        assert(r@ =~= spec_frame(payload@));
    }
    r
}

/// A session's lifecycle: it streams until a terminal event, then stays
/// terminated; there is no resumption.
#[derive(Clone, Copy, PartialEq, Eq, Structural, Debug)]
pub enum SessionState {
    Streaming,
    Terminated,
}

/// What the session's runner must do with the connection next.
#[derive(Debug)]
pub enum SessionAction {
    /// Write these bytes, one whole frame, to the connection.
    Write(Vec<u8>),
    /// Nothing pending: wait until the hub signals new input, then receive
    /// again.
    Wait,
    /// Entries were dropped; resume from the next available packet. The
    /// drop is silent to the peer.
    Skip,
    /// Release the subscriber and the connection.
    Stop,
}

/// One decision of the session state machine: folds the outcome of one hub
/// receive into the next state and the action the runner must take. A lag
/// never terminates the session and is silent to the peer; hub closure is
/// the terminal signal. A payload too long to frame is an internal-invariant
/// violation and terminates only this session.
pub fn session_step(state: SessionState, event: Received) -> (r: (SessionState, SessionAction))
    ensures
        state is Terminated ==> r.0 is Terminated && r.1 is Stop,
        state is Streaming ==> match event {
            Received::Bytes(b) => {
                if b@.len() <= u32::MAX {
                    &&& r.0 is Streaming
                    &&& r.1 matches SessionAction::Write(f) && f@ == spec_frame(b@)
                } else {
                    r.0 is Terminated && r.1 is Stop
                }
            },
            Received::Lagged(n) => r.0 is Streaming && r.1 is Skip,
            Received::Empty => r.0 is Streaming && r.1 is Wait,
            Received::Closed => r.0 is Terminated && r.1 is Stop,
        },
{
    match state {
        SessionState::Terminated => (SessionState::Terminated, SessionAction::Stop),
        SessionState::Streaming => match event {
            Received::Bytes(b) => {
                if b.len() as u64 <= u32::MAX as u64 {
                    let f = frame(&b);
                    (SessionState::Streaming, SessionAction::Write(f))
                } else {
                    (SessionState::Terminated, SessionAction::Stop)
                }
            },
            Received::Lagged(_) => (SessionState::Streaming, SessionAction::Skip),
            Received::Empty => (SessionState::Streaming, SessionAction::Wait),
            Received::Closed => (SessionState::Terminated, SessionAction::Stop),
        },
    }
}

/// Order preservation, end to end: publishing the encodings of a batch of
/// packets to a subscriber with room for all of them queues one entry per
/// packet, in publish order, with nothing dropped — and decoding each
/// queued entry gives back exactly the packet published, in order. Since
/// `receive` always hands out the front of the queue, a subscriber that
/// never lags receives exactly the published packets, in order.
pub proof fn lemma_stream_in_order(s: SubscriberView, pkts: Seq<Packet>, cap: nat)
    requires
        s.active,
        s.queue.len() == 0,
        pkts.len() <= cap,
    ensures
        ({
            let t = sub_publish_all(s, pkts.map_values(|p: Packet| spec_encode(p)), cap);
            &&& t.queue.len() == pkts.len()
            &&& t.dropped == s.dropped
            &&& forall|i: int|
                0 <= i < pkts.len() ==> spec_decode(t.queue[i]) == Ok::<Packet, crate::codec::DecodeError>(
                    pkts[i],
                )
        }),
{
    let ps = pkts.map_values(|p: Packet| spec_encode(p));
    lemma_publish_all_in_order(s, ps, cap);
    let t = sub_publish_all(s, ps, cap);
    assert(t.queue =~= ps);
    assert forall|i: int| 0 <= i < pkts.len() implies spec_decode(t.queue[i]) == Ok::<
        Packet,
        crate::codec::DecodeError,
    >(pkts[i]) by {
        crate::codec::lemma_round_trip(pkts[i]);
    }
}

} // verus!
