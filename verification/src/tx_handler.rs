//! The transaction effects channel: each publish is two consecutive
//! frames, the binary effects and then the JSON event list, both with a
//! big-endian length.
//!
//! The cache update channel writes its lengths little-endian; see there.

use crate::channel::{Channel, Delivery};
use crate::error::IpcError;
use crate::frame::{
    binary_frame, decode_binary_frame, encode_binary_frame, frame_payload, lemma_frame_round_trip,
    ByteOrder,
};
use vstd::prelude::*;

verus! {

/// What one publish puts on the wire: the frame of the effects, then the
/// frame of the events.
pub open spec fn effects_frames(effects: Seq<u8>, events: Seq<u8>) -> Seq<u8> {
    binary_frame(effects, TxHandler::byte_order()) + binary_frame(
        events,
        TxHandler::byte_order(),
    )
}

/// The two payloads at the start of `stream`, or `None` where either frame
/// is incomplete.
pub open spec fn effects_payloads(stream: Seq<u8>) -> Option<(Seq<u8>, Seq<u8>)> {
    match frame_payload(stream, TxHandler::byte_order()) {
        None => None,
        Some(effects) => match frame_payload(
            stream.skip(4 + effects.len() as int),
            TxHandler::byte_order(),
        ) {
            None => None,
            Some(events) => Some((effects, events)),
        },
    }
}

/// Frames the serialized effects and the serialized events, one after the
/// other.
pub fn encode_effects_frames(effects: &[u8], events: &[u8]) -> (bytes: Vec<u8>)
    ensures
        bytes@ == effects_frames(effects@, events@),
{
    let mut bytes = encode_binary_frame(effects, ByteOrder::BigEndian);
    let mut second = encode_binary_frame(events, ByteOrder::BigEndian);
    bytes.append(&mut second);
    bytes
}

/// Reads the two frames of one publish from the start of `stream`.
///
/// Fails with `ShortRead` exactly when either frame is incomplete.
pub fn decode_effects_frames(stream: &[u8]) -> (result: Result<(Vec<u8>, Vec<u8>), IpcError>)
    ensures
        match result {
            Ok((effects, events)) => effects_payloads(stream@) == Some((effects@, events@)),
            Err(e) => e == IpcError::ShortRead && effects_payloads(stream@) is None,
        },
{
    let effects = match decode_binary_frame(stream, ByteOrder::BigEndian) {
        Ok(payload) => payload,
        Err(e) => {
            return Err(e);
        },
    };
    let total: usize = stream.len();
    assert(effects@.len() + 4 <= total);
    let next: usize = 4 + effects.len();
    let rest = vstd::slice::slice_subrange(stream, next, total);
    match decode_binary_frame(rest, ByteOrder::BigEndian) {
        Ok(events) => Ok((effects, events)),
        Err(e) => Err(e),
    }
}

/// Decoding what one publish put on the wire gives both payloads back, as
/// long as each length fits in the 32-bit header.
pub proof fn lemma_effects_round_trip(effects: Seq<u8>, events: Seq<u8>)
    requires
        effects.len() <= u32::MAX,
        events.len() <= u32::MAX,
    ensures
        effects_payloads(effects_frames(effects, events)) == Some((effects, events)),
{
    let order = TxHandler::byte_order();
    let first = binary_frame(effects, order);
    let second = binary_frame(events, order);
    let stream = first + second;
    assert(frame_payload(stream, order) == Some(effects)) by {
        lemma_frame_round_trip(effects, second, order);
    }
    assert(first.len() == 4 + effects.len()) by {
        lemma_frame_round_trip(effects, second, order);
    }
    assert(stream.skip(4 + effects.len() as int) =~= second);
    assert(frame_payload(second, order) == Some(events)) by {
        lemma_frame_round_trip(events, Seq::empty(), order);
        assert(second + Seq::<u8>::empty() =~= second);
    }
}

/// What a fire-and-forget send does with its payload.
#[derive(Clone, Copy, Debug, PartialEq, Eq, Structural)]
pub enum Dispatch {
    /// Nobody listens: the payload is dropped at once, nothing is cloned
    /// or queued.
    Skip,
    /// The publish is handed to the background execution context.
    Spawn,
}

/// The broadcast channel for transaction effects and events.
pub struct TxHandler {
    /// The subscriber set; the accept loop, the end of a publish and
    /// teardown act on it directly.
    pub channel: Channel,
}

impl TxHandler {
    /// The byte order of this channel's length headers.
    pub open spec fn byte_order() -> ByteOrder {
        ByteOrder::BigEndian
    }

    /// Starts the handler from the outcome of binding its socket. It fails
    /// with `Bind` where the socket could not be bound.
    pub fn new(bound: bool) -> (result: Result<TxHandler, IpcError>)
        ensures
            match result {
                Ok(handler) => bound && handler.channel.wf() && handler.channel.listening()
                    && handler.channel.subscribers().len() == 0,
                Err(e) => !bound && e == IpcError::Bind,
            },
    {
        match Channel::open(bound) {
            Ok(channel) => Ok(TxHandler { channel }),
            Err(e) => Err(e),
        }
    }

    /// Begins a publish. `serialize` gives the binary form of the effects
    /// and the JSON form of the events, or the error that kept it from
    /// doing so.
    ///
    /// Without subscribers nothing is to be done and `serialize` is not
    /// called: it need not even be callable then. With subscribers it is
    /// called once. Its error ends the publish before anything is written.
    /// Its payloads are framed once, and the delivery names every current
    /// subscriber. The caller carries the delivery out and hands it to
    /// `Channel::finish`.
    pub fn send_tx_effects_and_events<E, F: FnOnce() -> Result<(Vec<u8>, Vec<u8>), E>>(
        &self,
        serialize: F,
    ) -> (result: Result<Option<Delivery>, E>)
        requires
            self.channel.subscribers().len() > 0 ==> serialize.requires(()),
        ensures
            match result {
                Ok(None) => self.channel.subscribers().len() == 0,
                Ok(Some(d)) => {
                    &&& self.channel.subscribers().len() > 0
                    &&& d@.targets == self.channel.subscribers()
                    &&& d@.outcomes.len() == 0
                    &&& exists|effects: Vec<u8>, events: Vec<u8>|
                        serialize.ensures((), Ok((effects, events))) && d@.bytes == effects_frames(
                            effects@,
                            events@,
                        )
                },
                Err(e) => self.channel.subscribers().len() > 0 && serialize.ensures((), Err(e)),
            },
    {
        if self.channel.subscriber_count() == 0 {
            return Ok(None);
        }
        match serialize() {
            Ok((effects, events)) => {
                let bytes = encode_effects_frames(effects.as_slice(), events.as_slice());
                Ok(Some(Delivery::new(bytes, self.channel.targets())))
            },
            Err(e) => Err(e),
        }
    }

    /// Whether any subscriber is connected.
    pub fn has_active_connections(&self) -> (active: bool)
        ensures
            active == (self.channel.subscribers().len() > 0),
    {
        self.channel.subscriber_count() > 0
    }

    /// The answer without waiting for the handler: `handler` is `None`
    /// where the handler was busy, and a busy handler is taken to have
    /// subscribers.
    pub fn has_connections_sync(handler: Option<&TxHandler>) -> (active: bool)
        ensures
            active == match handler {
                Some(h) => h.channel.subscribers().len() > 0,
                None => true,
            },
    {
        match handler {
            Some(h) => h.has_active_connections(),
            None => true,
        }
    }

    /// Decides a fire-and-forget send without waiting for the handler:
    /// the publish is spawned unless the handler is known to have no
    /// subscriber. A busy handler (`None`) is taken to have some.
    pub fn send_sync(handler: Option<&TxHandler>) -> (dispatch: Dispatch)
        ensures
            dispatch == match handler {
                Some(h) if h.channel.subscribers().len() == 0 => Dispatch::Skip,
                _ => Dispatch::Spawn,
            },
    {
        if TxHandler::has_connections_sync(handler) {
            Dispatch::Spawn
        } else {
            Dispatch::Skip
        }
    }
}

} // verus!
