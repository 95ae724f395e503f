//! The cache update channel: every batch of written objects goes, as one
//! frame with a little-endian length, to each subscriber.
//!
//! The transaction effects channel writes its lengths big-endian. The two
//! orders are part of what existing subscribers read, so neither is changed
//! to match the other; a subscriber of both reads each in its own order.

pub use crate::allow_list::pool_related_object_ids;
use crate::channel::{Channel, Delivery};
use crate::error::IpcError;
use crate::frame::{binary_frame, encode_binary_frame, ByteOrder};
use vstd::prelude::*;

verus! {

/// The broadcast channel for cache updates.
pub struct CacheUpdateHandler {
    /// The subscriber set; the accept loop, the end of a publish and
    /// teardown act on it directly.
    pub channel: Channel,
}

impl CacheUpdateHandler {
    /// The byte order of this channel's length headers.
    pub open spec fn byte_order() -> ByteOrder {
        ByteOrder::LittleEndian
    }

    /// Starts the handler from the outcome of binding its socket. It fails
    /// with `Bind` where the socket could not be bound.
    pub fn new(bound: bool) -> (result: Result<CacheUpdateHandler, IpcError>)
        ensures
            match result {
                Ok(handler) => bound && handler.channel.wf() && handler.channel.listening()
                    && handler.channel.subscribers().len() == 0,
                Err(e) => !bound && e == IpcError::Bind,
            },
    {
        match Channel::open(bound) {
            Ok(channel) => Ok(CacheUpdateHandler { channel }),
            Err(e) => Err(e),
        }
    }

    /// Begins a publish. `serialize` gives the binary form of the written
    /// objects.
    ///
    /// Without subscribers nothing is to be done and `serialize` is not
    /// called: it need not even be callable then. With subscribers it is
    /// called once, its result framed once, and the delivery names every
    /// current subscriber. The caller carries the delivery out and hands it
    /// to `Channel::finish`.
    pub fn notify_written<F: FnOnce() -> Vec<u8>>(&self, serialize: F) -> (delivery: Option<
        Delivery,
    >)
        requires
            self.channel.subscribers().len() > 0 ==> serialize.requires(()),
        ensures
            match delivery {
                None => self.channel.subscribers().len() == 0,
                Some(d) => {
                    &&& self.channel.subscribers().len() > 0
                    &&& d@.targets == self.channel.subscribers()
                    &&& d@.outcomes.len() == 0
                    &&& exists|payload: Vec<u8>|
                        serialize.ensures((), payload) && d@.bytes == binary_frame(
                            payload@,
                            Self::byte_order(),
                        )
                },
            },
    {
        if self.channel.subscriber_count() == 0 {
            return None;
        }
        let payload = serialize();
        let bytes = encode_binary_frame(payload.as_slice(), ByteOrder::LittleEndian);
        Some(Delivery::new(bytes, self.channel.targets()))
    }
}

} // verus!
