use vstd::prelude::*;

verus! {

/// How the queue behind an address hands out its messages.
#[derive(Debug, Clone, Copy, PartialEq, Eq, Structural)]
pub enum DeliveryMode {
    /// One queue shared by all subscribers: each message reaches exactly one of them.
    Anycast,
    /// One queue per subscriber: each message reaches every current subscriber.
    Broadcast,
}

/// A user-defined type that names a queue. Its encoded bytes identify the
/// queue on the server; `delivery_mode` decides how the queue distributes.
pub trait Address {
    /// The delivery mode of the queue this address names (anycast unless overridden).
    fn delivery_mode(&self) -> (mode: DeliveryMode)
        default_ensures
            mode == DeliveryMode::Anycast,
    {
        DeliveryMode::Anycast
    }

    /// How long messages are kept; `0` means unlimited (the default).
    fn retention_time(&self) -> (t: u64)
        default_ensures
            t == 0,
    {
        0
    }

    /// How many bytes of messages are kept; `0` means unlimited (the default).
    fn retention_size(&self) -> (s: u64)
        default_ensures
            s == 0,
    {
        0
    }
}

/// A message that knows the address it is sent to.
pub trait Message: Sized {
    fn address<T: Address>(&self) -> T;
}

} // verus!
