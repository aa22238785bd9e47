use vstd::prelude::*;

verus! {

/// Every failure the broker can surface. Client-level errors never escape the
/// connection that caused them; the broker task survives all of them.
#[derive(Clone, Copy, Debug, PartialEq, Eq, Structural)]
pub enum MqttError {
    /// A failure with no more precise description.
    Unknown,
    /// A length-prefixed string did not hold valid UTF-8.
    MalformedString,
    /// The packet type nibble held the reserved value.
    ReservedPacketType,
    /// A byte that the grammar requires was not supplied.
    RequiredByteMissing,
    /// A socket read or write failed.
    Io,
    /// The client broke a protocol rule (empty SUBSCRIBE, missing packet id).
    ProtocolViolation,
    /// The CONNECT asked for a protocol level other than 4 (MQTT 3.1.1).
    UnacceptableProtocolLevel,
    /// The CONNECT named a protocol other than "MQTT".
    UnknownProtocol,
    /// A fixed header or flags byte is malformed.
    MalformedHeader,
    /// A channel send failed because the receiver was dropped.
    ChannelError,
    /// A byte could not be converted into the requested enum.
    Convertion,
    /// The input ended before a required byte.
    MissingByte,
    /// The remaining-length field is malformed or disagrees with the input.
    MalformedRemaingLength,
    /// The fixed header itself is missing.
    MissingFixedHeader,
    /// The CONNECT carried an empty client identifier without clean session.
    ClientIdentifierRejected,
    /// A packet that needs a client identifier arrived before CONNECT.
    FailedToGetCId,
    /// A queue lock was poisoned.
    QueuePoisonError,
    /// A task could not be joined.
    TaskJoinError,
    /// A read-write lock failed.
    RwLockError,
}

} // verus!
