use vstd::prelude::*;

verus! {

/// Errors reported to callers of the channel protocol.
#[derive(Debug, Clone, Copy, PartialEq, Eq, Structural)]
pub enum Error {
    /// A message or announcement belongs to another channel.
    ApplicationInstanceMismatch,
    /// The branching flag of a message disagrees with the channel's.
    BranchingFlagMismatch,
    /// A recomputed message differs from the stored one.
    PublicPayloadMismatch,
    /// A link does not name the expected message.
    LinkMismatch,
    /// A value read back differs from the one expected.
    ValueMismatch,
    /// The sequencing state is not as expected.
    StateMismatch,
    /// No key that this user holds opens the message.
    KeyNotFound,
    /// A signature does not verify.
    SignatureVerificationFailed,
    /// The transport has no message at the address.
    MessageNotFound,
    /// Unknown message type.
    BadType,
    /// Unknown protocol version.
    VersionMismatch,
    /// The bytes end early, run on, or a field has the wrong size.
    Malformed,
}

} // verus!
