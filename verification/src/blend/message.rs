//! Encapsulated messages, and their bytes on the wire.

use vstd::prelude::*;

use crate::mantle::codec::push_bytes;

verus! {

/// Why a message is not accepted.
#[derive(Debug, Clone, Copy, PartialEq, Eq, Structural)]
pub enum Error {
    MessageDeserializationFailed,
}

/// Identifier of a message.
pub type MessageIdentifier = [u8; 32];

/// A message in layers of encryption, in the form that it has on the wire.
#[derive(Debug, PartialEq, Eq, Hash)]
pub struct EncapsulatedMessage {
    bytes: Vec<u8>,
}

/// A message whose outermost signature has been verified.
#[derive(Debug, PartialEq, Eq, Hash)]
pub struct EncapsulatedMessageWithVerifiedSignature {
    message: EncapsulatedMessage,
}

/// A message whose outermost signature and proof of quota have been verified.
#[derive(Debug, PartialEq, Eq, Hash)]
pub struct EncapsulatedMessageWithVerifiedPublicHeader {
    message: EncapsulatedMessage,
}

impl View for EncapsulatedMessage {
    type V = Seq<u8>;

    closed spec fn view(&self) -> Seq<u8> {
        self.bytes@
    }
}

impl View for EncapsulatedMessageWithVerifiedSignature {
    type V = Seq<u8>;

    closed spec fn view(&self) -> Seq<u8> {
        self.message@
    }
}

impl View for EncapsulatedMessageWithVerifiedPublicHeader {
    type V = Seq<u8>;

    closed spec fn view(&self) -> Seq<u8> {
        self.message@
    }
}

impl Clone for EncapsulatedMessage {
    fn clone(&self) -> (r: Self)
        ensures
            r@ == self@,
    {
        Self { bytes: serialize_message(self) }
    }
}

impl Clone for EncapsulatedMessageWithVerifiedSignature {
    fn clone(&self) -> (r: Self)
        ensures
            r@ == self@,
    {
        Self { message: self.message.clone() }
    }
}

impl Clone for EncapsulatedMessageWithVerifiedPublicHeader {
    fn clone(&self) -> (r: Self)
        ensures
            r@ == self@,
    {
        Self { message: self.message.clone() }
    }
}

impl EncapsulatedMessage {
    /// The bytes of the message on the wire.
    #[must_use]
    pub fn as_bytes(&self) -> (r: &[u8])
        ensures
            r@ == self@,
    {
        self.bytes.as_slice()
    }

    /// The message after someone has found its signature to be right.
    #[must_use]
    pub fn with_verified_signature(self) -> (r: EncapsulatedMessageWithVerifiedSignature)
        ensures
            r@ == self@,
    {
        EncapsulatedMessageWithVerifiedSignature { message: self }
    }

    /// The message after someone has found its public header to be right.
    #[must_use]
    pub fn with_verified_public_header(self) -> (r: EncapsulatedMessageWithVerifiedPublicHeader)
        ensures
            r@ == self@,
    {
        EncapsulatedMessageWithVerifiedPublicHeader { message: self }
    }
}

impl EncapsulatedMessageWithVerifiedSignature {
    /// The message after someone has found its proof of quota to be right too.
    #[must_use]
    pub fn with_verified_proof_of_quota(self) -> (r: EncapsulatedMessageWithVerifiedPublicHeader)
        ensures
            r@ == self@,
    {
        EncapsulatedMessageWithVerifiedPublicHeader { message: self.message }
    }
}

impl From<EncapsulatedMessageWithVerifiedPublicHeader> for EncapsulatedMessageWithVerifiedSignature {
    fn from(value: EncapsulatedMessageWithVerifiedPublicHeader) -> (r: Self)
        ensures
            r@ == value@,
    {
        Self { message: value.message }
    }
}

impl vstd::std_specs::convert::FromSpecImpl<EncapsulatedMessageWithVerifiedPublicHeader> for EncapsulatedMessageWithVerifiedSignature {
    open spec fn obeys_from_spec() -> bool {
        true
    }

    closed spec fn from_spec(value: EncapsulatedMessageWithVerifiedPublicHeader) -> Self {
        Self { message: value.message }
    }
}

/// The bytes of a message on the wire.
#[must_use]
pub fn serialize_encapsulated_message_with_verified_public_header(
    message: &EncapsulatedMessageWithVerifiedPublicHeader,
) -> (r: Vec<u8>)
    ensures
        r@ == message@,
{
    serialize_message(&message.message)
}

/// The bytes of a message on the wire.
#[must_use]
pub fn serialize_encapsulated_message_with_verified_signature(
    message: &EncapsulatedMessageWithVerifiedSignature,
) -> (r: Vec<u8>)
    ensures
        r@ == message@,
{
    serialize_message(&message.message)
}

fn serialize_message(message: &EncapsulatedMessage) -> (r: Vec<u8>)
    ensures
        r@ == message@,
{
    let mut bytes: Vec<u8> = Vec::new();
    push_bytes(&mut bytes, message.bytes.as_slice());
    assert(bytes@ =~= message@);
    bytes
}

/// Reads a message from its bytes on the wire. `is_message` says whether bytes
/// are those of a message.
pub fn deserialize_encapsulated_message<F: FnOnce(&[u8]) -> bool>(
    message: &[u8],
    is_message: F,
) -> (r: Result<EncapsulatedMessage, Error>)
    requires
        call_requires(is_message, (message,)),
    ensures
        match r {
            Ok(read) => call_ensures(is_message, (message,), true) && read@ == message@,
            Err(e) => call_ensures(is_message, (message,), false) && e
                == Error::MessageDeserializationFailed,
        },
{
    if is_message(message) {
        let mut bytes: Vec<u8> = Vec::new();
        push_bytes(&mut bytes, message);
        assert(bytes@ =~= message@);
        Ok(EncapsulatedMessage { bytes })
    } else {
        Err(Error::MessageDeserializationFailed)
    }
}

} // verus!
