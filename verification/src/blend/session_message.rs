//! Messages that belong to a session.

use core::ops::{Deref, DerefMut};
use vstd::prelude::*;

use crate::blend::message::{
    EncapsulatedMessage, EncapsulatedMessageWithVerifiedPublicHeader,
    EncapsulatedMessageWithVerifiedSignature,
};

verus! {

/// What comes out of taking one layer off a message: a message with layers left,
/// or the message that was inside. `M` is the type of the latter, `T` that of
/// the token that the node earns either way.
pub enum DecapsulationOutput<M, T> {
    Incompleted { remaining_encapsulated_message: Box<EncapsulatedMessage>, blending_token: T },
    Completed { fully_decapsulated_message: M, blending_token: T },
}

/// The same, of a message that belongs to a session.
pub enum SessionBoundDecapsulationOutput<M, T> {
    Incompleted {
        remaining_encapsulated_message: Box<SessionBoundEncapsulatedMessage>,
        blending_token: T,
    },
    Completed { fully_decapsulated_message: M, blending_token: T },
}

/// A message that belongs to a session.
#[derive(Debug, PartialEq, Eq, Hash)]
pub struct SessionBoundEncapsulatedMessage {
    message: EncapsulatedMessage,
    session: u64,
}

/// A message of a session whose outermost signature has been verified.
#[derive(Debug, PartialEq, Eq, Hash)]
pub struct SessionBoundEncapsulatedMessageWithVerifiedSignature {
    message: EncapsulatedMessageWithVerifiedSignature,
    session: u64,
}

/// A message of a session whose public header has been verified.
#[derive(Debug, PartialEq, Eq, Hash)]
pub struct SessionBoundEncapsulatedMessageWithVerifiedHeader {
    message: EncapsulatedMessageWithVerifiedPublicHeader,
    session: u64,
}

impl View for SessionBoundEncapsulatedMessage {
    type V = (EncapsulatedMessage, u64);

    closed spec fn view(&self) -> (EncapsulatedMessage, u64) {
        (self.message, self.session)
    }
}

impl View for SessionBoundEncapsulatedMessageWithVerifiedSignature {
    type V = (EncapsulatedMessageWithVerifiedSignature, u64);

    closed spec fn view(&self) -> (EncapsulatedMessageWithVerifiedSignature, u64) {
        (self.message, self.session)
    }
}

impl View for SessionBoundEncapsulatedMessageWithVerifiedHeader {
    type V = (EncapsulatedMessageWithVerifiedPublicHeader, u64);

    closed spec fn view(&self) -> (EncapsulatedMessageWithVerifiedPublicHeader, u64) {
        (self.message, self.session)
    }
}

impl Clone for SessionBoundEncapsulatedMessage {
    fn clone(&self) -> (r: Self)
        ensures
            r@.0@ == self@.0@,
            r@.1 == self@.1,
    {
        Self { message: self.message.clone(), session: self.session }
    }
}

impl Clone for SessionBoundEncapsulatedMessageWithVerifiedSignature {
    fn clone(&self) -> (r: Self)
        ensures
            r@.0@ == self@.0@,
            r@.1 == self@.1,
    {
        Self { message: self.message.clone(), session: self.session }
    }
}

impl Clone for SessionBoundEncapsulatedMessageWithVerifiedHeader {
    fn clone(&self) -> (r: Self)
        ensures
            r@.0@ == self@.0@,
            r@.1 == self@.1,
    {
        Self { message: self.message.clone(), session: self.session }
    }
}

impl<M: Clone, T: Clone> Clone for SessionBoundDecapsulationOutput<M, T> {
    fn clone(&self) -> (r: Self)
        ensures
            match *self {
                Self::Incompleted { remaining_encapsulated_message, blending_token } => {
                    &&& r matches Self::Incompleted {
                        remaining_encapsulated_message: remaining,
                        blending_token: token,
                    }
                    &&& remaining@.0@ == remaining_encapsulated_message@.0@
                    &&& remaining@.1 == remaining_encapsulated_message@.1
                    &&& cloned(blending_token, token)
                },
                Self::Completed { fully_decapsulated_message, blending_token } => {
                    &&& r matches Self::Completed {
                        fully_decapsulated_message: message,
                        blending_token: token,
                    }
                    &&& cloned(fully_decapsulated_message, message)
                    &&& cloned(blending_token, token)
                },
            },
    {
        match self {
            Self::Incompleted { remaining_encapsulated_message, blending_token } => {
                let remaining: SessionBoundEncapsulatedMessage =
                    (&**remaining_encapsulated_message).clone();
                Self::Incompleted {
                    remaining_encapsulated_message: Box::new(remaining),
                    blending_token: blending_token.clone(),
                }
            },
            Self::Completed { fully_decapsulated_message, blending_token } => Self::Completed {
                fully_decapsulated_message: fully_decapsulated_message.clone(),
                blending_token: blending_token.clone(),
            },
        }
    }
}

/// `bound` is `output`, bound to a session.
pub open spec fn binds<M, T>(
    bound: SessionBoundDecapsulationOutput<M, T>,
    output: DecapsulationOutput<M, T>,
    session: u64,
) -> bool {
    match output {
        DecapsulationOutput::Incompleted { remaining_encapsulated_message, blending_token } => {
            &&& bound matches SessionBoundDecapsulationOutput::Incompleted {
                remaining_encapsulated_message: remaining,
                blending_token: token,
            }
            &&& remaining@ == (*remaining_encapsulated_message, session)
            &&& token == blending_token
        },
        DecapsulationOutput::Completed { fully_decapsulated_message, blending_token } => {
            &&& bound matches SessionBoundDecapsulationOutput::Completed {
                fully_decapsulated_message: message,
                blending_token: token,
            }
            &&& message == fully_decapsulated_message
            &&& token == blending_token
        },
    }
}

impl<M, T> SessionBoundDecapsulationOutput<M, T> {
    /// Binds what is left of a message to the session that the message was of.
    #[must_use]
    pub fn from_decapsulation_output(
        decapsulation_output: DecapsulationOutput<M, T>,
        session: u64,
    ) -> (r: Self)
        ensures
            binds(r, decapsulation_output, session),
    {
        match decapsulation_output {
            DecapsulationOutput::Incompleted { remaining_encapsulated_message, blending_token } =>
            Self::Incompleted {
                remaining_encapsulated_message: Box::new(
                    SessionBoundEncapsulatedMessage {
                        message: *remaining_encapsulated_message,
                        session,
                    },
                ),
                blending_token,
            },
            DecapsulationOutput::Completed { fully_decapsulated_message, blending_token } =>
            Self::Completed { fully_decapsulated_message, blending_token },
        }
    }
}

impl SessionBoundEncapsulatedMessage {
    /// Binds a message to a session.
    #[must_use]
    pub fn new(message: EncapsulatedMessage, session: u64) -> (r: Self)
        ensures
            r@ == (message, session),
    {
        Self { message, session }
    }

    /// The message and the session that it belongs to.
    #[must_use]
    pub fn into_components(self) -> (r: (EncapsulatedMessage, u64))
        ensures
            r == self@,
    {
        (self.message, self.session)
    }

    /// Verifies the public header. `verify` does so for the message, and its
    /// error is handed on.
    pub fn verify_public_header<
        E,
        F: FnOnce(EncapsulatedMessage) -> Result<EncapsulatedMessageWithVerifiedPublicHeader, E>,
    >(self, verify: F) -> (r: Result<SessionBoundEncapsulatedMessageWithVerifiedHeader, E>)
        requires
            call_requires(verify, (self@.0,)),
        ensures
            match r {
                Ok(verified) => verified@.1 == self@.1 && call_ensures(
                    verify,
                    (self@.0,),
                    Ok::<_, E>(verified@.0),
                ),
                Err(e) => call_ensures(
                    verify,
                    (self@.0,),
                    Err::<EncapsulatedMessageWithVerifiedPublicHeader, E>(e),
                ),
            },
    {
        match verify(self.message) {
            Ok(message) => Ok(
                SessionBoundEncapsulatedMessageWithVerifiedHeader {
                    message,
                    session: self.session,
                },
            ),
            Err(e) => Err(e),
        }
    }
}

impl SessionBoundEncapsulatedMessageWithVerifiedSignature {
    /// Binds a message to a session.
    #[must_use]
    pub fn new(message: EncapsulatedMessageWithVerifiedSignature, session: u64) -> (r: Self)
        ensures
            r@ == (message, session),
    {
        Self { message, session }
    }

    /// Verifies the proof of quota. `verify` does so for the message, and its
    /// error is handed on.
    pub fn verify_proof_of_quota<
        E,
        F: FnOnce(EncapsulatedMessageWithVerifiedSignature) -> Result<
            EncapsulatedMessageWithVerifiedPublicHeader,
            E,
        >,
    >(self, verify: F) -> (r: Result<SessionBoundEncapsulatedMessageWithVerifiedHeader, E>)
        requires
            call_requires(verify, (self@.0,)),
        ensures
            match r {
                Ok(verified) => verified@.1 == self@.1 && call_ensures(
                    verify,
                    (self@.0,),
                    Ok::<_, E>(verified@.0),
                ),
                Err(e) => call_ensures(
                    verify,
                    (self@.0,),
                    Err::<EncapsulatedMessageWithVerifiedPublicHeader, E>(e),
                ),
            },
    {
        match verify(self.message) {
            Ok(message) => Ok(
                SessionBoundEncapsulatedMessageWithVerifiedHeader {
                    message,
                    session: self.session,
                },
            ),
            Err(e) => Err(e),
        }
    }

    /// The session that the message belongs to.
    #[must_use]
    pub fn session(&self) -> (r: u64)
        ensures
            r == self@.1,
    {
        self.session
    }
}

impl AsRef<
    EncapsulatedMessageWithVerifiedSignature,
> for SessionBoundEncapsulatedMessageWithVerifiedSignature {
    fn as_ref(&self) -> (r: &EncapsulatedMessageWithVerifiedSignature)
        ensures
            *r == self@.0,
    {
        &self.message
    }
}

impl SessionBoundEncapsulatedMessageWithVerifiedHeader {
    /// The message and the session that it belongs to.
    #[must_use]
    pub fn into_components(self) -> (r: (EncapsulatedMessageWithVerifiedPublicHeader, u64))
        ensures
            r == self@,
    {
        (self.message, self.session)
    }

    /// The session that the message belongs to.
    #[must_use]
    pub fn session(&self) -> (r: u64)
        ensures
            r == self@.1,
    {
        self.session
    }

    /// Takes one layer off the message. `open` does so, with the node's key and
    /// what the proof of selection is checked against, and its error is handed
    /// on. What is left of the message stays in the session.
    pub fn decapsulate<
        M,
        T,
        E,
        F: FnOnce(EncapsulatedMessageWithVerifiedPublicHeader) -> Result<
            DecapsulationOutput<M, T>,
            E,
        >,
    >(self, open: F) -> (r: Result<SessionBoundDecapsulationOutput<M, T>, E>)
        requires
            call_requires(open, (self@.0,)),
        ensures
            match r {
                Ok(bound) => exists|output: DecapsulationOutput<M, T>| #[trigger]
                    call_ensures(open, (self@.0,), Ok::<_, E>(output)) && binds(
                        bound,
                        output,
                        self@.1,
                    ),
                Err(e) => call_ensures(
                    open,
                    (self@.0,),
                    Err::<DecapsulationOutput<M, T>, E>(e),
                ),
            },
    {
        match open(self.message) {
            Ok(output) => Ok(
                SessionBoundDecapsulationOutput::from_decapsulation_output(output, self.session),
            ),
            Err(e) => Err(e),
        }
    }
}

impl AsRef<
    EncapsulatedMessageWithVerifiedPublicHeader,
> for SessionBoundEncapsulatedMessageWithVerifiedHeader {
    fn as_ref(&self) -> (r: &EncapsulatedMessageWithVerifiedPublicHeader)
        ensures
            *r == self@.0,
    {
        &self.message
    }
}

impl AsMut<
    EncapsulatedMessageWithVerifiedPublicHeader,
> for SessionBoundEncapsulatedMessageWithVerifiedHeader {
    fn as_mut(&mut self) -> (r: &mut EncapsulatedMessageWithVerifiedPublicHeader)
        ensures
            *r == old(self)@.0,
            final(self)@ == (*final(r), old(self)@.1),
    {
        &mut self.message
    }
}

impl Deref for SessionBoundEncapsulatedMessageWithVerifiedHeader {
    type Target = EncapsulatedMessageWithVerifiedPublicHeader;

    fn deref(&self) -> (r: &EncapsulatedMessageWithVerifiedPublicHeader)
        ensures
            *r == self@.0,
    {
        &self.message
    }
}

impl DerefMut for SessionBoundEncapsulatedMessageWithVerifiedHeader {
    fn deref_mut(&mut self) -> (r: &mut EncapsulatedMessageWithVerifiedPublicHeader)
        ensures
            *r == old(self)@.0,
            final(self)@ == (*final(r), old(self)@.1),
    {
        &mut self.message
    }
}

impl From<
    SessionBoundEncapsulatedMessageWithVerifiedHeader,
> for EncapsulatedMessageWithVerifiedPublicHeader {
    fn from(value: SessionBoundEncapsulatedMessageWithVerifiedHeader) -> (r: Self)
        ensures
            r == value@.0,
    {
        value.message
    }
}

impl vstd::std_specs::convert::FromSpecImpl<
    SessionBoundEncapsulatedMessageWithVerifiedHeader,
> for EncapsulatedMessageWithVerifiedPublicHeader {
    open spec fn obeys_from_spec() -> bool {
        true
    }

    open spec fn from_spec(value: SessionBoundEncapsulatedMessageWithVerifiedHeader) -> Self {
        value@.0
    }
}

impl From<
    SessionBoundEncapsulatedMessageWithVerifiedHeader,
> for SessionBoundEncapsulatedMessageWithVerifiedSignature {
    fn from(value: SessionBoundEncapsulatedMessageWithVerifiedHeader) -> (r: Self)
        ensures
            r@.0@ == value@.0@,
            r@.1 == value@.1,
    {
        Self {
            message: EncapsulatedMessageWithVerifiedSignature::from(value.message),
            session: value.session,
        }
    }
}

impl vstd::std_specs::convert::FromSpecImpl<
    SessionBoundEncapsulatedMessageWithVerifiedHeader,
> for SessionBoundEncapsulatedMessageWithVerifiedSignature {
    open spec fn obeys_from_spec() -> bool {
        true
    }

    closed spec fn from_spec(value: SessionBoundEncapsulatedMessageWithVerifiedHeader) -> Self {
        Self {
            message: <EncapsulatedMessageWithVerifiedSignature as vstd::std_specs::convert::FromSpec<
                EncapsulatedMessageWithVerifiedPublicHeader,
            >>::from_spec(value.message),
            session: value.session,
        }
    }
}

} // verus!
