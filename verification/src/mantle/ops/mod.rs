//! The operations of a transaction.

use vstd::prelude::*;

use crate::crypto::{blake2b, blake2b_256};
use crate::mantle::codec::{
    all_accepted, decode_bytes, decode_le, le_bytes, lemma_joins, lemma_le_capacities,
    lemma_take_le, push_bytes, push_le, some_refused, take_bytes, take_le,
    DecodeError,
};
use crate::mantle::ledger::{MAX_METADATA_SIZE, MAX_TRANSFERS};
use crate::mantle::multisig::ChannelMultiSigProof;
use crate::mantle::ops::channel::config::{
    config_bytes, config_round_trip, take_config, ChannelConfigOp, ConfigView, CHANNEL_MAX_KEYS,
};
use crate::mantle::ops::channel::deposit::{
    deposit_bytes, deposit_round_trip, take_deposit, DepositOp, DepositView,
};
use crate::mantle::ops::channel::withdraw::{
    owners, take_withdraw, withdraw_bytes, withdraw_round_trip, ChannelWithdrawOp, WithdrawView,
};
use crate::mantle::primitives::{Ed25519Signature, OperationId};

pub mod channel;
pub mod sdp;

verus! {

/// The bytes of `OPERATION_ID_V1`, which set the hash of an operation apart.
pub open spec fn operation_label() -> Seq<u8> {
    seq![79u8, 80, 69, 82, 65, 84, 73, 79, 78, 95, 73, 68, 95, 86, 49]
}

/// The identifier of the operation with this encoding: the hash of the label and
/// the encoding.
pub open spec fn operation_id(encoding: Seq<u8>) -> OperationId {
    blake2b_256(operation_label() + encoding)
}

/// An operation that is identified by what it says.
pub trait OpId {
    /// The operation's encoding.
    spec fn op_encoding(&self) -> Seq<u8>;

    /// The operation's encoding.
    fn op_bytes(&self) -> (r: Vec<u8>)
        ensures
            r@ == self.op_encoding(),
    ;

    /// The hash of the label and the encoding.
    fn op_id(&self) -> (r: OperationId)
        ensures
            r == operation_id(self.op_encoding()),
    {
        let label: [u8; 15] = [79u8, 80, 69, 82, 65, 84, 73, 79, 78, 95, 73, 68, 95, 86, 49];
        let mut bytes: Vec<u8> = Vec::new();
        push_bytes(&mut bytes, label.as_slice());
        push_bytes(&mut bytes, self.op_bytes().as_slice());
        assert(label@ =~= operation_label());
        assert(bytes@ =~= operation_label() + self.op_encoding());
        blake2b(bytes.as_slice())
    }
}

/// The code of `Transfer`.
pub const TRANSFER: u8 = 0x00;

/// The code of `ChannelConfig`.
pub const CHANNEL_CONFIG: u8 = 0x10;

/// The code of `ChannelInscribe`.
pub const INSCRIBE: u8 = 0x11;

/// The code of `ChannelDeposit`.
pub const CHANNEL_DEPOSIT: u8 = 0x12;

/// The code of `ChannelWithdraw`.
pub const CHANNEL_WITHDRAW: u8 = 0x13;

/// The code of `SDPDeclare`.
pub const SDP_DECLARE: u8 = 0x20;

/// The code of `SDPWithdraw`.
pub const SDP_WITHDRAW: u8 = 0x21;

/// The code of `SDPActive`.
pub const SDP_ACTIVE: u8 = 0x22;

/// The code of `LeaderClaim`.
pub const LEADER_CLAIM: u8 = 0x30;

/// An amount of gas.
pub type Gas = u64;

/// What the execution of each operation costs.
#[derive(Clone, Copy, Debug, PartialEq, Eq)]
pub struct GasConstants {
    pub channel_inscribe: Gas,
    pub channel_config: Gas,
    pub channel_deposit: Gas,
    pub channel_withdraw: Gas,
    pub sdp_declare: Gas,
    pub sdp_withdraw: Gas,
    pub sdp_active: Gas,
    pub leader_claim: Gas,
    pub transfer: Gas,
}

/// The encoding of an operation that this crate hands on without reading it.
#[derive(Debug, PartialEq, Eq)]
pub struct OpPayload(pub Vec<u8>);

impl View for OpPayload {
    type V = Seq<u8>;

    open spec fn view(&self) -> Seq<u8> {
        self.0@
    }
}

impl OpPayload {
    fn copy_bytes(&self) -> (r: Vec<u8>)
        ensures
            r@ == self@,
    {
        let mut bytes: Vec<u8> = Vec::new();
        push_bytes(&mut bytes, self.0.as_slice());
        assert(bytes@ =~= self@);
        bytes
    }
}

impl Clone for OpPayload {
    fn clone(&self) -> (r: Self)
        ensures
            r@ == self@,
    {
        Self(self.copy_bytes())
    }
}

/// The operations that a transaction is made of.
#[derive(Debug, PartialEq, Eq)]
pub enum Op {
    ChannelInscribe(OpPayload),
    ChannelConfig(ChannelConfigOp),
    ChannelDeposit(DepositOp),
    ChannelWithdraw(ChannelWithdrawOp),
    SDPDeclare(OpPayload),
    SDPWithdraw(OpPayload),
    SDPActive(OpPayload),
    LeaderClaim(OpPayload),
    Transfer(OpPayload),
}

/// What an [`Op`] says.
pub enum OpView {
    ChannelInscribe(Seq<u8>),
    ChannelConfig(ConfigView),
    ChannelDeposit(DepositView),
    ChannelWithdraw(WithdrawView),
    SDPDeclare(Seq<u8>),
    SDPWithdraw(Seq<u8>),
    SDPActive(Seq<u8>),
    LeaderClaim(Seq<u8>),
    Transfer(Seq<u8>),
}

/// What shows that an operation is authorized. `Z` is the type of signatures by
/// the owners of notes, `C` that of proofs of a leader's claim.
#[derive(Debug, PartialEq, Eq)]
pub enum OpProof<Z, C> {
    Ed25519Sig(Ed25519Signature),
    ZkSig(Z),
    ZkAndEd25519Sigs { zk_sig: Z, ed25519_sig: Ed25519Signature },
    PoC(C),
    ChannelMultiSigProof(ChannelMultiSigProof),
}

impl Clone for Op {
    fn clone(&self) -> (r: Self)
        ensures
            r@ == self@,
    {
        match self {
            Self::ChannelInscribe(op) => Self::ChannelInscribe(op.clone()),
            Self::ChannelConfig(op) => Self::ChannelConfig(op.clone()),
            Self::ChannelDeposit(op) => Self::ChannelDeposit(op.clone()),
            Self::ChannelWithdraw(op) => Self::ChannelWithdraw(op.clone()),
            Self::SDPDeclare(op) => Self::SDPDeclare(op.clone()),
            Self::SDPWithdraw(op) => Self::SDPWithdraw(op.clone()),
            Self::SDPActive(op) => Self::SDPActive(op.clone()),
            Self::LeaderClaim(op) => Self::LeaderClaim(op.clone()),
            Self::Transfer(op) => Self::Transfer(op.clone()),
        }
    }
}

/// `copy` is made of clones of what `source` is made of.
pub open spec fn proof_cloned<Z: Clone, C: Clone>(
    source: OpProof<Z, C>,
    copy: OpProof<Z, C>,
) -> bool {
    match source {
        OpProof::Ed25519Sig(signature) => copy == OpProof::<Z, C>::Ed25519Sig(signature),
        OpProof::ZkSig(zk) => copy matches OpProof::ZkSig(zk_copy) && cloned(zk, zk_copy),
        OpProof::ZkAndEd25519Sigs { zk_sig, ed25519_sig } => {
            &&& copy matches OpProof::ZkAndEd25519Sigs { zk_sig: zk_copy, ed25519_sig: other }
            &&& cloned(zk_sig, zk_copy)
            &&& other == ed25519_sig
        },
        OpProof::PoC(claim) => copy matches OpProof::PoC(claim_copy) && cloned(claim, claim_copy),
        OpProof::ChannelMultiSigProof(signatures) => copy matches OpProof::ChannelMultiSigProof(
            other,
        ) && other@ == signatures@,
    }
}

impl<Z: Clone, C: Clone> Clone for OpProof<Z, C> {
    fn clone(&self) -> (r: Self)
        ensures
            proof_cloned(*self, r),
    {
        match self {
            Self::Ed25519Sig(signature) => Self::Ed25519Sig(*signature),
            Self::ZkSig(zk) => Self::ZkSig(zk.clone()),
            Self::ZkAndEd25519Sigs { zk_sig, ed25519_sig } => Self::ZkAndEd25519Sigs {
                zk_sig: zk_sig.clone(),
                ed25519_sig: *ed25519_sig,
            },
            Self::PoC(claim) => Self::PoC(claim.clone()),
            Self::ChannelMultiSigProof(signatures) => Self::ChannelMultiSigProof(
                signatures.clone(),
            ),
        }
    }
}

impl View for Op {
    type V = OpView;

    open spec fn view(&self) -> OpView {
        match self {
            Self::ChannelInscribe(op) => OpView::ChannelInscribe(op@),
            Self::ChannelConfig(op) => OpView::ChannelConfig(op@),
            Self::ChannelDeposit(op) => OpView::ChannelDeposit(op@),
            Self::ChannelWithdraw(op) => OpView::ChannelWithdraw(op@),
            Self::SDPDeclare(op) => OpView::SDPDeclare(op@),
            Self::SDPWithdraw(op) => OpView::SDPWithdraw(op@),
            Self::SDPActive(op) => OpView::SDPActive(op@),
            Self::LeaderClaim(op) => OpView::LeaderClaim(op@),
            Self::Transfer(op) => OpView::Transfer(op@),
        }
    }
}

/// The code of an operation.
pub open spec fn op_code(op: OpView) -> u8 {
    match op {
        OpView::ChannelInscribe(_) => INSCRIBE,
        OpView::ChannelConfig(_) => CHANNEL_CONFIG,
        OpView::ChannelDeposit(_) => CHANNEL_DEPOSIT,
        OpView::ChannelWithdraw(_) => CHANNEL_WITHDRAW,
        OpView::SDPDeclare(_) => SDP_DECLARE,
        OpView::SDPWithdraw(_) => SDP_WITHDRAW,
        OpView::SDPActive(_) => SDP_ACTIVE,
        OpView::LeaderClaim(_) => LEADER_CLAIM,
        OpView::Transfer(_) => TRANSFER,
    }
}

/// The encoding of an operation without its code.
pub open spec fn op_payload(op: OpView) -> Seq<u8> {
    match op {
        OpView::ChannelInscribe(op) => op,
        OpView::ChannelConfig(op) => config_bytes(op),
        OpView::ChannelDeposit(op) => deposit_bytes(op),
        OpView::ChannelWithdraw(op) => withdraw_bytes(op),
        OpView::SDPDeclare(op) => op,
        OpView::SDPWithdraw(op) => op,
        OpView::SDPActive(op) => op,
        OpView::LeaderClaim(op) => op,
        OpView::Transfer(op) => op,
    }
}

/// An operation as bytes: its code, then its encoding.
pub open spec fn op_bytes(op: OpView) -> Seq<u8> {
    le_bytes(op_code(op) as nat, 1) + op_payload(op)
}

/// The name of an operation.
pub open spec fn op_name(op: OpView) -> Seq<char> {
    match op {
        OpView::ChannelInscribe(_) => "ChannelInscribe"@,
        OpView::ChannelConfig(_) => "ChannelConfig"@,
        OpView::ChannelDeposit(_) => "ChannelDeposit"@,
        OpView::ChannelWithdraw(_) => "ChannelWithdraw"@,
        OpView::SDPDeclare(_) => "SDPDeclare"@,
        OpView::SDPWithdraw(_) => "SDPWithdraw"@,
        OpView::SDPActive(_) => "SDPActive"@,
        OpView::LeaderClaim(_) => "LeaderClaim"@,
        OpView::Transfer(_) => "Transfer"@,
    }
}

/// What the execution of an operation costs.
pub open spec fn op_gas(op: OpView, constants: GasConstants) -> Gas {
    match op {
        OpView::ChannelInscribe(_) => constants.channel_inscribe,
        OpView::ChannelConfig(_) => constants.channel_config,
        OpView::ChannelDeposit(_) => constants.channel_deposit,
        OpView::ChannelWithdraw(_) => constants.channel_withdraw,
        OpView::SDPDeclare(_) => constants.sdp_declare,
        OpView::SDPWithdraw(_) => constants.sdp_withdraw,
        OpView::SDPActive(_) => constants.sdp_active,
        OpView::LeaderClaim(_) => constants.leader_claim,
        OpView::Transfer(_) => constants.transfer,
    }
}

/// Whether operations with this code are handed on without being read.
pub open spec fn is_handed_on(code: u8) -> bool {
    code == INSCRIBE || code == SDP_DECLARE || code == SDP_WITHDRAW || code == SDP_ACTIVE || code == LEADER_CLAIM || code == TRANSFER
}

/// The operation with this code and encoding, if operations with this code are
/// handed on.
pub open spec fn handed_on(code: u8, payload: Seq<u8>) -> Option<OpView> {
    if code == INSCRIBE {
        Some(OpView::ChannelInscribe(payload))
    } else if code == SDP_DECLARE {
        Some(OpView::SDPDeclare(payload))
    } else if code == SDP_WITHDRAW {
        Some(OpView::SDPWithdraw(payload))
    } else if code == SDP_ACTIVE {
        Some(OpView::SDPActive(payload))
    } else if code == LEADER_CLAIM {
        Some(OpView::LeaderClaim(payload))
    } else if code == TRANSFER {
        Some(OpView::Transfer(payload))
    } else {
        None
    }
}

/// An operation off the front of bytes whose first is its code. Where operations
/// with this code are handed on, `length` says how many bytes the encoding
/// takes, if there is one.
pub open spec fn take_op(bytes: Seq<u8>, length: Option<usize>) -> Option<(OpView, Seq<u8>)> {
    match take_le(bytes, 1) {
        None => None,
        Some((code, rest)) => if code == CHANNEL_CONFIG {
            match take_config(rest) {
                None => None,
                Some((op, rest)) => Some((OpView::ChannelConfig(op), rest)),
            }
        } else if code == CHANNEL_DEPOSIT {
            match take_deposit(rest) {
                None => None,
                Some((op, rest)) => Some((OpView::ChannelDeposit(op), rest)),
            }
        } else if code == CHANNEL_WITHDRAW {
            match take_withdraw(rest) {
                None => None,
                Some((op, rest)) => Some((OpView::ChannelWithdraw(op), rest)),
            }
        } else {
            match length {
                None => None,
                Some(length) => match take_bytes(rest, length as nat) {
                    None => None,
                    Some((payload, rest)) => match handed_on(code as u8, payload) {
                        None => None,
                        Some(op) => Some((op, rest)),
                    },
                },
            }
        },
    }
}

/// Each 32-byte string that the operation reads as a key that signs, or as one
/// that owns or identifies notes, can be accepted.
pub open spec fn elements_accepted<A: Fn(&[u8; 32]) -> bool, Z: Fn(&[u8; 32]) -> bool>(
    accepts_key: A,
    accepts_element: Z,
    op: OpView,
) -> bool {
    match op {
        OpView::ChannelConfig(op) => all_accepted(accepts_key, op.keys) && all_accepted(
            accepts_element,
            op.sequencer_zk_pks,
        ),
        OpView::ChannelDeposit(op) => all_accepted(accepts_element, op.inputs),
        OpView::ChannelWithdraw(op) => all_accepted(accepts_element, owners(op.outputs)),
        _ => true,
    }
}

/// One of those 32-byte strings can be refused.
pub open spec fn element_refused<A: Fn(&[u8; 32]) -> bool, Z: Fn(&[u8; 32]) -> bool>(
    accepts_key: A,
    accepts_element: Z,
    op: OpView,
) -> bool {
    match op {
        OpView::ChannelConfig(op) => some_refused(accepts_key, op.keys) || some_refused(
            accepts_element,
            op.sequencer_zk_pks,
        ),
        OpView::ChannelDeposit(op) => some_refused(accepts_element, op.inputs),
        OpView::ChannelWithdraw(op) => some_refused(accepts_element, owners(op.outputs)),
        _ => false,
    }
}

impl Op {
    /// The name of the operation.
    #[must_use]
    pub fn as_str(&self) -> (r: &'static str)
        ensures
            r@ == op_name(self@),
    {
        match self {
            Self::ChannelInscribe(_) => "ChannelInscribe",
            Self::ChannelConfig(_) => "ChannelConfig",
            Self::ChannelDeposit(_) => "ChannelDeposit",
            Self::ChannelWithdraw(_) => "ChannelWithdraw",
            Self::SDPDeclare(_) => "SDPDeclare",
            Self::SDPWithdraw(_) => "SDPWithdraw",
            Self::SDPActive(_) => "SDPActive",
            Self::LeaderClaim(_) => "LeaderClaim",
            Self::Transfer(_) => "Transfer",
        }
    }

    /// What the execution of the operation costs.
    #[must_use]
    pub fn execution_gas(&self, constants: &GasConstants) -> (r: Gas)
        ensures
            r == op_gas(self@, *constants),
    {
        match self {
            Self::ChannelInscribe(_) => constants.channel_inscribe,
            Self::ChannelConfig(_) => constants.channel_config,
            Self::ChannelDeposit(_) => constants.channel_deposit,
            Self::ChannelWithdraw(_) => constants.channel_withdraw,
            Self::SDPDeclare(_) => constants.sdp_declare,
            Self::SDPWithdraw(_) => constants.sdp_withdraw,
            Self::SDPActive(_) => constants.sdp_active,
            Self::LeaderClaim(_) => constants.leader_claim,
            Self::Transfer(_) => constants.transfer,
        }
    }

    /// The code of the operation.
    #[must_use]
    pub fn code(&self) -> (r: u8)
        ensures
            r == op_code(self@),
    {
        match self {
            Self::ChannelInscribe(_) => INSCRIBE,
            Self::ChannelConfig(_) => CHANNEL_CONFIG,
            Self::ChannelDeposit(_) => CHANNEL_DEPOSIT,
            Self::ChannelWithdraw(_) => CHANNEL_WITHDRAW,
            Self::SDPDeclare(_) => SDP_DECLARE,
            Self::SDPWithdraw(_) => SDP_WITHDRAW,
            Self::SDPActive(_) => SDP_ACTIVE,
            Self::LeaderClaim(_) => LEADER_CLAIM,
            Self::Transfer(_) => TRANSFER,
        }
    }

    /// The operation's code, then its encoding.
    #[must_use]
    pub fn encode(&self) -> (r: Vec<u8>)
        ensures
            r@ == op_bytes(self@),
    {
        let payload: Vec<u8> = match self {
            Self::ChannelInscribe(op) => op.copy_bytes(),
            Self::ChannelConfig(op) => op.encode(),
            Self::ChannelDeposit(op) => op.encode(),
            Self::ChannelWithdraw(op) => op.encode(),
            Self::SDPDeclare(op) => op.copy_bytes(),
            Self::SDPWithdraw(op) => op.copy_bytes(),
            Self::SDPActive(op) => op.copy_bytes(),
            Self::LeaderClaim(op) => op.copy_bytes(),
            Self::Transfer(op) => op.copy_bytes(),
        };
        let mut bytes: Vec<u8> = Vec::new();
        push_le(&mut bytes, self.code() as u64, 1);
        push_bytes(&mut bytes, payload.as_slice());
        assert(bytes@ =~= op_bytes(self@));
        bytes
    }

    fn handed_on(code: u8, payload: OpPayload) -> (r: Option<Self>)
        ensures
            match r {
                Some(op) => handed_on(code, payload@) == Some(op@),
                None => handed_on(code, payload@) is None,
            },
    {
        if code == INSCRIBE {
            Some(Op::ChannelInscribe(payload))
        } else if code == SDP_DECLARE {
            Some(Op::SDPDeclare(payload))
        } else if code == SDP_WITHDRAW {
            Some(Op::SDPWithdraw(payload))
        } else if code == SDP_ACTIVE {
            Some(Op::SDPActive(payload))
        } else if code == LEADER_CLAIM {
            Some(Op::LeaderClaim(payload))
        } else if code == TRANSFER {
            Some(Op::Transfer(payload))
        } else {
            None
        }
    }

    /// Reads an operation off the front, and hands back what is left.
    ///
    /// `accepts_key` decides which 32-byte strings are keys that sign,
    /// `accepts_element` which own or identify notes. For an operation that is
    /// handed on unread, `payload_length` is given the code and what follows it,
    /// and says how many bytes the encoding takes, if there is one.
    pub fn decode<
        'a,
        A: Fn(&[u8; 32]) -> bool,
        Z: Fn(&[u8; 32]) -> bool,
        P: Fn(u8, &[u8]) -> Option<usize>,
    >(bytes: &'a [u8], accepts_key: A, accepts_element: Z, payload_length: P) -> (r: Result<
        (&'a [u8], Self),
        DecodeError,
    >)
        requires
            forall|key: &[u8; 32]| #[trigger] call_requires(accepts_key, (key,)),
            forall|element: &[u8; 32]| #[trigger] call_requires(accepts_element, (element,)),
            forall|code: u8, rest: &[u8]|
                is_handed_on(code) ==> #[trigger] call_requires(payload_length, (code, rest)),
        ensures
            exists|length: Option<usize>|
                {
                    &&& #[trigger] length_given(payload_length, bytes@, length)
                    &&& match r {
                        Ok((rest, op)) => take_op(bytes@, length) == Some((op@, rest@))
                            && elements_accepted(accepts_key, accepts_element, op@),
                        Err(_) => take_op(bytes@, length) matches Some((op, _)) ==> element_refused(
                            accepts_key,
                            accepts_element,
                            op,
                        ),
                    }
                },
    {
        proof {
            lemma_le_capacities();
        }
        let (code, rest) = match decode_le(bytes, 1) {
            None => {
                assert(length_given(payload_length, bytes@, None));
                return Err(DecodeError);
            },
            Some(front) => front,
        };
        let code: u8 = code as u8;
        if code == CHANNEL_CONFIG {
            assert(length_given(payload_length, bytes@, None));
            match ChannelConfigOp::decode(rest, accepts_key, accepts_element) {
                Err(e) => Err(e),
                Ok((rest, op)) => Ok((rest, Op::ChannelConfig(op))),
            }
        } else if code == CHANNEL_DEPOSIT {
            assert(length_given(payload_length, bytes@, None));
            match DepositOp::decode(rest, accepts_element) {
                Err(e) => Err(e),
                Ok((rest, op)) => Ok((rest, Op::ChannelDeposit(op))),
            }
        } else if code == CHANNEL_WITHDRAW {
            assert(length_given(payload_length, bytes@, None));
            match ChannelWithdrawOp::decode(rest, accepts_element) {
                Err(e) => Err(e),
                Ok((rest, op)) => Ok((rest, Op::ChannelWithdraw(op))),
            }
        } else {
            if !(code == INSCRIBE || code == SDP_DECLARE || code == SDP_WITHDRAW || code == SDP_ACTIVE || code == LEADER_CLAIM || code == TRANSFER) {
                assert(length_given(payload_length, bytes@, None));
                return Err(DecodeError);
            }
            let length: Option<usize> = payload_length(code, rest);
            assert(length_given(payload_length, bytes@, length)) by {
                assert(call_ensures(payload_length, (code, rest), length));
            }
            match length {
                None => Err(DecodeError),
                Some(length) => match decode_bytes(rest, length) {
                    None => Err(DecodeError),
                    Some((payload, rest)) => match Self::handed_on(code, OpPayload(payload)) {
                        None => Err(DecodeError),
                        Some(op) => Ok((rest, op)),
                    },
                },
            }
        }
    }
}

/// `length` is what `payload_length` said of the bytes behind the code, if it was
/// asked, and nothing otherwise.
pub open spec fn length_given<P: Fn(u8, &[u8]) -> Option<usize>>(
    payload_length: P,
    bytes: Seq<u8>,
    length: Option<usize>,
) -> bool {
    match take_le(bytes, 1) {
        None => length is None,
        Some((code, rest)) => if is_handed_on(code as u8) {
            exists|slice: &[u8]|
                slice@ == rest && #[trigger] call_ensures(
                    payload_length,
                    (code as u8, slice),
                    length,
                )
        } else {
            length is None
        },
    }
}

/// The lists of an operation are as long as its encoding can tell.
pub open spec fn encodable(op: OpView) -> bool {
    match op {
        OpView::ChannelConfig(op) => 0 < op.keys.len() <= CHANNEL_MAX_KEYS
            && op.sequencer_zk_pks.len() <= CHANNEL_MAX_KEYS,
        OpView::ChannelDeposit(op) => op.inputs.len() <= MAX_TRANSFERS && op.metadata.len()
            <= MAX_METADATA_SIZE,
        OpView::ChannelWithdraw(op) => op.outputs.len() <= MAX_TRANSFERS,
        _ => true,
    }
}

/// An operation's bytes begin with its code, and it is read back from them. Where it is handed on unread, that
/// is so if the length of its encoding is told right.
pub proof fn op_round_trip(op: OpView, rest: Seq<u8>, length: Option<usize>)
    requires
        encodable(op),
        is_handed_on(op_code(op)) ==> (length matches Some(n) && n
            == op_payload(op).len()),
    ensures
        op_bytes(op)[0] == op_code(op),
        take_op(op_bytes(op) + rest, length) == Some((op, rest)),
{
    let code = op_code(op) as nat;
    let payload = op_payload(op);
    let bytes = op_bytes(op) + rest;
    lemma_le_capacities();
    lemma_joins(le_bytes(code, 1), payload, rest);
    lemma_take_le(bytes, 1, code, payload + rest);
    match op {
        OpView::ChannelConfig(op) => config_round_trip(payload + rest, op, rest),
        OpView::ChannelDeposit(op) => deposit_round_trip(payload + rest, op, rest),
        OpView::ChannelWithdraw(op) => withdraw_round_trip(payload + rest, op, rest),
        _ => {
            assert((payload + rest).take(payload.len() as int) =~= payload);
            assert((payload + rest).skip(payload.len() as int) =~= rest);
        },
    }
}

/// No two operations have the same bytes.
pub proof fn op_bytes_tell_operations_apart(a: OpView, b: OpView)
    requires
        encodable(a),
        encodable(b),
        op_bytes(a) == op_bytes(b),
    ensures
        a == b,
{
    let none = Seq::<u8>::empty();
    let length = Some(op_payload(a).len() as usize);
    assert(op_bytes(a) + none =~= op_bytes(a));
    lemma_le_capacities();
    lemma_take_le(op_bytes(a), 1, op_code(a) as nat, op_payload(a));
    lemma_take_le(op_bytes(b), 1, op_code(b) as nat, op_payload(b));
    match a {
        OpView::ChannelConfig(_) | OpView::ChannelDeposit(_) | OpView::ChannelWithdraw(_) => {
            op_round_trip(a, none, length);
            op_round_trip(b, none, length);
        },
        _ => {},
    }
}

} // verus!
