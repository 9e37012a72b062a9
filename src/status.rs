use vstd::prelude::*;

use crate::errors::OracleError;

verus! {

/// Encoding that underlies a status bitmap.
#[derive(Debug, Clone, Copy, PartialEq, Eq, Structural, Hash)]
pub enum StatusMechanism {
    BitStatusList,
    MerkleTree,
}

/// Independent status tracks of a credential.
#[derive(Debug, Clone, Copy, PartialEq, Eq, Structural, Hash)]
pub enum StatusType {
    Issuance,
    Revocation,
}

/// Integer code of a mechanism on chain and on the peer wire.
pub open spec fn mechanism_code(m: StatusMechanism) -> int {
    match m {
        StatusMechanism::BitStatusList => 0,
        StatusMechanism::MerkleTree => 1,
    }
}

/// Integer code of a status type on chain and on the peer wire.
pub open spec fn type_code(t: StatusType) -> int {
    match t {
        StatusType::Issuance => 1,
        StatusType::Revocation => 2,
    }
}

impl StatusMechanism {
    /// The mechanism that is not this one.
    pub open spec fn other(self) -> StatusMechanism {
        match self {
            StatusMechanism::BitStatusList => StatusMechanism::MerkleTree,
            StatusMechanism::MerkleTree => StatusMechanism::BitStatusList,
        }
    }

    /// Number of mechanisms.
    pub fn count() -> (r: usize)
        ensures
            r == 2,
    {
        2
    }

    /// Position of the mechanism in a table with one slot per mechanism.
    pub fn as_index(&self) -> (r: usize)
        ensures
            r as int == mechanism_code(*self),
            r < 2,
    {
        match self {
            StatusMechanism::BitStatusList => 0,
            StatusMechanism::MerkleTree => 1,
        }
    }

    pub fn code(&self) -> (r: i32)
        ensures
            r as int == mechanism_code(*self),
    {
        match self {
            StatusMechanism::BitStatusList => 0,
            StatusMechanism::MerkleTree => 1,
        }
    }

    /// Decodes a mechanism code; an unknown code is a validation error.
    pub fn from_code(code: i32) -> (r: Result<StatusMechanism, OracleError>)
        ensures
            r is Ok <==> (code == 0 || code == 1),
            r is Ok ==> mechanism_code(r->Ok_0) == code,
            r is Err ==> r->Err_0 == OracleError::InvalidStatusMechanism(code),
    {
        if code == 0 {
            Ok(StatusMechanism::BitStatusList)
        } else if code == 1 {
            Ok(StatusMechanism::MerkleTree)
        } else {
            Err(OracleError::InvalidStatusMechanism(code))
        }
    }

    /// Path segment naming the mechanism in the status read API.
    pub fn label(&self) -> (r: &'static str)
        ensures
            r@ == (match *self {
                StatusMechanism::BitStatusList => "bsl"@,
                StatusMechanism::MerkleTree => "mt"@,
            }),
    {
        match self {
            StatusMechanism::BitStatusList => "bsl",
            StatusMechanism::MerkleTree => "mt",
        }
    }
}

impl StatusType {
    pub fn code(&self) -> (r: i32)
        ensures
            r as int == type_code(*self),
    {
        match self {
            StatusType::Issuance => 1,
            StatusType::Revocation => 2,
        }
    }

    /// Decodes a status type code; an unknown code is a validation error.
    pub fn from_code(code: i32) -> (r: Result<StatusType, OracleError>)
        ensures
            r is Ok <==> (code == 1 || code == 2),
            r is Ok ==> type_code(r->Ok_0) == code,
            r is Err ==> r->Err_0 == OracleError::InvalidStatusType(code),
    {
        if code == 1 {
            Ok(StatusType::Issuance)
        } else if code == 2 {
            Ok(StatusType::Revocation)
        } else {
            Err(OracleError::InvalidStatusType(code))
        }
    }

    /// Path segment naming the status type in the status read API.
    pub fn label(&self) -> (r: &'static str)
        ensures
            r@ == (match *self {
                StatusType::Issuance => "issuance"@,
                StatusType::Revocation => "revocation"@,
            }),
    {
        match self {
            StatusType::Issuance => "issuance",
            StatusType::Revocation => "revocation",
        }
    }
}

/// One entry of a status chain: the bitmask of a (mechanism, type) chain at a time.
pub struct StatusState {
    /// Storage identifier, as hex text, if the state came from storage.
    pub id: Option<String>,
    pub time: u64,
    pub status_mechanism: StatusMechanism,
    pub status_type: StatusType,
    pub status: u64,
    pub proof: Option<String>,
    pub signature: Option<String>,
}

pub fn copy_text(s: &Option<String>) -> (r: Option<String>)
    ensures
        r == *s,
{
    match s {
        Some(t) => Some(t.clone()),
        None => None,
    }
}

impl StatusState {
    pub fn new(status: u64, time: u64, status_mechanism: StatusMechanism, status_type: StatusType) -> (r: StatusState)
        ensures
            r.status == status,
            r.time == time,
            r.status_mechanism == status_mechanism,
            r.status_type == status_type,
            r.id is None,
            r.proof is None,
            r.signature is None,
    {
        StatusState { id: None, time, status_mechanism, status_type, status, proof: None, signature: None }
    }

    /// A field-by-field copy.
    pub fn duplicate(&self) -> (r: StatusState)
        ensures
            r == *self,
    {
        StatusState {
            id: copy_text(&self.id),
            time: self.time,
            status_mechanism: self.status_mechanism,
            status_type: self.status_type,
            status: self.status,
            proof: copy_text(&self.proof),
            signature: copy_text(&self.signature),
        }
    }

    /// First state of a chain: no bit set, at time zero. Only the bit status list has one.
    pub fn get_initial_status(status_mechanism: StatusMechanism, status_type: StatusType) -> (r: StatusState)
        requires
            status_mechanism == StatusMechanism::BitStatusList,
        ensures
            r == StatusState::new_spec(0, 0, status_mechanism, status_type),
    {
        StatusState::new(0, 0, status_mechanism, status_type)
    }

    pub fn get_sample_status() -> (r: StatusState)
        ensures
            r == StatusState::new_spec(0, 0, StatusMechanism::BitStatusList, StatusType::Revocation),
    {
        StatusState::new(0, 0, StatusMechanism::BitStatusList, StatusType::Revocation)
    }

    pub open spec fn new_spec(status: u64, time: u64, m: StatusMechanism, t: StatusType) -> StatusState {
        StatusState { id: None, time, status_mechanism: m, status_type: t, status, proof: None, signature: None }
    }

    /// Sets the bit of credential `index` in the bitmask.
    pub fn update_index_status(&mut self, index: u64)
        requires
            index < 64,
        ensures
            final(self).status == old(self).status | (1u64 << index),
            final(self).time == old(self).time,
            final(self).status_mechanism == old(self).status_mechanism,
            final(self).status_type == old(self).status_type,
            final(self).id == old(self).id,
            final(self).proof == old(self).proof,
            final(self).signature == old(self).signature,
    {
        self.status = self.status | (1u64 << index);
    }
}

/// A status state as carried by the peer report exchange.
pub struct StatusMessage {
    pub id: String,
    pub time: u64,
    pub status_mechanism: i32,
    pub status_type: i32,
    pub status: u64,
    pub proof: String,
    pub signature: String,
}

/// Empty text on the wire stands for an absent value.
pub open spec fn text_or_none(s: String) -> Option<String> {
    if s@.len() == 0 { None } else { Some(s) }
}

pub open spec fn text_or_empty(s: Option<String>) -> Seq<char> {
    match s {
        Some(t) => t@,
        None => Seq::empty(),
    }
}

fn optional_text(s: String) -> (r: Option<String>)
    ensures
        r == text_or_none(s),
{
    if s.as_str().unicode_len() == 0 {
        None
    } else {
        Some(s)
    }
}

fn text_or_blank(s: Option<String>) -> (r: String)
    ensures
        r@ == text_or_empty(s),
{
    match s {
        Some(t) => t,
        None => String::new(),
    }
}

impl StatusMessage {
    /// The wire form of a status state.
    pub fn from_state(state: StatusState) -> (r: StatusMessage)
        ensures
            r.id@ == text_or_empty(state.id),
            r.time == state.time,
            r.status_mechanism as int == mechanism_code(state.status_mechanism),
            r.status_type as int == type_code(state.status_type),
            r.status == state.status,
            r.proof@ == text_or_empty(state.proof),
            r.signature@ == text_or_empty(state.signature),
    {
        let status_mechanism = state.status_mechanism.code();
        let status_type = state.status_type.code();
        StatusMessage {
            id: text_or_blank(state.id),
            time: state.time,
            status_mechanism,
            status_type,
            status: state.status,
            proof: text_or_blank(state.proof),
            signature: text_or_blank(state.signature),
        }
    }

    /// The status state a peer sent; unknown mechanism or type codes are rejected.
    pub fn to_state(&self) -> (r: Result<StatusState, OracleError>)
        ensures
            r == (if message_valid(*self) {
                Ok::<StatusState, OracleError>(message_state(*self))
            } else {
                Err::<StatusState, OracleError>(message_error(*self))
            }),
    {
        let status_mechanism = match StatusMechanism::from_code(self.status_mechanism) {
            Ok(m) => m,
            Err(e) => return Err(e),
        };
        let status_type = match StatusType::from_code(self.status_type) {
            Ok(t) => t,
            Err(e) => return Err(e),
        };
        Ok(
            StatusState {
                id: None,
                time: self.time,
                status_mechanism,
                status_type,
                status: self.status,
                proof: optional_text(self.proof.clone()),
                signature: optional_text(self.signature.clone()),
            },
        )
    }
}

/// A message carries known mechanism and type codes.
pub open spec fn message_valid(m: StatusMessage) -> bool {
    (m.status_mechanism == 0 || m.status_mechanism == 1) && (m.status_type == 1 || m.status_type
        == 2)
}

/// The error that refusing a message gives: the mechanism is checked first.
pub open spec fn message_error(m: StatusMessage) -> OracleError {
    if !(m.status_mechanism == 0 || m.status_mechanism == 1) {
        OracleError::InvalidStatusMechanism(m.status_mechanism)
    } else {
        OracleError::InvalidStatusType(m.status_type)
    }
}

/// The status state that a valid message stands for.
pub open spec fn message_state(m: StatusMessage) -> StatusState {
    StatusState {
        id: None,
        time: m.time,
        status_mechanism: if m.status_mechanism == 0 {
            StatusMechanism::BitStatusList
        } else {
            StatusMechanism::MerkleTree
        },
        status_type: if m.status_type == 1 {
            StatusType::Issuance
        } else {
            StatusType::Revocation
        },
        status: m.status,
        proof: text_or_none(m.proof),
        signature: text_or_none(m.signature),
    }
}

} // verus!
