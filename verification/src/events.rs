//! Readiness-event tokens for the connection multiplexer.
//!
//! The event loop subscribes three kinds of descriptors and packs the
//! kind and a client id into the 64-bit payload the kernel hands back.

use vstd::prelude::*;

verus! {

/// What a ready descriptor means to the loop.
#[derive(Clone, Copy, Debug, PartialEq, Eq, Structural)]
pub enum EpollTokenKind {
    /// The listening socket has a connection to accept.
    NewConnection,
    /// A client stream (carrying the client id) is readable or writable.
    ClientData,
    /// The input backend's descriptor has events queued.
    NewInput,
}

/// A readiness token: the kind and the client id it carries.
#[derive(Clone, Copy, Debug, PartialEq, Eq, Structural)]
pub struct EpollToken {
    pub kind: EpollTokenKind,
    pub id: u32,
}

/// The numeric code of a token kind.
pub open spec fn spec_kind_code(kind: EpollTokenKind) -> u32 {
    match kind {
        EpollTokenKind::NewConnection => 0,
        EpollTokenKind::ClientData => 1,
        EpollTokenKind::NewInput => 2,
    }
}

/// The packed payload: the kind in the low word, the id in the high.
pub open spec fn spec_token_raw(t: EpollToken) -> u64 {
    (spec_kind_code(t.kind) + t.id * 0x1_0000_0000) as u64
}

impl EpollToken {
    /// Pack this token into an event payload.
    pub fn to_raw(self) -> (r: u64)
        ensures
            r == spec_token_raw(self),
    {
        let kind: u32 = match self.kind {
            EpollTokenKind::NewConnection => 0,
            EpollTokenKind::ClientData => 1,
            EpollTokenKind::NewInput => 2,
        };
        (kind as u64) + (self.id as u64) * 0x1_0000_0000
    }

    /// Unpack an event payload; `None` for an unknown kind code.
    pub fn from_raw(raw: u64) -> (r: Option<EpollToken>)
        ensures
            match r {
                Some(t) => spec_token_raw(t) == raw,
                None => raw % 0x1_0000_0000 >= 3,
            },
    {
        let kind_code = (raw % 0x1_0000_0000) as u32;
        let id = (raw / 0x1_0000_0000) as u32;
        let kind = match kind_code {
            0 => EpollTokenKind::NewConnection,
            1 => EpollTokenKind::ClientData,
            2 => EpollTokenKind::NewInput,
            _ => {
                return None;
            },
        };
        Some(EpollToken { kind, id })
    }
}

/// Packing and unpacking a token is the identity.
pub proof fn lemma_token_roundtrip(t: EpollToken)
    ensures
        spec_token_raw(t) % 0x1_0000_0000 == spec_kind_code(t.kind),
        spec_token_raw(t) / 0x1_0000_0000 == t.id,
{
    assert(spec_kind_code(t.kind) < 3);
    assert((spec_kind_code(t.kind) + t.id * 0x1_0000_0000) % 0x1_0000_0000 == spec_kind_code(
        t.kind,
    ) && (spec_kind_code(t.kind) + t.id * 0x1_0000_0000) / 0x1_0000_0000 == t.id)
        by (nonlinear_arith)
        requires
            spec_kind_code(t.kind) < 3,
    ;
}

} // verus!
