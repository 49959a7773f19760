use vstd::prelude::*;
use vstd::string::StringSliceAdditionalSpecFns;

use crate::codec::{
    bytes_of_hex, decode_hex, encode_hex, hex_of, is_hex_text, lemma_hex_canonical,
    lemma_hex_round_trip,
};

verus! {

/// Number of bytes in a branch identifier.
pub const BRANCH_ID_LEN: usize = 16;

/// Number of bytes in a git object identifier.
pub const OID_LEN: usize = 20;

/// The identifier spelled by a hex text of the given byte width, if it is one.
pub open spec fn parse_id(t: Seq<u8>, width: nat) -> Option<Seq<u8>> {
    if is_hex_text(t) && t.len() == 2 * width {
        Some(bytes_of_hex(t))
    } else {
        None
    }
}

/// Reading back the hex text of an identifier gives that identifier.
pub proof fn lemma_id_round_trip(b: Seq<u8>)
    ensures
        parse_id(hex_of(b), b.len()) == Some(b),
{
    lemma_hex_round_trip(b);
}

/// An identifier has one spelling: a text that parses is the hex text of what it spells.
pub proof fn lemma_id_canonical(t: Seq<u8>, width: nat)
    requires
        parse_id(t, width) is Some,
    ensures
        t == hex_of(parse_id(t, width).unwrap()),
{
    lemma_hex_canonical(t);
}

fn parse_id_bytes(t: &[u8], width: usize) -> (r: Option<Vec<u8>>)
    requires
        width <= 1024,
    ensures
        r is Some <==> parse_id(t@, width as nat) is Some,
        r matches Some(v) ==> parse_id(t@, width as nat) == Some(v@) && v@.len() == width,
{
    if t.len() != 2 * width {
        return None;
    }
    decode_hex(t)
}

/// A branch identifier: sixteen bytes, written as thirty-two hex digits.
#[derive(Debug, Clone, PartialEq, Eq, Hash)]
pub struct BranchId {
    pub bytes: Vec<u8>,
}

impl View for BranchId {
    type V = Seq<u8>;

    open spec fn view(&self) -> Seq<u8> {
        self.bytes@
    }
}

impl BranchId {
    pub open spec fn wf(&self) -> bool {
        self@.len() == BRANCH_ID_LEN
    }

    /// The identifier with these bytes; `None` unless there are sixteen of them.
    pub fn from_bytes(bytes: Vec<u8>) -> (r: Option<BranchId>)
        ensures
            r is Some <==> bytes@.len() == BRANCH_ID_LEN,
            r matches Some(id) ==> id@ == bytes@,
    {
        if bytes.len() == BRANCH_ID_LEN {
            Some(BranchId { bytes })
        } else {
            None
        }
    }

    /// Parses the canonical hex form.
    pub fn parse(s: &str) -> (r: Option<BranchId>)
        ensures
            r is Some <==> parse_id(s.spec_bytes(), BRANCH_ID_LEN as nat) is Some,
            r matches Some(id) ==> parse_id(s.spec_bytes(), BRANCH_ID_LEN as nat) == Some(id@)
                && id.wf(),
    {
        Self::parse_bytes(s.as_bytes())
    }

    pub fn parse_bytes(t: &[u8]) -> (r: Option<BranchId>)
        ensures
            r is Some <==> parse_id(t@, BRANCH_ID_LEN as nat) is Some,
            r matches Some(id) ==> parse_id(t@, BRANCH_ID_LEN as nat) == Some(id@) && id.wf(),
    {
        match parse_id_bytes(t, BRANCH_ID_LEN) {
            Some(bytes) => Some(BranchId { bytes }),
            None => None,
        }
    }

    /// The canonical hex form.
    pub fn to_hex(&self) -> (r: Vec<u8>)
        requires
            self.wf(),
        ensures
            r@ == hex_of(self@),
    {
        encode_hex(self.bytes.as_slice())
    }
}

/// A git object identifier (a commit or a tree): twenty bytes, written as forty hex digits.
#[derive(Debug, Clone, PartialEq, Eq, Hash)]
pub struct Oid {
    pub bytes: Vec<u8>,
}

/// A commit identifier.
pub type CommitId = Oid;

/// A tree identifier.
pub type TreeId = Oid;

impl View for Oid {
    type V = Seq<u8>;

    open spec fn view(&self) -> Seq<u8> {
        self.bytes@
    }
}

impl Oid {
    pub open spec fn wf(&self) -> bool {
        self@.len() == OID_LEN
    }

    /// The identifier with these bytes; `None` unless there are twenty of them.
    pub fn from_bytes(bytes: Vec<u8>) -> (r: Option<Oid>)
        ensures
            r is Some <==> bytes@.len() == OID_LEN,
            r matches Some(id) ==> id@ == bytes@,
    {
        if bytes.len() == OID_LEN {
            Some(Oid { bytes })
        } else {
            None
        }
    }

    /// Parses the canonical hex form.
    pub fn parse(s: &str) -> (r: Option<Oid>)
        ensures
            r is Some <==> parse_id(s.spec_bytes(), OID_LEN as nat) is Some,
            r matches Some(id) ==> parse_id(s.spec_bytes(), OID_LEN as nat) == Some(id@)
                && id.wf(),
    {
        Self::parse_bytes(s.as_bytes())
    }

    pub fn parse_bytes(t: &[u8]) -> (r: Option<Oid>)
        ensures
            r is Some <==> parse_id(t@, OID_LEN as nat) is Some,
            r matches Some(id) ==> parse_id(t@, OID_LEN as nat) == Some(id@) && id.wf(),
    {
        match parse_id_bytes(t, OID_LEN) {
            Some(bytes) => Some(Oid { bytes }),
            None => None,
        }
    }

    /// The canonical hex form.
    pub fn to_hex(&self) -> (r: Vec<u8>)
        requires
            self.wf(),
        ensures
            r@ == hex_of(self@),
    {
        encode_hex(self.bytes.as_slice())
    }
}

} // verus!
