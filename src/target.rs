use vstd::prelude::*;
use vstd::string::StringSliceAdditionalSpecFns;
use vstd::utf8::encode_utf8;

use crate::branch::parse_text;
use crate::codec::{decode_text, encode_text, hex_of, lemma_text_round_trip};
use crate::ids::{lemma_id_round_trip, parse_id, Oid, OID_LEN};

verus! {

/// The upstream branch that a project's virtual branches are based on.
#[derive(Debug, Clone, PartialEq, Eq)]
pub struct Target {
    /// The remote-tracking ref, `refs/remotes/<remote>/<branch>`.
    pub branch: String,
    pub remote_url: String,
    pub sha: Oid,
}

pub struct TargetView {
    pub branch: Seq<char>,
    pub remote_url: Seq<char>,
    pub sha: Seq<u8>,
}

/// The bytes of `refs/remotes/`.
pub open spec fn remote_prefix() -> Seq<u8> {
    seq![114u8, 101, 102, 115, 47, 114, 101, 109, 111, 116, 101, 115, 47]
}

/// Whether bytes spell `refs/remotes/<remote>/<branch>`: a remote name without `/` and a
/// branch name, neither empty.
pub open spec fn is_remote_ref(b: Seq<u8>) -> bool {
    &&& b.len() > 13
    &&& b.subrange(0, 13) == remote_prefix()
    &&& exists|k: int|
        13 < k < b.len() - 1 && b[k] == 47 && forall|m: int| 13 <= m < k ==> b[m] != 47
}

/// Whether a ref name has the form `refs/remotes/<remote>/<branch>`.
pub fn is_remote_ref_name(s: &str) -> (r: bool)
    ensures
        r == is_remote_ref(s.spec_bytes()),
{
    let b = s.as_bytes();
    let n = b.len();
    assert(b@ == s.spec_bytes());
    let prefix: Vec<u8> = vec![114u8, 101, 102, 115, 47, 114, 101, 109, 111, 116, 101, 115, 47];
    assert(prefix@ =~= remote_prefix());
    if n <= 13 {
        return false;
    }
    let mut i: usize = 0;
    while i < 13
        invariant
            b@ == s.spec_bytes(),
            n == b@.len(),
            n > 13,
            i <= 13,
            prefix@ == remote_prefix(),
            forall|m: int| 0 <= m < i ==> b@[m] == prefix@[m],
        decreases 13 - i,
    {
        if b[i] != prefix[i] {
            assert(b@.subrange(0, 13)[i as int] != remote_prefix()[i as int]);
            assert(b@.subrange(0, 13) != remote_prefix());
            return false;
        }
        i = i + 1;
    }
    assert(b@.subrange(0, 13) =~= remote_prefix());
    let mut k: usize = 13;
    while k < n && b[k] != 47
        invariant
            b@ == s.spec_bytes(),
            n == b@.len(),
            13 <= k <= n,
            forall|m: int| 13 <= m < k ==> b@[m] != 47,
        decreases n - k,
    {
        k = k + 1;
    }
    if k > 13 && k < n - 1 {
        assert(13 < k < b@.len() - 1 && b@[k as int] == 47 && forall|m: int| 13 <= m < k ==> b@[m] != 47);
        true
    } else {
        assert forall|j: int| !(13 < j < b@.len() - 1 && b@[j] == 47 && forall|m: int| 13 <= m < j ==> b@[m] != 47) by {
            if 13 < j < b@.len() - 1 && b@[j] == 47 && forall|m: int| 13 <= m < j ==> b@[m] != 47 {
                if k == 13 {
                    assert(b@[13] == 47);
                } else if k < n {
                    assert(j >= k);
                    assert(k >= n - 1);
                } else {
                    assert(b@[j] != 47);
                }
            }
        }
        false
    }
}

impl TargetView {
    /// The sha is a full object identifier and the branch is a remote-tracking ref name.
    pub open spec fn wf(&self) -> bool {
        &&& self.sha.len() == OID_LEN
        &&& is_remote_ref(encode_utf8(self.branch))
    }
}

impl View for Target {
    type V = TargetView;

    open spec fn view(&self) -> TargetView {
        TargetView { branch: self.branch@, remote_url: self.remote_url@, sha: self.sha@ }
    }
}

/// A target as stored: one blob per field.
#[derive(Debug, Clone, PartialEq, Eq)]
pub struct TargetRecord {
    pub branch: Vec<u8>,
    pub remote_url: Vec<u8>,
    pub sha: Vec<u8>,
}

pub struct TargetRecordView {
    pub branch: Seq<u8>,
    pub remote_url: Seq<u8>,
    pub sha: Seq<u8>,
}

impl View for TargetRecord {
    type V = TargetRecordView;

    open spec fn view(&self) -> TargetRecordView {
        TargetRecordView { branch: self.branch@, remote_url: self.remote_url@, sha: self.sha@ }
    }
}

/// The stored form of a target.
pub open spec fn target_record(t: TargetView) -> TargetRecordView {
    TargetRecordView {
        branch: encode_utf8(t.branch),
        remote_url: encode_utf8(t.remote_url),
        sha: hex_of(t.sha),
    }
}

/// The target that a stored record spells, if every field parses.
pub open spec fn parse_target(r: TargetRecordView) -> Option<TargetView> {
    if parse_text(r.branch) is Some && parse_text(r.remote_url) is Some && parse_id(
        r.sha,
        OID_LEN as nat,
    ) is Some {
        Some(
            TargetView {
                branch: parse_text(r.branch).unwrap(),
                remote_url: parse_text(r.remote_url).unwrap(),
                sha: parse_id(r.sha, OID_LEN as nat).unwrap(),
            },
        )
    } else {
        None
    }
}

/// Reading back the stored form of a well-formed target gives that target.
pub proof fn lemma_target_round_trip(t: TargetView)
    requires
        t.wf(),
    ensures
        parse_target(target_record(t)) == Some(t),
{
    lemma_text_round_trip(t.branch);
    lemma_text_round_trip(t.remote_url);
    lemma_id_round_trip(t.sha);
}

/// The stored form of a target.
pub fn encode_target(t: &Target) -> (r: TargetRecord)
    requires
        t@.wf(),
    ensures
        r@ == target_record(t@),
{
    TargetRecord {
        branch: encode_text(t.branch.as_str()),
        remote_url: encode_text(t.remote_url.as_str()),
        sha: t.sha.to_hex(),
    }
}

/// The target that a stored record spells; `None` when any field fails to parse.
pub fn decode_target(r: &TargetRecord) -> (o: Option<Target>)
    ensures
        o is Some <==> parse_target(r@) is Some,
        o matches Some(t) ==> parse_target(r@) == Some(t@),
{
    let branch = decode_text(r.branch.as_slice());
    let remote_url = decode_text(r.remote_url.as_slice());
    let sha = Oid::parse_bytes(r.sha.as_slice());
    match (branch, remote_url, sha) {
        (Some(branch), Some(remote_url), Some(sha)) => Some(Target { branch, remote_url, sha }),
        _ => None,
    }
}

} // verus!
