use vstd::prelude::*;
use vstd::utf8::{decode_utf8, encode_utf8, valid_utf8};

use crate::codec::{
    decimal_of, decode_decimal, decode_flag, decode_text, encode_decimal, encode_flag,
    encode_hex, encode_text, flag_text, hex_of, lemma_decimal_round_trip, lemma_text_round_trip,
    parse_decimal, parse_flag, parse_i64, signed_decimal_of, encode_signed, decode_signed,
    lemma_signed_round_trip,
};
use crate::ids::{lemma_id_round_trip, parse_id, BranchId, Oid, BRANCH_ID_LEN, OID_LEN};

verus! {

/// A range of lines of a file, from `start` to `end`.
#[derive(Debug, Clone, Copy, PartialEq, Eq, Structural)]
pub struct Hunk {
    pub start: u32,
    pub end: u32,
}

/// A branch's claim on regions of one file.
#[derive(Debug, Clone, PartialEq, Eq)]
pub struct OwnershipClaim {
    pub file_path: String,
    pub hunks: Vec<Hunk>,
}

pub struct ClaimView {
    pub file_path: Seq<char>,
    pub hunks: Seq<Hunk>,
}

impl View for OwnershipClaim {
    type V = ClaimView;

    open spec fn view(&self) -> ClaimView {
        ClaimView { file_path: self.file_path@, hunks: self.hunks@ }
    }
}

/// The file regions that a branch owns, one claim per file.
#[derive(Debug, Clone, PartialEq, Eq, Default)]
pub struct BranchOwnershipClaims {
    pub claims: Vec<OwnershipClaim>,
}

impl View for BranchOwnershipClaims {
    type V = Seq<ClaimView>;

    open spec fn view(&self) -> Seq<ClaimView> {
        self.claims@.map_values(|c: OwnershipClaim| c@)
    }
}

/// Ranges of one claim are in order and do not overlap, each starting no later than it ends.
pub open spec fn hunks_wf(h: Seq<Hunk>) -> bool {
    &&& forall|i: int| 0 <= i < h.len() ==> (#[trigger] h[i]).start <= h[i].end
    &&& forall|i: int| 0 <= i < h.len() - 1 ==> (#[trigger] h[i]).end < h[i + 1].start
}

/// Each file is claimed once, and each claim's ranges are well-formed.
pub open spec fn claims_wf(c: Seq<ClaimView>) -> bool {
    &&& forall|i: int, j: int|
        0 <= i < c.len() && 0 <= j < c.len() && i != j ==> c[i].file_path != c[j].file_path
    &&& forall|i: int| 0 <= i < c.len() ==> hunks_wf((#[trigger] c[i]).hunks)
}

fn hunks_valid(h: &Vec<Hunk>) -> (r: bool)
    ensures
        r == hunks_wf(h@),
{
    let n = h.len();
    let mut i: usize = 0;
    while i < n
        invariant
            n == h@.len(),
            i <= n,
            forall|k: int| 0 <= k < i ==> (#[trigger] h@[k]).start <= h@[k].end,
            forall|k: int| 0 <= k < i && k < n - 1 ==> (#[trigger] h@[k]).end < h@[k + 1].start,
        decreases n - i,
    {
        if h[i].start > h[i].end {
            return false;
        }
        if i + 1 < n && h[i].end >= h[i + 1].start {
            return false;
        }
        i = i + 1;
    }
    true
}

impl BranchOwnershipClaims {
    /// Whether each file is claimed once and each claim's ranges are in order, disjoint
    /// and well-formed.
    pub fn is_valid(&self) -> (r: bool)
        ensures
            r == claims_wf(self@),
    {
        let ghost v = self@;
        let n = self.claims.len();
        let mut i: usize = 0;
        while i < n
            invariant
                v == self@,
                n == v.len(),
                i <= n,
                forall|a: int, b: int|
                    0 <= a < i && 0 <= b < n && a != b ==> v[a].file_path != v[b].file_path,
                forall|k: int| 0 <= k < i ==> hunks_wf((#[trigger] v[k]).hunks),
            decreases n - i,
        {
            assert(v[i as int] == self.claims@[i as int]@);
            if !hunks_valid(&self.claims[i].hunks) {
                return false;
            }
            let mut j: usize = 0;
            while j < n
                invariant
                    v == self@,
                    n == v.len(),
                    i < n,
                    j <= n,
                    forall|b: int| 0 <= b < j && b != i ==> v[i as int].file_path != v[b].file_path,
                decreases n - j,
            {
                assert(v[j as int] == self.claims@[j as int]@);
                if j != i && self.claims[i].file_path == self.claims[j].file_path {
                    assert(v[i as int] == self.claims@[i as int]@);
                    assert(v[i as int].file_path == v[j as int].file_path);
                    return false;
                }
                j = j + 1;
            }
            i = i + 1;
        }
        true
    }
}

/// A virtual branch: a line of work kept beside the others in one working copy.
#[derive(Debug, Clone, PartialEq, Eq)]
pub struct Branch {
    pub id: BranchId,
    pub name: String,
    pub notes: String,
    pub applied: bool,
    pub upstream: Option<String>,
    pub upstream_head: Option<Oid>,
    pub created_timestamp_ms: u128,
    pub updated_timestamp_ms: u128,
    pub head: Oid,
    pub tree: Oid,
    pub ownership: BranchOwnershipClaims,
    pub order: usize,
    pub selected_for_changes: Option<i64>,
}

pub struct BranchView {
    pub id: Seq<u8>,
    pub name: Seq<char>,
    pub notes: Seq<char>,
    pub applied: bool,
    pub upstream: Option<Seq<char>>,
    pub upstream_head: Option<Seq<u8>>,
    pub created_timestamp_ms: u128,
    pub updated_timestamp_ms: u128,
    pub head: Seq<u8>,
    pub tree: Seq<u8>,
    pub ownership: Seq<ClaimView>,
    pub order: usize,
    pub selected_for_changes: Option<i64>,
}

impl BranchView {
    /// Identifiers have their widths.
    pub open spec fn wf(&self) -> bool {
        &&& self.id.len() == BRANCH_ID_LEN
        &&& self.head.len() == OID_LEN
        &&& self.tree.len() == OID_LEN
        &&& (self.upstream_head matches Some(h) ==> h.len() == OID_LEN)
    }

    /// The invariants of a branch's data: well-formed identifiers and claims, and an update
    /// time no earlier than the creation time.
    pub open spec fn valid(&self) -> bool {
        &&& self.wf()
        &&& claims_wf(self.ownership)
        &&& self.updated_timestamp_ms >= self.created_timestamp_ms
    }
}

impl View for Branch {
    type V = BranchView;

    open spec fn view(&self) -> BranchView {
        BranchView {
            id: self.id@,
            name: self.name@,
            notes: self.notes@,
            applied: self.applied,
            upstream: match self.upstream {
                Some(s) => Some(s@),
                None => None,
            },
            upstream_head: match self.upstream_head {
                Some(h) => Some(h@),
                None => None,
            },
            created_timestamp_ms: self.created_timestamp_ms,
            updated_timestamp_ms: self.updated_timestamp_ms,
            head: self.head@,
            tree: self.tree@,
            ownership: self.ownership@,
            order: self.order,
            selected_for_changes: self.selected_for_changes,
        }
    }
}

// ---- the stored form ----

/// A hunk as stored: its two line numbers in decimal.
#[derive(Debug, Clone, PartialEq, Eq)]
pub struct HunkRecord {
    pub start: Vec<u8>,
    pub end: Vec<u8>,
}

pub struct HunkRecordView {
    pub start: Seq<u8>,
    pub end: Seq<u8>,
}

impl View for HunkRecord {
    type V = HunkRecordView;

    open spec fn view(&self) -> HunkRecordView {
        HunkRecordView { start: self.start@, end: self.end@ }
    }
}

/// A claim as stored: the file path as UTF-8 and one record per hunk.
#[derive(Debug, Clone, PartialEq, Eq)]
pub struct ClaimRecord {
    pub file_path: Vec<u8>,
    pub hunks: Vec<HunkRecord>,
}

pub struct ClaimRecordView {
    pub file_path: Seq<u8>,
    pub hunks: Seq<HunkRecordView>,
}

impl View for ClaimRecord {
    type V = ClaimRecordView;

    open spec fn view(&self) -> ClaimRecordView {
        ClaimRecordView { file_path: self.file_path@, hunks: self.hunks@.map_values(|h: HunkRecord| h@) }
    }
}

/// A branch as stored in a session: one blob per field, an absent blob for an absent value.
#[derive(Debug, Clone, PartialEq, Eq)]
pub struct BranchRecord {
    pub id: Vec<u8>,
    pub name: Vec<u8>,
    pub notes: Vec<u8>,
    pub applied: Vec<u8>,
    pub upstream: Option<Vec<u8>>,
    pub upstream_head: Option<Vec<u8>>,
    pub created_timestamp_ms: Vec<u8>,
    pub updated_timestamp_ms: Vec<u8>,
    pub head: Vec<u8>,
    pub tree: Vec<u8>,
    pub ownership: Vec<ClaimRecord>,
    pub order: Vec<u8>,
    pub selected_for_changes: Option<Vec<u8>>,
}

pub struct BranchRecordView {
    pub id: Seq<u8>,
    pub name: Seq<u8>,
    pub notes: Seq<u8>,
    pub applied: Seq<u8>,
    pub upstream: Option<Seq<u8>>,
    pub upstream_head: Option<Seq<u8>>,
    pub created_timestamp_ms: Seq<u8>,
    pub updated_timestamp_ms: Seq<u8>,
    pub head: Seq<u8>,
    pub tree: Seq<u8>,
    pub ownership: Seq<ClaimRecordView>,
    pub order: Seq<u8>,
    pub selected_for_changes: Option<Seq<u8>>,
}

pub open spec fn opt_view(o: Option<Vec<u8>>) -> Option<Seq<u8>> {
    match o {
        Some(v) => Some(v@),
        None => None,
    }
}

impl View for BranchRecord {
    type V = BranchRecordView;

    open spec fn view(&self) -> BranchRecordView {
        BranchRecordView {
            id: self.id@,
            name: self.name@,
            notes: self.notes@,
            applied: self.applied@,
            upstream: opt_view(self.upstream),
            upstream_head: opt_view(self.upstream_head),
            created_timestamp_ms: self.created_timestamp_ms@,
            updated_timestamp_ms: self.updated_timestamp_ms@,
            head: self.head@,
            tree: self.tree@,
            ownership: self.ownership@.map_values(|c: ClaimRecord| c@),
            order: self.order@,
            selected_for_changes: opt_view(self.selected_for_changes),
        }
    }
}

// ---- encoding, as mathematics ----

pub open spec fn hunk_record(h: Hunk) -> HunkRecordView {
    HunkRecordView { start: decimal_of(h.start as nat), end: decimal_of(h.end as nat) }
}

pub open spec fn claim_record(c: ClaimView) -> ClaimRecordView {
    ClaimRecordView {
        file_path: encode_utf8(c.file_path),
        hunks: c.hunks.map_values(|h: Hunk| hunk_record(h)),
    }
}

/// The stored form of a branch.
pub open spec fn branch_record(b: BranchView) -> BranchRecordView {
    BranchRecordView {
        id: hex_of(b.id),
        name: encode_utf8(b.name),
        notes: encode_utf8(b.notes),
        applied: flag_text(b.applied),
        upstream: match b.upstream {
            Some(u) => Some(encode_utf8(u)),
            None => None,
        },
        upstream_head: match b.upstream_head {
            Some(h) => Some(hex_of(h)),
            None => None,
        },
        created_timestamp_ms: decimal_of(b.created_timestamp_ms as nat),
        updated_timestamp_ms: decimal_of(b.updated_timestamp_ms as nat),
        head: hex_of(b.head),
        tree: hex_of(b.tree),
        ownership: b.ownership.map_values(|c: ClaimView| claim_record(c)),
        order: decimal_of(b.order as nat),
        selected_for_changes: match b.selected_for_changes {
            Some(s) => Some(signed_decimal_of(s as int)),
            None => None,
        },
    }
}

// ---- decoding, as mathematics ----

pub open spec fn parse_text(b: Seq<u8>) -> Option<Seq<char>> {
    if valid_utf8(b) {
        Some(decode_utf8(b))
    } else {
        None
    }
}

pub open spec fn parse_u32(t: Seq<u8>) -> Option<u32> {
    match parse_decimal(t) {
        Some(n) => if n <= u32::MAX { Some(n as u32) } else { None },
        None => None,
    }
}

pub open spec fn parse_usize(t: Seq<u8>) -> Option<usize> {
    match parse_decimal(t) {
        Some(n) => if n <= usize::MAX { Some(n as usize) } else { None },
        None => None,
    }
}

pub open spec fn parse_hunk(h: HunkRecordView) -> Option<Hunk> {
    if parse_u32(h.start) is Some && parse_u32(h.end) is Some {
        Some(Hunk { start: parse_u32(h.start).unwrap(), end: parse_u32(h.end).unwrap() })
    } else {
        None
    }
}

pub open spec fn parse_hunks(s: Seq<HunkRecordView>) -> Option<Seq<Hunk>> {
    if forall|i: int| 0 <= i < s.len() ==> (#[trigger] parse_hunk(s[i])) is Some {
        Some(s.map_values(|h: HunkRecordView| parse_hunk(h).unwrap()))
    } else {
        None
    }
}

pub open spec fn parse_claim(c: ClaimRecordView) -> Option<ClaimView> {
    if parse_text(c.file_path) is Some && parse_hunks(c.hunks) is Some {
        Some(
            ClaimView {
                file_path: parse_text(c.file_path).unwrap(),
                hunks: parse_hunks(c.hunks).unwrap(),
            },
        )
    } else {
        None
    }
}

pub open spec fn parse_claims(s: Seq<ClaimRecordView>) -> Option<Seq<ClaimView>> {
    if forall|i: int| 0 <= i < s.len() ==> (#[trigger] parse_claim(s[i])) is Some {
        Some(s.map_values(|c: ClaimRecordView| parse_claim(c).unwrap()))
    } else {
        None
    }
}

pub open spec fn parse_opt_text(o: Option<Seq<u8>>) -> Option<Option<Seq<char>>> {
    match o {
        None => Some(None),
        Some(b) => match parse_text(b) {
            Some(t) => Some(Some(t)),
            None => None,
        },
    }
}

pub open spec fn parse_opt_oid(o: Option<Seq<u8>>) -> Option<Option<Seq<u8>>> {
    match o {
        None => Some(None),
        Some(b) => match parse_id(b, OID_LEN as nat) {
            Some(t) => Some(Some(t)),
            None => None,
        },
    }
}

pub open spec fn parse_opt_i64(o: Option<Seq<u8>>) -> Option<Option<i64>> {
    match o {
        None => Some(None),
        Some(b) => match parse_i64(b) {
            Some(t) => Some(Some(t)),
            None => None,
        },
    }
}

/// The branch that a stored record spells, if every field parses.
pub open spec fn parse_branch(r: BranchRecordView) -> Option<BranchView> {
    if {
        &&& parse_id(r.id, BRANCH_ID_LEN as nat) is Some
        &&& parse_text(r.name) is Some
        &&& parse_text(r.notes) is Some
        &&& parse_flag(r.applied) is Some
        &&& parse_opt_text(r.upstream) is Some
        &&& parse_opt_oid(r.upstream_head) is Some
        &&& parse_decimal(r.created_timestamp_ms) is Some
        &&& parse_decimal(r.updated_timestamp_ms) is Some
        &&& parse_id(r.head, OID_LEN as nat) is Some
        &&& parse_id(r.tree, OID_LEN as nat) is Some
        &&& parse_claims(r.ownership) is Some
        &&& parse_usize(r.order) is Some
        &&& parse_opt_i64(r.selected_for_changes) is Some
    } {
        Some(
            BranchView {
                id: parse_id(r.id, BRANCH_ID_LEN as nat).unwrap(),
                name: parse_text(r.name).unwrap(),
                notes: parse_text(r.notes).unwrap(),
                applied: parse_flag(r.applied).unwrap(),
                upstream: parse_opt_text(r.upstream).unwrap(),
                upstream_head: parse_opt_oid(r.upstream_head).unwrap(),
                created_timestamp_ms: parse_decimal(r.created_timestamp_ms).unwrap(),
                updated_timestamp_ms: parse_decimal(r.updated_timestamp_ms).unwrap(),
                head: parse_id(r.head, OID_LEN as nat).unwrap(),
                tree: parse_id(r.tree, OID_LEN as nat).unwrap(),
                ownership: parse_claims(r.ownership).unwrap(),
                order: parse_usize(r.order).unwrap(),
                selected_for_changes: parse_opt_i64(r.selected_for_changes).unwrap(),
            },
        )
    } else {
        None
    }
}

// ---- round trip ----

proof fn lemma_u32_round_trip(n: u32)
    ensures
        parse_u32(decimal_of(n as nat)) == Some(n),
{
    lemma_decimal_round_trip(n as nat);
}

proof fn lemma_claim_round_trip(c: ClaimView)
    ensures
        parse_claim(claim_record(c)) == Some(c),
{
    let r = claim_record(c);
    lemma_text_round_trip(c.file_path);
    assert forall|i: int| 0 <= i < r.hunks.len() implies #[trigger] parse_hunk(r.hunks[i]) == Some(
        c.hunks[i],
    ) by {
        lemma_u32_round_trip(c.hunks[i].start);
        lemma_u32_round_trip(c.hunks[i].end);
    }
    assert forall|i: int| 0 <= i < r.hunks.len() implies (#[trigger] parse_hunk(r.hunks[i])) is Some by {
        assert(parse_hunk(r.hunks[i]) == Some(c.hunks[i]));
    }
    assert(parse_hunks(r.hunks).unwrap() =~= c.hunks);
}

/// Reading back the stored form of a well-formed branch gives that branch, field for field.
pub proof fn lemma_branch_round_trip(b: BranchView)
    requires
        b.wf(),
    ensures
        parse_branch(branch_record(b)) == Some(b),
{
    let r = branch_record(b);
    lemma_id_round_trip(b.id);
    lemma_id_round_trip(b.head);
    lemma_id_round_trip(b.tree);
    if let Some(h) = b.upstream_head {
        lemma_id_round_trip(h);
    }
    lemma_text_round_trip(b.name);
    lemma_text_round_trip(b.notes);
    if let Some(u) = b.upstream {
        lemma_text_round_trip(u);
    }
    lemma_decimal_round_trip(b.created_timestamp_ms as nat);
    lemma_decimal_round_trip(b.updated_timestamp_ms as nat);
    lemma_decimal_round_trip(b.order as nat);
    if let Some(s) = b.selected_for_changes {
        lemma_signed_round_trip(s);
    }
    assert forall|i: int| 0 <= i < r.ownership.len() implies (#[trigger] parse_claim(
        r.ownership[i],
    )) is Some by {
        lemma_claim_round_trip(b.ownership[i]);
    }
    assert forall|i: int| 0 <= i < r.ownership.len() implies #[trigger] parse_claims(
        r.ownership,
    ).unwrap()[i] == b.ownership[i] by {
        lemma_claim_round_trip(b.ownership[i]);
    }
    assert(parse_claims(r.ownership).unwrap() =~= b.ownership);
    assert(parse_branch(r).unwrap() == b);
}

// ---- encoding ----

fn encode_hunks(hs: &Vec<Hunk>) -> (r: Vec<HunkRecord>)
    ensures
        r@.map_values(|h: HunkRecord| h@) == hs@.map_values(|h: Hunk| hunk_record(h)),
{
    let mut out: Vec<HunkRecord> = Vec::new();
    let mut i: usize = 0;
    while i < hs.len()
        invariant
            i <= hs@.len(),
            out@.len() == i,
            forall|k: int| 0 <= k < i ==> #[trigger] out@[k]@ == hunk_record(hs@[k]),
        decreases hs@.len() - i,
    {
        let h = hs[i];
        out.push(HunkRecord { start: encode_decimal(h.start as u128), end: encode_decimal(h.end as u128) });
        i = i + 1;
    }
    assert(out@.map_values(|h: HunkRecord| h@) =~= hs@.map_values(|h: Hunk| hunk_record(h)));
    out
}

fn encode_claim(c: &OwnershipClaim) -> (r: ClaimRecord)
    ensures
        r@ == claim_record(c@),
{
    ClaimRecord { file_path: encode_text(c.file_path.as_str()), hunks: encode_hunks(&c.hunks) }
}

fn encode_claims(cs: &Vec<OwnershipClaim>) -> (r: Vec<ClaimRecord>)
    ensures
        r@.map_values(|c: ClaimRecord| c@) == cs@.map_values(|c: OwnershipClaim| c@).map_values(
            |c: ClaimView| claim_record(c),
        ),
{
    let mut out: Vec<ClaimRecord> = Vec::new();
    let mut i: usize = 0;
    while i < cs.len()
        invariant
            i <= cs@.len(),
            out@.len() == i,
            forall|k: int| 0 <= k < i ==> #[trigger] out@[k]@ == claim_record(cs@[k]@),
        decreases cs@.len() - i,
    {
        out.push(encode_claim(&cs[i]));
        i = i + 1;
    }
    assert(out@.map_values(|c: ClaimRecord| c@) =~= cs@.map_values(|c: OwnershipClaim| c@).map_values(
        |c: ClaimView| claim_record(c),
    ));
    out
}

/// The stored form of a branch: one blob per field.
pub fn encode_branch(b: &Branch) -> (r: BranchRecord)
    requires
        b@.wf(),
    ensures
        r@ == branch_record(b@),
{
    let upstream = match &b.upstream {
        Some(u) => Some(encode_text(u.as_str())),
        None => None,
    };
    let upstream_head = match &b.upstream_head {
        Some(h) => Some(h.to_hex()),
        None => None,
    };
    let selected_for_changes = match b.selected_for_changes {
        Some(s) => Some(encode_signed(s)),
        None => None,
    };
    BranchRecord {
        id: b.id.to_hex(),
        name: encode_text(b.name.as_str()),
        notes: encode_text(b.notes.as_str()),
        applied: encode_flag(b.applied),
        upstream,
        upstream_head,
        created_timestamp_ms: encode_decimal(b.created_timestamp_ms),
        updated_timestamp_ms: encode_decimal(b.updated_timestamp_ms),
        head: b.head.to_hex(),
        tree: b.tree.to_hex(),
        ownership: encode_claims(&b.ownership.claims),
        order: encode_decimal(b.order as u128),
        selected_for_changes,
    }
}

// ---- decoding ----

fn decode_u32(t: &[u8]) -> (r: Option<u32>)
    ensures
        r == parse_u32(t@),
{
    match decode_decimal(t) {
        Some(n) => if n <= u32::MAX as u128 { Some(n as u32) } else { None },
        None => None,
    }
}

fn decode_usize(t: &[u8]) -> (r: Option<usize>)
    ensures
        r == parse_usize(t@),
{
    match decode_decimal(t) {
        Some(n) => if n <= usize::MAX as u128 { Some(n as usize) } else { None },
        None => None,
    }
}

fn decode_hunks(hs: &Vec<HunkRecord>) -> (r: Option<Vec<Hunk>>)
    ensures
        r is Some <==> parse_hunks(hs@.map_values(|h: HunkRecord| h@)) is Some,
        r matches Some(v) ==> v@ == parse_hunks(hs@.map_values(|h: HunkRecord| h@)).unwrap(),
{
    let ghost view = hs@.map_values(|h: HunkRecord| h@);
    let mut out: Vec<Hunk> = Vec::new();
    let mut i: usize = 0;
    while i < hs.len()
        invariant
            view == hs@.map_values(|h: HunkRecord| h@),
            i <= hs@.len(),
            out@.len() == i,
            forall|k: int| 0 <= k < i ==> #[trigger] parse_hunk(view[k]) == Some(out@[k]),
        decreases hs@.len() - i,
    {
        let h = &hs[i];
        let s = decode_u32(h.start.as_slice());
        let e = decode_u32(h.end.as_slice());
        assert(view[i as int] == h@);
        match (s, e) {
            (Some(start), Some(end)) => {
                out.push(Hunk { start, end });
            },
            _ => {
                assert(parse_hunk(view[i as int]) is None);
                return None;
            },
        }
        i = i + 1;
    }
    assert forall|k: int| 0 <= k < view.len() implies (#[trigger] parse_hunk(view[k])) is Some by {
        assert(parse_hunk(view[k]) == Some(out@[k]));
    }
    assert(out@ =~= parse_hunks(view).unwrap());
    Some(out)
}

fn decode_claim(c: &ClaimRecord) -> (r: Option<OwnershipClaim>)
    ensures
        r is Some <==> parse_claim(c@) is Some,
        r matches Some(v) ==> parse_claim(c@) == Some(v@),
{
    let file_path = decode_text(c.file_path.as_slice());
    let hunks = decode_hunks(&c.hunks);
    match (file_path, hunks) {
        (Some(file_path), Some(hunks)) => Some(OwnershipClaim { file_path, hunks }),
        _ => None,
    }
}

fn decode_claims(cs: &Vec<ClaimRecord>) -> (r: Option<Vec<OwnershipClaim>>)
    ensures
        r is Some <==> parse_claims(cs@.map_values(|c: ClaimRecord| c@)) is Some,
        r matches Some(v) ==> v@.map_values(|c: OwnershipClaim| c@) == parse_claims(
            cs@.map_values(|c: ClaimRecord| c@),
        ).unwrap(),
{
    let ghost view = cs@.map_values(|c: ClaimRecord| c@);
    let mut out: Vec<OwnershipClaim> = Vec::new();
    let mut i: usize = 0;
    while i < cs.len()
        invariant
            view == cs@.map_values(|c: ClaimRecord| c@),
            i <= cs@.len(),
            out@.len() == i,
            forall|k: int| 0 <= k < i ==> #[trigger] parse_claim(view[k]) == Some(out@[k]@),
        decreases cs@.len() - i,
    {
        assert(view[i as int] == cs@[i as int]@);
        match decode_claim(&cs[i]) {
            Some(c) => {
                out.push(c);
            },
            None => {
                return None;
            },
        }
        i = i + 1;
    }
    assert forall|k: int| 0 <= k < view.len() implies (#[trigger] parse_claim(view[k])) is Some by {
        assert(parse_claim(view[k]) == Some(out@[k]@));
    }
    assert(out@.map_values(|c: OwnershipClaim| c@) =~= parse_claims(view).unwrap());
    Some(out)
}

/// The branch that a stored record spells; `None` when any field fails to parse.
pub fn decode_branch(r: &BranchRecord) -> (o: Option<Branch>)
    ensures
        o is Some <==> parse_branch(r@) is Some,
        o matches Some(b) ==> parse_branch(r@) == Some(b@),
{
    let id = BranchId::parse_bytes(r.id.as_slice());
    let name = decode_text(r.name.as_slice());
    let notes = decode_text(r.notes.as_slice());
    let applied = decode_flag(r.applied.as_slice());
    let upstream = match &r.upstream {
        Some(u) => match decode_text(u.as_slice()) {
            Some(t) => Some(Some(t)),
            None => None,
        },
        None => Some(None),
    };
    let upstream_head = match &r.upstream_head {
        Some(h) => match Oid::parse_bytes(h.as_slice()) {
            Some(t) => Some(Some(t)),
            None => None,
        },
        None => Some(None),
    };
    let created = decode_decimal(r.created_timestamp_ms.as_slice());
    let updated = decode_decimal(r.updated_timestamp_ms.as_slice());
    let head = Oid::parse_bytes(r.head.as_slice());
    let tree = Oid::parse_bytes(r.tree.as_slice());
    let claims = decode_claims(&r.ownership);
    let order = decode_usize(r.order.as_slice());
    let selected = match &r.selected_for_changes {
        Some(s) => match decode_signed(s.as_slice()) {
            Some(t) => Some(Some(t)),
            None => None,
        },
        None => Some(None),
    };
    if let (
        Some(id),
        Some(name),
        Some(notes),
        Some(applied),
        Some(upstream),
        Some(upstream_head),
        Some(created),
        Some(updated),
        Some(head),
        Some(tree),
        Some(claims),
        Some(order),
        Some(selected),
    ) = (id, name, notes, applied, upstream, upstream_head, created, updated, head, tree, claims, order, selected) {
        let b = Branch {
            id,
            name,
            notes,
            applied,
            upstream,
            upstream_head,
            created_timestamp_ms: created,
            updated_timestamp_ms: updated,
            head,
            tree,
            ownership: BranchOwnershipClaims { claims },
            order,
            selected_for_changes: selected,
        };
        assert(b@ == parse_branch(r@).unwrap());
        Some(b)
    } else {
        None
    }
}

} // verus!
