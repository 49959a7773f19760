use vstd::prelude::*;

use crate::branch::{branch_record, encode_branch, Branch, BranchRecord, BranchRecordView, BranchView};
use crate::codec::{decode_decimal, hex_of, parse_decimal};
use crate::ids::{BranchId, BRANCH_ID_LEN};
use crate::order::{compare_bytes, lemma_lex_asymmetric, lemma_lex_total, lemma_lex_transitive, lex_lt};
use crate::target::{encode_target, target_record, Target, TargetRecord, TargetRecordView};

verus! {

/// A handle on one persisted snapshot generation of a project.
#[derive(Debug, Clone, Copy, PartialEq, Eq, Structural)]
pub struct Session {
    pub id: u64,
}

/// What one session holds: a record per branch identifier, the default target if written,
/// and how many internal commits its history has.
pub struct SessionTree {
    pub branches: Vec<BranchRecord>,
    pub target: Option<TargetRecord>,
    pub generation: u64,
}

pub struct TreeView {
    pub branches: Seq<BranchRecordView>,
    pub target: Option<TargetRecordView>,
    pub generation: nat,
}

impl View for SessionTree {
    type V = TreeView;

    open spec fn view(&self) -> TreeView {
        TreeView {
            branches: self.branches@.map_values(|r: BranchRecord| r@),
            target: match self.target {
                Some(t) => Some(t@),
                None => None,
            },
            generation: self.generation as nat,
        }
    }
}

/// No two branch records of a session share an identifier.
pub open spec fn ids_unique(s: Seq<BranchRecordView>) -> bool {
    forall|i: int, j: int| 0 <= i < s.len() && 0 <= j < s.len() && i != j ==> s[i].id != s[j].id
}

/// A session with nothing written in it.
pub open spec fn empty_tree() -> TreeView {
    TreeView { branches: Seq::empty(), target: None, generation: 0 }
}

/// Records are in lexical order of their identifiers, each identifier once.
pub open spec fn sorted_ids(s: Seq<BranchRecordView>) -> bool {
    forall|i: int, j: int| 0 <= i < j < s.len() ==> lex_lt(s[i].id, s[j].id)
}

/// Where a record with identifier `key` goes among records sorted by identifier.
pub open spec fn insert_pos(s: Seq<BranchRecordView>, key: Seq<u8>) -> int
    decreases s.len(),
{
    if s.len() == 0 {
        0
    } else if lex_lt(s.last().id, key) {
        s.len() as int
    } else {
        insert_pos(s.drop_last(), key)
    }
}

/// The records after storing `r`: it takes the place of the record with its identifier,
/// or, when there is none, goes where its identifier falls in lexical order.
pub open spec fn put_record(s: Seq<BranchRecordView>, r: BranchRecordView) -> Seq<BranchRecordView> {
    if exists|i: int| 0 <= i < s.len() && (#[trigger] s[i]).id == r.id {
        let i = choose|i: int| 0 <= i < s.len() && (#[trigger] s[i]).id == r.id;
        s.update(i, r)
    } else {
        s.insert(insert_pos(s, r.id), r)
    }
}

/// Sorted records hold each identifier once.
pub proof fn lemma_sorted_unique(s: Seq<BranchRecordView>)
    requires
        sorted_ids(s),
    ensures
        ids_unique(s),
{
    assert forall|i: int, j: int|
        0 <= i < s.len() && 0 <= j < s.len() && i != j implies s[i].id != s[j].id by {
        lemma_lex_asymmetric(s[i].id, s[j].id);
        if i < j {
            assert(lex_lt(s[i].id, s[j].id));
        } else {
            assert(lex_lt(s[j].id, s[i].id));
        }
    }
}

/// Among sorted records without `key`, those before its place come before it and the rest after.
pub proof fn lemma_insert_pos(s: Seq<BranchRecordView>, key: Seq<u8>)
    requires
        sorted_ids(s),
        forall|i: int| 0 <= i < s.len() ==> (#[trigger] s[i]).id != key,
    ensures
        0 <= insert_pos(s, key) <= s.len(),
        forall|k: int| 0 <= k < insert_pos(s, key) ==> lex_lt((#[trigger] s[k]).id, key),
        forall|k: int| insert_pos(s, key) <= k < s.len() ==> lex_lt(key, (#[trigger] s[k]).id),
    decreases s.len(),
{
    if s.len() > 0 {
        let last = s.last().id;
        if lex_lt(last, key) {
            assert forall|k: int| 0 <= k < s.len() implies lex_lt((#[trigger] s[k]).id, key) by {
                if k < s.len() - 1 {
                    lemma_lex_transitive(s[k].id, last, key);
                }
            }
        } else {
            lemma_lex_total(last, key);
            let t = s.drop_last();
            assert forall|k: int| 0 <= k < t.len() implies (#[trigger] t[k]).id != key by {
                assert(t[k] == s[k]);
            }
            lemma_insert_pos(t, key);
            assert forall|k: int| 0 <= k < insert_pos(s, key) implies lex_lt((#[trigger] s[k]).id, key) by {
                assert(t[k] == s[k]);
            }
            assert forall|k: int| insert_pos(s, key) <= k < s.len() implies lex_lt(key, (#[trigger] s[k]).id) by {
                if k < s.len() - 1 {
                    assert(t[k] == s[k]);
                }
            }
        }
    }
}

/// A session after one branch write: the record is stored and the history advances.
pub open spec fn tree_put_branch(t: TreeView, r: BranchRecordView) -> TreeView {
    TreeView { branches: put_record(t.branches, r), target: t.target, generation: t.generation + 1 }
}

/// The records after removing the one with identifier `key`, if there is one.
pub open spec fn remove_record(s: Seq<BranchRecordView>, key: Seq<u8>) -> Seq<BranchRecordView> {
    if exists|i: int| 0 <= i < s.len() && (#[trigger] s[i]).id == key {
        let i = choose|i: int| 0 <= i < s.len() && (#[trigger] s[i]).id == key;
        s.remove(i)
    } else {
        s
    }
}

/// A session after deleting a branch: its record leaves the active set and the history
/// advances; earlier sessions keep theirs.
pub open spec fn tree_remove_branch(t: TreeView, key: Seq<u8>) -> TreeView {
    TreeView { branches: remove_record(t.branches, key), target: t.target, generation: t.generation + 1 }
}

/// Removing a record keeps the records sorted.
pub proof fn lemma_remove_record_sorted(s: Seq<BranchRecordView>, key: Seq<u8>)
    requires
        sorted_ids(s),
    ensures
        sorted_ids(remove_record(s, key)),
{
    if exists|i: int| 0 <= i < s.len() && (#[trigger] s[i]).id == key {
        let k = choose|i: int| 0 <= i < s.len() && (#[trigger] s[i]).id == key;
        let t = s.remove(k);
        assert forall|i: int, j: int| 0 <= i < j < t.len() implies lex_lt(t[i].id, t[j].id) by {
            let i2 = if i < k { i } else { i + 1 };
            let j2 = if j < k { j } else { j + 1 };
            assert(t[i] == s[i2] && t[j] == s[j2]);
        }
    }
}

/// A session after one target write: the target is replaced and the history advances.
pub open spec fn tree_put_target(t: TreeView, r: TargetRecordView) -> TreeView {
    TreeView { branches: t.branches, target: Some(r), generation: t.generation + 1 }
}

/// Storing a record keeps the records sorted by identifier.
pub proof fn lemma_put_record_sorted(s: Seq<BranchRecordView>, r: BranchRecordView)
    requires
        sorted_ids(s),
    ensures
        sorted_ids(put_record(s, r)),
        ids_unique(put_record(s, r)),
{
    if exists|i: int| 0 <= i < s.len() && (#[trigger] s[i]).id == r.id {
        let i = choose|i: int| 0 <= i < s.len() && (#[trigger] s[i]).id == r.id;
        assert(put_record(s, r) == s.update(i, r));
    } else {
        let p = insert_pos(s, r.id);
        lemma_insert_pos(s, r.id);
        let t = s.insert(p, r);
        assert(put_record(s, r) == t);
        assert forall|i: int, j: int| 0 <= i < j < t.len() implies lex_lt(t[i].id, t[j].id) by {
            if j < p {
            } else if j == p {
            } else if i < p {
                assert(t[j] == s[j - 1]);
                lemma_lex_transitive(s[i].id, r.id, s[j - 1].id);
            } else if i == p {
                assert(t[j] == s[j - 1]);
            } else {
                assert(t[i] == s[i - 1] && t[j] == s[j - 1]);
            }
        }
    }
    lemma_sorted_unique(put_record(s, r));
}

/// The update time stored for identifier `key`, when a record with it is stored and its
/// update time parses; zero otherwise.
pub open spec fn stored_stamp(s: Seq<BranchRecordView>, key: Seq<u8>) -> u128 {
    if exists|i: int|
        0 <= i < s.len() && (#[trigger] s[i]).id == key && parse_decimal(
            s[i].updated_timestamp_ms,
        ) is Some {
        let i = choose|i: int|
            0 <= i < s.len() && (#[trigger] s[i]).id == key && parse_decimal(
                s[i].updated_timestamp_ms,
            ) is Some;
        parse_decimal(s[i].updated_timestamp_ms).unwrap()
    } else {
        0
    }
}

/// The later of two times.
pub open spec fn later_of(a: u128, b: u128) -> u128 {
    if a >= b { a } else { b }
}

/// The last time a branch was written, given its previous one, its creation and the clock:
/// the clock when it has moved on, else one past the previous write (which stays put only at
/// the largest time there is), and never before creation.
pub open spec fn refreshed_timestamp(previous: u128, created: u128, now: u128) -> u128 {
    let later = if now > previous {
        now
    } else if previous < u128::MAX {
        (previous + 1) as u128
    } else {
        previous
    };
    if later >= created { later } else { created }
}

/// The project's sessions: every one ever opened, and which one is open now.
pub struct Repository {
    pub sessions: Vec<SessionTree>,
    pub current: Option<u64>,
}

pub struct RepositoryView {
    pub sessions: Seq<TreeView>,
    pub current: Option<u64>,
}

impl View for Repository {
    type V = RepositoryView;

    open spec fn view(&self) -> RepositoryView {
        RepositoryView {
            sessions: self.sessions@.map_values(|t: SessionTree| t@),
            current: self.current,
        }
    }
}

impl RepositoryView {
    /// The open session, if any, names a stored one, and each session keeps its
    /// identifiers unique.
    pub open spec fn wf(&self) -> bool {
        &&& (self.current matches Some(c) ==> c < self.sessions.len())
        &&& forall|i: int| 0 <= i < self.sessions.len() ==> sorted_ids(
            (#[trigger] self.sessions[i]).branches,
        )
    }

    /// What the open session holds, or an empty one when none is open.
    pub open spec fn current_tree(&self) -> TreeView {
        match self.current {
            Some(c) => self.sessions[c as int],
            None => empty_tree(),
        }
    }

    /// The repository once a session is open: as it is when one is open, else with a new
    /// empty session after the others, which becomes the open one.
    pub open spec fn opened(&self) -> RepositoryView {
        match self.current {
            Some(_) => *self,
            None => RepositoryView {
                sessions: self.sessions.push(empty_tree()),
                current: Some(self.sessions.len() as u64),
            },
        }
    }

    /// Whether a session can be opened: one is open, or the count of sessions leaves room.
    pub open spec fn can_open(&self) -> bool {
        self.current is Some || self.sessions.len() < u64::MAX
    }

    /// The repository after opening a session and replacing what it holds with `t`; every
    /// other session is kept as it was.
    pub open spec fn with_current(&self, t: TreeView) -> RepositoryView {
        RepositoryView {
            sessions: self.opened().sessions.update(self.opened().current.unwrap() as int, t),
            current: self.opened().current,
        }
    }
}

/// Opening a session keeps a repository well-formed, and replacing the open session's
/// contents with sorted records does too; the open session then holds exactly those contents.
pub proof fn lemma_with_current(r: RepositoryView, t: TreeView)
    requires
        r.wf(),
        r.can_open(),
        sorted_ids(t.branches),
    ensures
        r.opened().wf(),
        r.opened().current_tree() == r.current_tree(),
        r.with_current(t).wf(),
        r.with_current(t).current_tree() == t,
        r.with_current(t).sessions.len() == r.opened().sessions.len(),
{
    let o = r.opened();
    if r.current is None {
        assert(o.sessions[r.sessions.len() as int] == empty_tree());
        assert(sorted_ids(empty_tree().branches));
        assert forall|i: int| 0 <= i < o.sessions.len() implies sorted_ids(
            (#[trigger] o.sessions[i]).branches,
        ) by {
            if i < r.sessions.len() {
                assert(o.sessions[i] == r.sessions[i]);
            }
        }
    }
    let w = r.with_current(t);
    assert forall|i: int| 0 <= i < w.sessions.len() implies sorted_ids(
        (#[trigger] w.sessions[i]).branches,
    ) by {
        if i != o.current.unwrap() as int {
            assert(w.sessions[i] == o.sessions[i]);
        }
    }
}

fn records_sorted(records: &Vec<BranchRecord>) -> (r: bool)
    ensures
        r == sorted_ids(records@.map_values(|x: BranchRecord| x@)),
{
    let ghost s = records@.map_values(|x: BranchRecord| x@);
    let n = records.len();
    if n == 0 {
        return true;
    }
    let mut i: usize = 1;
    while i < n
        invariant
            s == records@.map_values(|x: BranchRecord| x@),
            n == s.len(),
            1 <= i <= n,
            forall|a: int, b: int| 0 <= a < b < i ==> lex_lt(s[a].id, s[b].id),
        decreases n - i,
    {
        if compare_bytes(records[i - 1].id.as_slice(), records[i].id.as_slice()) >= 0 {
            assert(!lex_lt(s[i - 1].id, s[i as int].id));
            return false;
        }
        assert forall|a: int, b: int| 0 <= a < b < i + 1 implies lex_lt(s[a].id, s[b].id) by {
            if b == i && a < i - 1 {
                lemma_lex_transitive(s[a].id, s[i - 1].id, s[b].id);
            }
        }
        i = i + 1;
    }
    true
}

fn stored_stamp_exec(records: &Vec<BranchRecord>, key: &[u8]) -> (r: u128)
    requires
        ids_unique(records@.map_values(|x: BranchRecord| x@)),
    ensures
        r == stored_stamp(records@.map_values(|x: BranchRecord| x@), key@),
{
    let ghost s = records@.map_values(|x: BranchRecord| x@);
    let n = records.len();
    let mut i: usize = 0;
    while i < n
        invariant
            s == records@.map_values(|x: BranchRecord| x@),
            n == s.len(),
            ids_unique(s),
            i <= n,
            forall|k: int| 0 <= k < i ==> (#[trigger] s[k]).id != key@,
        decreases n - i,
    {
        if compare_bytes(records[i].id.as_slice(), key) == 0 {
            assert(s[i as int] == records@[i as int]@);
            let p = decode_decimal(records[i].updated_timestamp_ms.as_slice());
            proof {
                assert forall|j: int| 0 <= j < s.len() && (#[trigger] s[j]).id == key@ implies j == i by {
                    if j != i {
                        assert(s[j].id != s[i as int].id);
                    }
                }
            }
            return match p {
                Some(v) => v,
                None => 0,
            };
        }
        i = i + 1;
    }
    0
}

fn remove_record_exec(records: &mut Vec<BranchRecord>, key: &[u8])
    requires
        sorted_ids(old(records)@.map_values(|x: BranchRecord| x@)),
    ensures
        final(records)@.map_values(|x: BranchRecord| x@) == remove_record(
            old(records)@.map_values(|x: BranchRecord| x@),
            key@,
        ),
        sorted_ids(final(records)@.map_values(|x: BranchRecord| x@)),
{
    let ghost s = old(records)@.map_values(|x: BranchRecord| x@);
    proof {
        lemma_remove_record_sorted(s, key@);
        lemma_sorted_unique(s);
    }
    let mut i: usize = 0;
    let n = records.len();
    while i < n
        invariant
            records@ == old(records)@,
            s == records@.map_values(|x: BranchRecord| x@),
            n == records@.len(),
            ids_unique(s),
            sorted_ids(remove_record(s, key@)),
            i <= n,
            forall|k: int| 0 <= k < i ==> (#[trigger] s[k]).id != key@,
        decreases n - i,
    {
        if compare_bytes(records[i].id.as_slice(), key) == 0 {
            assert(s[i as int].id == key@);
            let ghost j = choose|j: int| 0 <= j < s.len() && (#[trigger] s[j]).id == key@;
            assert(s[j].id == s[i as int].id);
            assert(j == i);
            records.remove(i);
            assert(records@.map_values(|x: BranchRecord| x@) =~= s.remove(i as int));
            return;
        }
        i = i + 1;
    }
}

fn put_record_exec(records: &mut Vec<BranchRecord>, r: BranchRecord)
    requires
        sorted_ids(old(records)@.map_values(|x: BranchRecord| x@)),
    ensures
        final(records)@.map_values(|x: BranchRecord| x@) == put_record(
            old(records)@.map_values(|x: BranchRecord| x@),
            r@,
        ),
        sorted_ids(final(records)@.map_values(|x: BranchRecord| x@)),
{
    let ghost s = old(records)@.map_values(|x: BranchRecord| x@);
    let ghost rv = r@;
    proof {
        lemma_put_record_sorted(s, rv);
    }
    let mut i: usize = 0;
    let n = records.len();
    while i < n
        invariant
            records@ == old(records)@,
            s == records@.map_values(|x: BranchRecord| x@),
            rv == r@,
            n == records@.len(),
            sorted_ids(s),
            sorted_ids(put_record(s, rv)),
            i <= n,
            forall|k: int| 0 <= k < i ==> lex_lt((#[trigger] s[k]).id, rv.id),
        decreases n - i,
    {
        let c = compare_bytes(records[i].id.as_slice(), r.id.as_slice());
        if c == 0 {
            assert(s[i as int].id == rv.id);
            let ghost j = choose|j: int| 0 <= j < s.len() && (#[trigger] s[j]).id == rv.id;
            proof {
                lemma_sorted_unique(s);
            }
            assert(s[j].id == s[i as int].id);
            assert(j == i);
            records.remove(i);
            records.insert(i, r);
            assert(records@.map_values(|x: BranchRecord| x@) =~= s.update(i as int, rv));
            return;
        }
        if c > 0 {
            proof {
                assert(lex_lt(rv.id, s[i as int].id));
                assert forall|k: int| 0 <= k < s.len() implies (#[trigger] s[k]).id != rv.id by {
                    lemma_lex_asymmetric(s[k].id, rv.id);
                    if k > i {
                        lemma_lex_transitive(rv.id, s[i as int].id, s[k].id);
                    }
                }
                lemma_insert_pos(s, rv.id);
                let p = insert_pos(s, rv.id);
                if p < i {
                    lemma_lex_asymmetric(s[p].id, rv.id);
                } else if p > i {
                    lemma_lex_asymmetric(s[i as int].id, rv.id);
                }
                assert(p == i);
            }
            records.insert(i, r);
            assert(records@.map_values(|x: BranchRecord| x@) =~= s.insert(i as int, rv));
            return;
        }
        i = i + 1;
    }
    proof {
        assert forall|k: int| 0 <= k < s.len() implies (#[trigger] s[k]).id != rv.id by {
            lemma_lex_asymmetric(s[k].id, rv.id);
        }
        lemma_insert_pos(s, rv.id);
        let p = insert_pos(s, rv.id);
        if p < n {
            lemma_lex_asymmetric(s[p].id, rv.id);
        }
        assert(p == n);
    }
    records.push(r);
    assert(records@.map_values(|x: BranchRecord| x@) =~= s.insert(n as int, rv));
}

impl Repository {
    /// A repository with no session yet.
    pub fn new() -> (r: Repository)
        ensures
            r@.wf(),
            r@.sessions.len() == 0,
            r@.current is None,
    {
        let r = Repository { sessions: Vec::new(), current: None };
        assert(r@.sessions =~= Seq::<TreeView>::empty());
        r
    }

    /// Whether the repository keeps its invariants: the open session is a stored one, and
    /// every session holds its records sorted by identifier.
    pub fn is_well_formed(&self) -> (r: bool)
        ensures
            r == self@.wf(),
    {
        let n = self.sessions.len();
        if let Some(c) = self.current {
            if c >= n as u64 {
                return false;
            }
        }
        let mut i: usize = 0;
        while i < n
            invariant
                n == self@.sessions.len(),
                i <= n,
                self.current matches Some(c) ==> c < n,
                forall|k: int| 0 <= k < i ==> sorted_ids((#[trigger] self@.sessions[k]).branches),
            decreases n - i,
        {
            assert(self@.sessions[i as int] == self.sessions@[i as int]@);
            if !records_sorted(&self.sessions[i].branches) {
                return false;
            }
            i = i + 1;
        }
        true
    }

    /// The open session, if one is open; opens nothing.
    pub fn get_current_session(&self) -> (r: Option<Session>)
        ensures
            r matches Some(s) ==> self@.current == Some(s.id),
            r is None <==> self@.current is None,
    {
        match self.current {
            Some(id) => Some(Session { id }),
            None => None,
        }
    }

    /// The open session; when none is open, a new empty one is opened first.
    pub fn get_or_create_current_session(&mut self) -> (r: Session)
        requires
            old(self)@.wf(),
            old(self)@.can_open(),
        ensures
            final(self)@ == old(self)@.opened(),
            final(self)@.wf(),
            final(self)@.current == Some(r.id),
    {
        proof {
            lemma_with_current(self@, empty_tree());
        }
        match self.current {
            Some(id) => Session { id },
            None => {
                let id = self.sessions.len() as u64;
                self.sessions.push(SessionTree { branches: Vec::new(), target: None, generation: 0 });
                self.current = Some(id);
                proof {
                    assert(final(self).sessions@[id as int]@.branches =~= Seq::<BranchRecordView>::empty());
                    assert(final(self)@.sessions =~= old(self)@.sessions.push(empty_tree()));
                }
                Session { id }
            },
        }
    }

    /// Closes the open session; it stays stored and readable.
    pub fn finalize_current_session(&mut self)
        ensures
            final(self)@.sessions == old(self)@.sessions,
            final(self)@.current is None,
    {
        self.current = None;
    }

    /// Opens a session if needed and takes its contents out, for a write to change them.
    fn take_open_tree(&mut self) -> (r: (usize, SessionTree))
        requires
            old(self)@.wf(),
            old(self)@.can_open(),
        ensures
            old(self)@.opened().current == Some(r.0 as u64),
            r.0 < old(self)@.opened().sessions.len(),
            final(self)@.sessions == old(self)@.opened().sessions.remove(r.0 as int),
            final(self)@.current == old(self)@.opened().current,
            r.1@ == old(self)@.current_tree(),
            sorted_ids(r.1@.branches),
    {
        proof {
            lemma_with_current(self@, empty_tree());
        }
        let s = self.get_or_create_current_session();
        let ghost mid = self@;
        let ghost raw = self.sessions@;
        let n = self.sessions.len();
        assert(s.id < n);
        let idx = s.id as usize;
        let tree = self.sessions.remove(idx);
        proof {
            assert(idx as int == s.id as int);
            assert(tree@ == mid.sessions[idx as int]);
            assert(self@.sessions =~= mid.sessions.remove(idx as int));
        }
        (idx, tree)
    }

    /// Puts a session's contents back where `take_open_tree` took them from.
    fn put_back_tree(&mut self, idx: usize, tree: SessionTree)
        requires
            idx <= old(self)@.sessions.len(),
        ensures
            final(self)@.sessions == old(self)@.sessions.insert(idx as int, tree@),
            final(self)@.current == old(self)@.current,
    {
        self.sessions.insert(idx, tree);
        assert(self@.sessions =~= old(self)@.sessions.insert(idx as int, tree@));
    }

    /// Stores a branch record in the open session, opening one if needed: the record replaces
    /// the one with its identifier, and the session's history advances by one commit.
    pub fn put_branch_record(&mut self, record: BranchRecord)
        requires
            old(self)@.wf(),
            old(self)@.can_open(),
            old(self)@.current_tree().generation < u64::MAX,
        ensures
            final(self)@.wf(),
            final(self)@ == old(self)@.with_current(
                tree_put_branch(old(self)@.current_tree(), record@),
            ),
            final(self)@.current is Some,
            final(self)@.current_tree() == tree_put_branch(old(self)@.current_tree(), record@),
    {
        let ghost t = tree_put_branch(old(self)@.current_tree(), record@);
        let (idx, mut tree) = self.take_open_tree();
        put_record_exec(&mut tree.branches, record);
        tree.generation = tree.generation + 1;
        self.put_back_tree(idx, tree);
        proof {
            lemma_with_current(old(self)@, t);
            assert(tree@ == t);
            assert(self@.sessions =~= old(self)@.with_current(t).sessions);
        }
    }

    /// Stores the default target in the open session, opening one if needed, replacing any
    /// earlier one; the session's history advances by one commit.
    pub fn put_target_record(&mut self, record: TargetRecord)
        requires
            old(self)@.wf(),
            old(self)@.can_open(),
            old(self)@.current_tree().generation < u64::MAX,
        ensures
            final(self)@.wf(),
            final(self)@ == old(self)@.with_current(
                tree_put_target(old(self)@.current_tree(), record@),
            ),
            final(self)@.current is Some,
            final(self)@.current_tree() == tree_put_target(old(self)@.current_tree(), record@),
    {
        let ghost t = tree_put_target(old(self)@.current_tree(), record@);
        let (idx, mut tree) = self.take_open_tree();
        tree.target = Some(record);
        tree.generation = tree.generation + 1;
        self.put_back_tree(idx, tree);
        proof {
            lemma_with_current(old(self)@, t);
            assert(tree@.branches =~= t.branches);
            assert(tree@ == t);
            assert(self@.sessions =~= old(self)@.with_current(t).sessions);
        }
    }

    /// Deletes a branch from the open session, opening one if needed; the session's history
    /// advances by one commit. Closed sessions keep their records.
    pub fn delete_branch(&mut self, id: &BranchId)
        requires
            old(self)@.wf(),
            id@.len() == BRANCH_ID_LEN,
            old(self)@.can_open(),
            old(self)@.current_tree().generation < u64::MAX,
        ensures
            final(self)@.wf(),
            final(self)@ == old(self)@.with_current(
                tree_remove_branch(old(self)@.current_tree(), hex_of(id@)),
            ),
            final(self)@.current is Some,
            final(self)@.current_tree() == tree_remove_branch(old(self)@.current_tree(), hex_of(id@)),
    {
        let ghost t = tree_remove_branch(old(self)@.current_tree(), hex_of(id@));
        let key = id.to_hex();
        let (idx, mut tree) = self.take_open_tree();
        remove_record_exec(&mut tree.branches, key.as_slice());
        tree.generation = tree.generation + 1;
        self.put_back_tree(idx, tree);
        proof {
            lemma_with_current(old(self)@, t);
            assert(tree@ == t);
            assert(self@.sessions =~= old(self)@.with_current(t).sessions);
        }
    }

    /// Writes a branch into the open session, opening one if needed. Its update time is
    /// refreshed first, to strictly after both its own previous one and the one stored for its
    /// identifier, so the stored record is that of the branch as it is after the call.
    pub fn write_branch(&mut self, branch: &mut Branch, now_ms: u128)
        requires
            old(self)@.wf(),
            old(branch)@.wf(),
            old(self)@.can_open(),
            old(self)@.current_tree().generation < u64::MAX,
        ensures
            final(self)@.wf(),
            final(branch)@ == (BranchView {
                updated_timestamp_ms: refreshed_timestamp(
                    later_of(
                        old(branch).updated_timestamp_ms,
                        stored_stamp(old(self)@.current_tree().branches, hex_of(old(branch)@.id)),
                    ),
                    old(branch).created_timestamp_ms,
                    now_ms,
                ),
                ..old(branch)@
            }),
            forall|i: int|
                0 <= i < old(self)@.current_tree().branches.len()
                    && (#[trigger] old(self)@.current_tree().branches[i]).id == hex_of(
                    old(branch)@.id,
                ) ==> match parse_decimal(
                    old(self)@.current_tree().branches[i].updated_timestamp_ms,
                ) {
                    Some(p) => p < u128::MAX ==> final(branch).updated_timestamp_ms > p,
                    None => true,
                },
            old(branch)@.valid() ==> final(branch)@.valid(),
            final(self)@ == old(self)@.with_current(
                tree_put_branch(old(self)@.current_tree(), branch_record(final(branch)@)),
            ),
            final(self)@.current is Some,
            final(self)@.current_tree() == tree_put_branch(old(self)@.current_tree(), branch_record(final(branch)@)),
    {
        let key = branch.id.to_hex();
        let stored = match self.current {
            Some(c) => {
                let n = self.sessions.len();
                assert(c < n);
                let idx = c as usize;
                assert(idx as int == c as int);
                assert(self@.sessions[idx as int] == self.sessions@[idx as int]@);
                proof {
                    lemma_sorted_unique(self@.sessions[idx as int].branches);
                }
                stored_stamp_exec(&self.sessions[idx].branches, key.as_slice())
            },
            None => 0,
        };
        assert(stored == stored_stamp(old(self)@.current_tree().branches, key@));
        proof {
            let s = old(self)@.current_tree().branches;
            lemma_sorted_unique(s);
            assert forall|i: int|
                0 <= i < s.len() && (#[trigger] s[i]).id == key@ && parse_decimal(
                    s[i].updated_timestamp_ms,
                ) is Some implies parse_decimal(s[i].updated_timestamp_ms).unwrap() <= stored by {
                let j = choose|j: int|
                    0 <= j < s.len() && (#[trigger] s[j]).id == key@ && parse_decimal(
                        s[j].updated_timestamp_ms,
                    ) is Some;
                if i != j {
                    assert(s[i].id != s[j].id);
                }
            }
        }
        let own = branch.updated_timestamp_ms;
        let previous = if own >= stored { own } else { stored };
        let later = if now_ms > previous {
            now_ms
        } else if previous < u128::MAX {
            previous + 1
        } else {
            previous
        };
        branch.updated_timestamp_ms = if later >= branch.created_timestamp_ms {
            later
        } else {
            branch.created_timestamp_ms
        };
        let record = encode_branch(branch);
        self.put_branch_record(record);
    }

    /// Writes the project's default target into the open session, opening one if needed.
    pub fn write_default_target(&mut self, target: &Target)
        requires
            old(self)@.wf(),
            target@.wf(),
            old(self)@.can_open(),
            old(self)@.current_tree().generation < u64::MAX,
        ensures
            final(self)@.wf(),
            final(self)@ == old(self)@.with_current(
                tree_put_target(old(self)@.current_tree(), target_record(target@)),
            ),
            final(self)@.current is Some,
            final(self)@.current_tree() == tree_put_target(old(self)@.current_tree(), target_record(target@)),
    {
        let record = encode_target(target);
        self.put_target_record(record);
    }
}

} // verus!
