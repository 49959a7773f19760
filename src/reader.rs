use vstd::prelude::*;

use crate::error::{Code, UserError};
use crate::branch::{decode_branch, parse_branch, Branch, BranchRecord, BranchRecordView, BranchView};
use crate::sessions::{Repository, Session, SessionTree, TreeView};
use crate::target::{decode_target, parse_target, Target, TargetView};

verus! {

/// Why reading from a session failed.
#[derive(Debug, Clone, Copy, PartialEq, Eq, Structural)]
pub enum ReadError {
    /// The session, or the record asked for, does not exist.
    NotFound,
    /// A stored record is present but one of its fields does not parse.
    Parse,
}

impl ReadError {
    /// The user-facing form of a read failure: a missing session or record under the branches
    /// code, a record that does not parse under the validation code. The messages are this
    /// library's wording.
    pub fn into_user_error(self) -> (r: UserError)
        ensures
            self is NotFound ==> r.is_user(Code::Branches, "Not found"@),
            self is Parse ==> r.is_user(Code::Validation, "Malformed record"@),
    {
        match self {
            ReadError::NotFound => UserError::User { code: Code::Branches, message: "Not found".to_owned() },
            ReadError::Parse => UserError::User {
                code: Code::Validation,
                message: "Malformed record".to_owned(),
            },
        }
    }
}

/// What reading one stored branch record gives.
pub open spec fn read_item(r: BranchRecordView) -> Result<BranchView, ReadError> {
    match parse_branch(r) {
        Some(b) => Ok(b),
        None => Err(ReadError::Parse),
    }
}

/// What a walk over a session gives: one item per stored branch record, in the stored
/// order, which is the lexical order of the identifiers.
pub open spec fn walk(t: TreeView) -> Seq<Result<BranchView, ReadError>> {
    t.branches.map_values(|r: BranchRecordView| read_item(r))
}

/// What reading the default target of a session gives.
pub open spec fn read_target(t: TreeView) -> Result<TargetView, ReadError> {
    match t.target {
        None => Err(ReadError::NotFound),
        Some(r) => match parse_target(r) {
            Some(v) => Ok(v),
            None => Err(ReadError::Parse),
        },
    }
}

pub open spec fn item_view(x: Result<Branch, ReadError>) -> Result<BranchView, ReadError> {
    match x {
        Ok(b) => Ok(b@),
        Err(e) => Err(e),
    }
}

/// Reads the records of one session.
pub struct Reader<'a> {
    pub tree: &'a SessionTree,
}

impl<'a> Reader<'a> {
    /// A reader on a stored session; `NotFound` when the handle names none.
    pub fn open(repository: &'a Repository, session: &Session) -> (r: Result<Reader<'a>, ReadError>)
        ensures
            r is Ok <==> session.id < repository@.sessions.len(),
            r matches Ok(rd) ==> rd.tree@ == repository@.sessions[session.id as int],
            r matches Err(e) ==> e == ReadError::NotFound,
    {
        let n = repository.sessions.len();
        if session.id < n as u64 {
            Ok(Reader { tree: &repository.sessions[session.id as usize] })
        } else {
            Err(ReadError::NotFound)
        }
    }

    /// The session's default target: `NotFound` if none was written, `Parse` if its record
    /// does not parse.
    pub fn read_default_target(&self) -> (r: Result<Target, ReadError>)
        ensures
            match r {
                Ok(t) => read_target(self.tree@) == Ok::<TargetView, ReadError>(t@),
                Err(e) => read_target(self.tree@) == Err::<TargetView, ReadError>(e),
            },
    {
        match &self.tree.target {
            None => Err(ReadError::NotFound),
            Some(rec) => match decode_target(rec) {
                Some(t) => Ok(t),
                None => Err(ReadError::Parse),
            },
        }
    }
}

/// Walks the branch records of one session, yielding each one decoded or the error that
/// decoding it gave; an error does not end the walk.
pub struct BranchIterator<'a> {
    pub records: &'a Vec<BranchRecord>,
    pub position: usize,
}

impl<'a> BranchIterator<'a> {
    /// The items still to come.
    pub open spec fn remaining(&self) -> Seq<Result<BranchView, ReadError>> {
        self.records@.map_values(|r: BranchRecord| read_item(r@)).subrange(
            self.position as int,
            self.records@.len() as int,
        )
    }

    pub open spec fn wf(&self) -> bool {
        self.position <= self.records@.len()
    }

    /// A walk over every branch record of the reader's session.
    pub fn new(reader: &Reader<'a>) -> (r: BranchIterator<'a>)
        ensures
            r.wf(),
            r.remaining() == walk(reader.tree@),
    {
        let r = BranchIterator { records: &reader.tree.branches, position: 0 };
        assert(r.remaining() =~= walk(reader.tree@));
        r
    }

    /// The next item, or `None` once every record has been read.
    pub fn next(&mut self) -> (r: Option<Result<Branch, ReadError>>)
        requires
            old(self).wf(),
        ensures
            final(self).wf(),
            old(self).remaining().len() == 0 ==> r is None && final(self).remaining() == old(
                self,
            ).remaining(),
            old(self).remaining().len() > 0 ==> {
                &&& r matches Some(x) && item_view(x) == old(self).remaining()[0]
                &&& final(self).remaining() == old(self).remaining().drop_first()
            },
    {
        if self.position >= self.records.len() {
            return None;
        }
        let rec = &self.records[self.position];
        let item = match decode_branch(rec) {
            Some(b) => Ok(b),
            None => Err(ReadError::Parse),
        };
        let ghost before = self.remaining();
        self.position = self.position + 1;
        assert(self.remaining() =~= before.drop_first());
        Some(item)
    }

    /// How many items are left.
    pub fn count(self) -> (r: usize)
        requires
            self.wf(),
        ensures
            r == self.remaining().len(),
    {
        self.records.len() - self.position
    }

    /// Every remaining item, in order.
    pub fn results(self) -> (r: Vec<Result<Branch, ReadError>>)
        requires
            self.wf(),
        ensures
            r@.map_values(|x: Result<Branch, ReadError>| item_view(x)) == self.remaining(),
    {
        let mut it = self;
        let ghost all = it.remaining();
        let mut out: Vec<Result<Branch, ReadError>> = Vec::new();
        while it.position < it.records.len()
            invariant
                it.wf(),
                out@.len() + it.remaining().len() == all.len(),
                it.remaining() == all.subrange(out@.len() as int, all.len() as int),
                forall|k: int| 0 <= k < out@.len() ==> item_view(#[trigger] out@[k]) == all[k],
            decreases it.records@.len() - it.position,
        {
            match it.next() {
                Some(x) => {
                    out.push(x);
                },
                None => {},
            }
            assert(it.remaining() =~= all.subrange(out@.len() as int, all.len() as int));
        }
        assert(out@.map_values(|x: Result<Branch, ReadError>| item_view(x)) =~= all);
        out
    }

    /// Every remaining branch, or the first error met among them.
    pub fn collect_all(self) -> (r: Result<Vec<Branch>, ReadError>)
        requires
            self.wf(),
        ensures
            r is Ok <==> forall|i: int|
                0 <= i < self.remaining().len() ==> (#[trigger] self.remaining()[i]) is Ok,
            r matches Ok(v) ==> v@.len() == self.remaining().len() && forall|i: int|
                0 <= i < v@.len() ==> Ok::<BranchView, ReadError>(#[trigger] v@[i]@)
                    == self.remaining()[i],
            r matches Err(e) ==> exists|i: int|
                0 <= i < self.remaining().len() && self.remaining()[i] == Err::<
                    BranchView,
                    ReadError,
                >(e),
    {
        let ghost all = self.remaining();
        let mut it = self;
        let mut out: Vec<Branch> = Vec::new();
        while it.position < it.records.len()
            invariant
                all == self.remaining(),
                it.wf(),
                out@.len() + it.remaining().len() == all.len(),
                it.remaining() == all.subrange(out@.len() as int, all.len() as int),
                forall|k: int| 0 <= k < out@.len() ==> Ok::<BranchView, ReadError>((#[trigger] out@[k])@) == all[k],
            decreases it.records@.len() - it.position,
        {
            let ghost k = out@.len() as int;
            match it.next() {
                Some(Ok(b)) => {
                    out.push(b);
                },
                Some(Err(e)) => {
                    assert(0 <= k < all.len());
                    assert(all[k] == Err::<BranchView, ReadError>(e));
                    assert(!(all[k] is Ok));
                    return Err(e);
                },
                None => {},
            }
            assert(it.remaining() =~= all.subrange(out@.len() as int, all.len() as int));
        }
        assert forall|i: int| 0 <= i < all.len() implies (#[trigger] all[i]) is Ok by {
            assert(Ok::<BranchView, ReadError>(out@[i]@) == all[i]);
        }
        Ok(out)
    }
}

/// Every branch of the reader's session, or the user-facing form of the first read error.
pub fn list_branches(reader: &Reader) -> (r: Result<Vec<Branch>, UserError>)
    ensures
        r is Ok <==> forall|i: int|
            0 <= i < walk(reader.tree@).len() ==> (#[trigger] walk(reader.tree@)[i]) is Ok,
        r matches Ok(v) ==> v@.len() == walk(reader.tree@).len() && forall|i: int|
            0 <= i < v@.len() ==> Ok::<BranchView, ReadError>(#[trigger] v@[i]@)
                == walk(reader.tree@)[i],
        r matches Err(e) ==> e.is_user(Code::Validation, "Malformed record"@),
{
    let it = BranchIterator::new(reader);
    match it.collect_all() {
        Ok(v) => Ok(v),
        Err(e) => {
            assert(e == ReadError::Parse);
            Err(e.into_user_error())
        },
    }
}

} // verus!
