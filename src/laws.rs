use vstd::prelude::*;

use crate::branch::{branch_record, lemma_branch_round_trip, parse_branch, BranchView};
use crate::codec::{hex_of, lemma_hex_round_trip};
use crate::ids::{lemma_id_canonical, BRANCH_ID_LEN};
use crate::reader::{read_item, read_target, walk, ReadError};
use crate::branch::BranchRecordView;
use crate::sessions::{
    empty_tree, insert_pos, lemma_insert_pos, lemma_put_record_sorted, put_record, refreshed_timestamp, later_of, lemma_sorted_unique,
    sorted_ids, tree_put_branch, tree_put_target,
    TreeView,
};
use crate::target::{lemma_target_round_trip, target_record, TargetView};

verus! {

/// A session after writing each branch of `bs` in turn.
pub open spec fn write_all(t: TreeView, bs: Seq<BranchView>) -> TreeView
    decreases bs.len(),
{
    if bs.len() == 0 {
        t
    } else {
        tree_put_branch(write_all(t, bs.drop_last()), branch_record(bs.last()))
    }
}

/// No two branches of `bs` share an identifier.
pub open spec fn distinct_ids(bs: Seq<BranchView>) -> bool {
    forall|i: int, j: int| 0 <= i < bs.len() && 0 <= j < bs.len() && i != j ==> bs[i].id != bs[j].id
}

proof fn lemma_hex_injective(a: Seq<u8>, b: Seq<u8>)
    requires
        a != b,
    ensures
        hex_of(a) != hex_of(b),
{
    lemma_hex_round_trip(a);
    lemma_hex_round_trip(b);
}

/// A session with nothing written in it walks to no items, and no error.
pub proof fn lemma_empty_session_walk()
    ensures
        walk(empty_tree()).len() == 0,
{
}

/// One branch written into a session that holds no branch records yet walks back to
/// exactly that branch, equal in every field.
pub proof fn lemma_write_then_walk(t0: TreeView, b: BranchView)
    requires
        t0.branches.len() == 0,
        b.wf(),
    ensures
        walk(tree_put_branch(t0, branch_record(b))) == seq![Ok::<BranchView, ReadError>(b)],
{
    let t = tree_put_branch(t0, branch_record(b));
    assert(put_record(t0.branches, branch_record(b)) =~= seq![branch_record(b)]);
    assert(t.branches =~= seq![branch_record(b)]);
    lemma_branch_round_trip(b);
    assert(walk(t) =~= seq![Ok::<BranchView, ReadError>(b)]);
}

proof fn lemma_insert_members(s: Seq<BranchRecordView>, p: int, r: BranchRecordView)
    requires
        0 <= p <= s.len(),
    ensures
        forall|x: BranchRecordView| s.contains(x) ==> #[trigger] s.insert(p, r).contains(x),
        s.insert(p, r).contains(r),
        forall|j: int|
            0 <= j < s.len() + 1 ==> #[trigger] s.insert(p, r)[j] == r || s.contains(s.insert(p, r)[j]),
{
    let t = s.insert(p, r);
    assert(t[p] == r);
    assert forall|x: BranchRecordView| s.contains(x) implies #[trigger] t.contains(x) by {
        let j = choose|j: int| 0 <= j < s.len() && s[j] == x;
        if j < p {
            assert(t[j] == x);
        } else {
            assert(t[j + 1] == x);
        }
    }
    assert forall|j: int| 0 <= j < s.len() + 1 implies #[trigger] t[j] == r || s.contains(t[j]) by {
        if j < p {
            assert(t[j] == s[j]);
        } else if j > p {
            assert(t[j] == s[j - 1]);
        }
    }
}

#[verifier::rlimit(50)]
proof fn lemma_write_all_records(t0: TreeView, bs: Seq<BranchView>)
    requires
        t0.branches.len() == 0,
        distinct_ids(bs),
    ensures
        write_all(t0, bs).branches.len() == bs.len(),
        sorted_ids(write_all(t0, bs).branches),
        forall|i: int|
            0 <= i < bs.len() ==> write_all(t0, bs).branches.contains(
                branch_record(#[trigger] bs[i]),
            ),
        forall|j: int|
            0 <= j < bs.len() ==> exists|i: int|
                0 <= i < bs.len() && #[trigger] write_all(t0, bs).branches[j]
                    == branch_record(bs[i]),
    decreases bs.len(),
{
    if bs.len() == 0 {
        assert(write_all(t0, bs).branches =~= Seq::<BranchRecordView>::empty());
    } else {
        let prefix = bs.drop_last();
        assert(distinct_ids(prefix));
        lemma_write_all_records(t0, prefix);
        let s = write_all(t0, prefix).branches;
        let n = bs.len() - 1;
        let r = branch_record(bs[n]);
        assert forall|k: int| 0 <= k < s.len() implies (#[trigger] s[k]).id != r.id by {
            let i = choose|i: int| 0 <= i < prefix.len() && s[k] == branch_record(prefix[i]);
            assert(prefix[i] == bs[i]);
            assert(bs[i].id != bs[n].id);
            lemma_hex_injective(bs[i].id, bs[n].id);
        }
        lemma_insert_pos(s, r.id);
        let p = insert_pos(s, r.id);
        let t = s.insert(p, r);
        assert(put_record(s, r) == t);
        lemma_put_record_sorted(s, r);
        assert(write_all(t0, bs).branches == t);
        lemma_insert_members(s, p, r);
        assert forall|i: int| 0 <= i < bs.len() implies t.contains(branch_record(#[trigger] bs[i])) by {
            if i < n {
                assert(prefix[i] == bs[i]);
                assert(s.contains(branch_record(prefix[i])));
            }
        }
        assert forall|j: int| 0 <= j < bs.len() implies exists|i: int|
            0 <= i < bs.len() && #[trigger] t[j] == branch_record(bs[i]) by {
            if t[j] != r {
                let k = choose|k: int| 0 <= k < s.len() && s[k] == t[j];
                let i = choose|i: int| 0 <= i < prefix.len() && s[k] == branch_record(prefix[i]);
                assert(prefix[i] == bs[i]);
            }
        }
    }
}

/// Writing branches with distinct identifiers into a session that holds no branch
/// records yet, in any order, and then walking it gives one item per branch: each written
/// branch is among the items, and each item is one of the written branches.
pub proof fn lemma_write_many_then_walk(t0: TreeView, bs: Seq<BranchView>)
    requires
        t0.branches.len() == 0,
        distinct_ids(bs),
        forall|i: int| 0 <= i < bs.len() ==> (#[trigger] bs[i]).wf(),
    ensures
        walk(write_all(t0, bs)).len() == bs.len(),
        forall|i: int|
            0 <= i < bs.len() ==> exists|j: int|
                0 <= j < bs.len() && #[trigger] walk(write_all(t0, bs))[j] == Ok::<
                    BranchView,
                    ReadError,
                >(#[trigger] bs[i]),
        forall|j: int|
            0 <= j < bs.len() ==> exists|i: int|
                0 <= i < bs.len() && #[trigger] walk(write_all(t0, bs))[j] == Ok::<
                    BranchView,
                    ReadError,
                >(bs[i]),
{
    lemma_write_all_records(t0, bs);
    let s = write_all(t0, bs).branches;
    let w = walk(write_all(t0, bs));
    assert forall|i: int| 0 <= i < bs.len() implies exists|j: int|
        0 <= j < bs.len() && #[trigger] w[j] == Ok::<BranchView, ReadError>(#[trigger] bs[i]) by {
        assert(s.contains(branch_record(bs[i])));
        let j = choose|j: int| 0 <= j < s.len() && s[j] == branch_record(bs[i]);
        lemma_branch_round_trip(bs[i]);
        assert(w[j] == read_item(s[j]));
    }
    assert forall|j: int| 0 <= j < bs.len() implies exists|i: int|
        0 <= i < bs.len() && #[trigger] w[j] == Ok::<BranchView, ReadError>(bs[i]) by {
        let i = choose|i: int| 0 <= i < bs.len() && s[j] == branch_record(bs[i]);
        lemma_branch_round_trip(bs[i]);
        assert(w[j] == read_item(s[j]));
    }
}

/// The order of the writes does not change what a walk lists: writing the same branches
/// (distinct identifiers) in two orders into sessions without branch records gives walks of
/// the same length holding the same items.
pub proof fn lemma_write_order_irrelevant(t1: TreeView, t2: TreeView, bs: Seq<BranchView>, cs: Seq<BranchView>)
    requires
        t1.branches.len() == 0,
        t2.branches.len() == 0,
        distinct_ids(bs),
        distinct_ids(cs),
        bs.len() == cs.len(),
        bs.to_set() == cs.to_set(),
        forall|i: int| 0 <= i < bs.len() ==> (#[trigger] bs[i]).wf(),
    ensures
        walk(write_all(t1, bs)).len() == walk(write_all(t2, cs)).len(),
        forall|x: Result<BranchView, ReadError>|
            walk(write_all(t1, bs)).contains(x) <==> walk(write_all(t2, cs)).contains(x),
{
    assert forall|i: int| 0 <= i < cs.len() implies (#[trigger] cs[i]).wf() by {
        assert(cs.to_set().contains(cs[i]));
        assert(bs.to_set().contains(cs[i]));
        let j = choose|j: int| 0 <= j < bs.len() && bs[j] == cs[i];
    }
    lemma_write_many_then_walk(t1, bs);
    lemma_write_many_then_walk(t2, cs);
    let w1 = walk(write_all(t1, bs));
    let w2 = walk(write_all(t2, cs));
    assert forall|x: Result<BranchView, ReadError>| w1.contains(x) implies w2.contains(x) by {
        let j = choose|j: int| 0 <= j < w1.len() && w1[j] == x;
        let i = choose|i: int| 0 <= i < bs.len() && w1[j] == Ok::<BranchView, ReadError>(bs[i]);
        assert(bs.to_set().contains(bs[i]));
        assert(cs.to_set().contains(bs[i]));
        let k = choose|k: int| 0 <= k < cs.len() && cs[k] == bs[i];
        let m = choose|m: int| 0 <= m < cs.len() && w2[m] == Ok::<BranchView, ReadError>(cs[k]);
        assert(w2[m] == x);
    }
    assert forall|x: Result<BranchView, ReadError>| w2.contains(x) implies w1.contains(x) by {
        let j = choose|j: int| 0 <= j < w2.len() && w2[j] == x;
        let i = choose|i: int| 0 <= i < cs.len() && w2[j] == Ok::<BranchView, ReadError>(cs[i]);
        assert(cs.to_set().contains(cs[i]));
        assert(bs.to_set().contains(cs[i]));
        let k = choose|k: int| 0 <= k < bs.len() && bs[k] == cs[i];
        let m = choose|m: int| 0 <= m < bs.len() && w1[m] == Ok::<BranchView, ReadError>(bs[k]);
        assert(w1[m] == x);
    }
}

/// Writing a branch twice under one identifier leaves one record for it, which reads back
/// as the second write, and the walk lists exactly one branch with that identifier; the
/// number of records is that after the first write.
pub proof fn lemma_overwrite(t: TreeView, b1: BranchView, b2: BranchView)
    requires
        sorted_ids(t.branches),
        b1.id == b2.id,
        b2.wf(),
    ensures
        ({
            let once = tree_put_branch(t, branch_record(b1));
            let twice = tree_put_branch(once, branch_record(b2));
            &&& twice.branches.len() == once.branches.len()
            &&& exists|i: int|
                0 <= i < twice.branches.len() && walk(twice)[i] == Ok::<BranchView, ReadError>(
                    b2,
                )
            &&& forall|i: int, j: int|
                0 <= i < twice.branches.len() && 0 <= j < twice.branches.len()
                    && twice.branches[i].id == hex_of(b2.id) && twice.branches[j].id == hex_of(
                    b2.id,
                ) ==> i == j
            &&& forall|i: int, j: int|
                0 <= i < twice.branches.len() && 0 <= j < twice.branches.len()
                    && (#[trigger] walk(twice)[i] matches Ok(x) && x.id == b2.id)
                    && (#[trigger] walk(twice)[j] matches Ok(y) && y.id == b2.id) ==> i == j
        }),
{
    let once = tree_put_branch(t, branch_record(b1));
    let s = once.branches;
    let r = branch_record(b2);
    let s0 = t.branches;
    let r1 = branch_record(b1);
    if exists|i: int| 0 <= i < s0.len() && (#[trigger] s0[i]).id == r1.id {
        let i = choose|i: int| 0 <= i < s0.len() && (#[trigger] s0[i]).id == r1.id;
        assert(s[i].id == r.id);
    } else {
        lemma_insert_pos(s0, r1.id);
        assert(s[insert_pos(s0, r1.id)].id == r.id);
    }
    let k = choose|i: int| 0 <= i < s.len() && (#[trigger] s[i]).id == r.id;
    lemma_put_record_sorted(t.branches, branch_record(b1));
    lemma_put_record_sorted(s, r);
    let twice = tree_put_branch(once, r);
    assert(twice.branches == s.update(k, r));
    lemma_branch_round_trip(b2);
    assert(walk(twice)[k] == Ok::<BranchView, ReadError>(b2));
    let u = twice.branches;
    lemma_sorted_unique(u);
    assert forall|i: int, j: int|
        0 <= i < u.len() && 0 <= j < u.len() && (#[trigger] walk(twice)[i] matches Ok(x) && x.id
            == b2.id) && (#[trigger] walk(twice)[j] matches Ok(y) && y.id == b2.id) implies i == j by {
        assert(walk(twice)[i] == read_item(u[i]));
        assert(walk(twice)[j] == read_item(u[j]));
        lemma_id_canonical(u[i].id, BRANCH_ID_LEN as nat);
        lemma_id_canonical(u[j].id, BRANCH_ID_LEN as nat);
        assert(u[i].id == u[j].id);
    }
}

/// Each write of a branch stamps it strictly later than both its own previous update time
/// and the one stored for its identifier in the session, unless one of them already is the
/// largest time there is, and never before its creation.
pub proof fn lemma_refresh_advances(own: u128, stored: u128, created: u128, now: u128)
    requires
        own < u128::MAX,
        stored < u128::MAX,
    ensures
        refreshed_timestamp(later_of(own, stored), created, now) > own,
        refreshed_timestamp(later_of(own, stored), created, now) > stored,
        refreshed_timestamp(later_of(own, stored), created, now) >= created,
{
}

/// When one record of a session does not parse and the others do, the walk gives an error
/// for that record alone and every other record's branch.
pub proof fn lemma_corrupt_record_isolated(t: TreeView, k: int)
    requires
        0 <= k < t.branches.len(),
        parse_branch(t.branches[k]) is None,
        forall|i: int| 0 <= i < t.branches.len() && i != k ==> (#[trigger] parse_branch(
            t.branches[i],
        )) is Some,
    ensures
        walk(t).len() == t.branches.len(),
        walk(t)[k] == Err::<BranchView, ReadError>(ReadError::Parse),
        forall|i: int|
            0 <= i < t.branches.len() && i != k ==> #[trigger] walk(t)[i] == Ok::<
                BranchView,
                ReadError,
            >(parse_branch(t.branches[i]).unwrap()),
{
}

/// Writing the default target twice leaves one target, the one written last.
pub proof fn lemma_target_last_write_wins(t: TreeView, a: TargetView, b: TargetView)
    requires
        b.wf(),
    ensures
        read_target(tree_put_target(tree_put_target(t, target_record(a)), target_record(b)))
            == Ok::<TargetView, ReadError>(b),
{
    lemma_target_round_trip(b);
}


} // verus!
