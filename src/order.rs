use vstd::prelude::*;

verus! {

/// `a` and `b` agree before position `i`, and there `a` ends first or has the smaller byte.
pub open spec fn lt_at(a: Seq<u8>, b: Seq<u8>, i: int) -> bool {
    &&& 0 <= i <= a.len()
    &&& i <= b.len()
    &&& forall|k: int| 0 <= k < i ==> a[k] == b[k]
    &&& ((i == a.len() && i < b.len()) || (i < a.len() && i < b.len() && a[i] < b[i]))
}

/// Lexical order on byte strings: a proper prefix comes first.
pub open spec fn lex_lt(a: Seq<u8>, b: Seq<u8>) -> bool {
    exists|i: int| lt_at(a, b, i)
}

/// No byte string comes before itself, and of two strings at most one comes first.
pub proof fn lemma_lex_asymmetric(a: Seq<u8>, b: Seq<u8>)
    ensures
        !(lex_lt(a, b) && lex_lt(b, a)),
        !lex_lt(a, a),
{
    if lex_lt(a, b) && lex_lt(b, a) {
        let i = choose|i: int| lt_at(a, b, i);
        let j = choose|j: int| lt_at(b, a, j);
        if i < j {
            assert(a[i] == b[i]);
        } else if j < i {
            assert(a[j] == b[j]);
        }
    }
}

/// Lexical order is transitive.
pub proof fn lemma_lex_transitive(a: Seq<u8>, b: Seq<u8>, c: Seq<u8>)
    requires
        lex_lt(a, b),
        lex_lt(b, c),
    ensures
        lex_lt(a, c),
{
    let i = choose|i: int| lt_at(a, b, i);
    let j = choose|j: int| lt_at(b, c, j);
    if i < j {
        assert(lt_at(a, c, i));
    } else if j < i {
        assert(a[j] == b[j]);
        assert(lt_at(a, c, j));
    } else {
        assert(lt_at(a, c, i));
    }
}

proof fn lemma_lex_total_from(a: Seq<u8>, b: Seq<u8>, k: int)
    requires
        0 <= k <= a.len(),
        k <= b.len(),
        forall|m: int| 0 <= m < k ==> a[m] == b[m],
    ensures
        a == b || lex_lt(a, b) || lex_lt(b, a),
    decreases a.len() - k,
{
    if k == a.len() && k == b.len() {
        assert(a =~= b);
    } else if k == a.len() {
        assert(lt_at(a, b, k));
    } else if k == b.len() {
        assert(lt_at(b, a, k));
    } else if a[k] < b[k] {
        assert(lt_at(a, b, k));
    } else if b[k] < a[k] {
        assert(lt_at(b, a, k));
    } else {
        lemma_lex_total_from(a, b, k + 1);
    }
}

/// Of two different byte strings, one comes first.
pub proof fn lemma_lex_total(a: Seq<u8>, b: Seq<u8>)
    ensures
        a == b || lex_lt(a, b) || lex_lt(b, a),
{
    lemma_lex_total_from(a, b, 0);
}

/// Compares two byte strings: negative, zero or positive as `a` comes before, equals or
/// comes after `b`.
pub fn compare_bytes(a: &[u8], b: &[u8]) -> (r: i8)
    ensures
        r < 0 <==> lex_lt(a@, b@),
        r == 0 <==> a@ == b@,
        r > 0 <==> lex_lt(b@, a@),
{
    let la = a.len();
    let lb = b.len();
    let mut i: usize = 0;
    while i < la && i < lb
        invariant
            la == a@.len(),
            lb == b@.len(),
            i <= la,
            i <= lb,
            forall|k: int| 0 <= k < i ==> a@[k] == b@[k],
        decreases la - i,
    {
        if a[i] != b[i] {
            proof {
                lemma_lex_asymmetric(a@, b@);
            }
            if a[i] < b[i] {
                assert(lt_at(a@, b@, i as int));
                return -1;
            } else {
                assert(lt_at(b@, a@, i as int));
                return 1;
            }
        }
        i = i + 1;
    }
    proof {
        lemma_lex_asymmetric(a@, b@);
    }
    if la < lb {
        assert(lt_at(a@, b@, i as int));
        -1
    } else if lb < la {
        assert(lt_at(b@, a@, i as int));
        1
    } else {
        assert(a@ =~= b@);
        0
    }
}

} // verus!
