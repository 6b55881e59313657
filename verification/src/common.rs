use vstd::prelude::*;

verus! {

/// True when no value occurs twice in the sequence.
pub open spec fn no_dups(s: Seq<u64>) -> bool {
    forall|i: int, j: int| 0 <= i < j < s.len() ==> s[i] != s[j]
}

/// Lexicographic order on pairs of numbers: `(a0, a1)` comes no later than
/// `(b0, b1)`.
pub open spec fn pair_before_eq(a0: u64, a1: u64, b0: u64, b1: u64) -> bool {
    a0 < b0 || (a0 == b0 && a1 <= b1)
}

/// The sequence with every occurrence of one value removed.
pub open spec fn ids_without(s: Seq<u64>, x: u64) -> Seq<u64> {
    s.filter(|y: u64| y != x)
}

/// What removing one value keeps: exactly the other values, no more and no
/// fewer, and without introducing duplicates.
pub proof fn lemma_ids_without_props(s: Seq<u64>, x: u64)
    ensures
        forall|z: u64| #[trigger] ids_without(s, x).contains(z) <==> (s.contains(z) && z != x),
        no_dups(s) ==> no_dups(ids_without(s, x)),
    decreases s.len(),
{
    reveal(Seq::filter);
    let out = ids_without(s, x);
    if s.len() == 0 {
        assert forall|z: u64| #[trigger] out.contains(z) implies (s.contains(z) && z != x) by {}
    } else {
        let head = s.drop_last();
        let hout = ids_without(head, x);
        lemma_ids_without_props(head, x);
        assert(out == if s.last() != x {
            hout.push(s.last())
        } else {
            hout
        });
        assert(no_dups(s) ==> no_dups(head)) by {
            if no_dups(s) {
                assert forall|i: int, j: int| 0 <= i < j < head.len() implies head[i] != head[j] by {
                    assert(s[i] == head[i] && s[j] == head[j]);
                }
            }
        }
        assert forall|z: u64| #[trigger] out.contains(z) implies (s.contains(z) && z != x) by {
            if s.last() != x && z == s.last() {
                assert(s[s.len() - 1] == z);
            } else {
                assert(hout.contains(z)) by {
                    let i = choose|i: int| 0 <= i < out.len() && out[i] == z;
                    if s.last() != x {
                        assert(hout[i] == z);
                    }
                }
                let i = choose|i: int| 0 <= i < head.len() && head[i] == z;
                assert(s[i] == z);
            }
        }
        assert forall|z: u64| s.contains(z) && z != x implies #[trigger] out.contains(z) by {
            let i = choose|i: int| 0 <= i < s.len() && s[i] == z;
            if i < s.len() - 1 {
                assert(head[i] == z);
                assert(hout.contains(z));
                let j = choose|j: int| 0 <= j < hout.len() && hout[j] == z;
                assert(out[j] == z);
            } else {
                assert(out.last() == z);
            }
        }
        if no_dups(s) {
            assert(!head.contains(s.last())) by {
                if head.contains(s.last()) {
                    let i = choose|i: int| 0 <= i < head.len() && head[i] == s.last();
                    assert(s[i] == s[s.len() - 1]);
                }
            }
            assert forall|i: int, j: int| 0 <= i < j < out.len() implies out[i] != out[j] by {
                if s.last() != x {
                    if j == out.len() - 1 {
                        assert(out[j] == s.last());
                        assert(out[i] == hout[i]);
                        assert(hout.contains(hout[i]));
                    } else {
                        assert(out[i] == hout[i]);
                        assert(out[j] == hout[j]);
                    }
                }
            }
        }
    }
}

/// Filtering out a value that does not occur leaves the sequence as it was.
pub proof fn lemma_filter_absent_id(s: Seq<u64>, x: u64)
    requires
        !s.contains(x),
    ensures
        ids_without(s, x) == s,
    decreases s.len(),
{
    reveal(Seq::filter);
    if s.len() > 0 {
        let head = s.drop_last();
        assert(!head.contains(x)) by {
            if head.contains(x) {
                let i = choose|i: int| 0 <= i < head.len() && head[i] == x;
                assert(s[i] == x);
            }
        }
        lemma_filter_absent_id(head, x);
        assert(s.last() != x) by {
            assert(s[s.len() - 1] == s.last());
        }
        assert(ids_without(s, x) == ids_without(head, x).push(s.last()));
        assert(ids_without(s, x) =~= s);
    } else {
        assert(ids_without(s, x) =~= s);
    }
}

/// Appending a value that was absent and then removing it again restores the
/// sequence.
pub proof fn lemma_push_then_remove(s: Seq<u64>, x: u64)
    requires
        !s.contains(x),
    ensures
        ids_without(s.push(x), x) == s,
{
    reveal(Seq::filter);
    assert(s.push(x).drop_last() =~= s);
    assert(s.push(x).last() == x);
    lemma_filter_absent_id(s, x);
}

/// Copies a list of identifiers.
pub fn copy_ids(v: &Vec<u64>) -> (r: Vec<u64>)
    ensures
        r@ == v@,
{
    let mut r: Vec<u64> = Vec::new();
    let n = v.len();
    for i in 0..n
        invariant
            n == v.len(),
            r@ =~= v@.take(i as int),
    {
        r.push(v[i]);
        proof {
            assert(r@ =~= v@.take(i + 1));
        }
    }
    proof {
        assert(v@.take(n as int) =~= v@);
    }
    r
}

/// True exactly when the list holds the identifier.
pub fn contains_id(v: &Vec<u64>, x: u64) -> (r: bool)
    ensures
        r == v@.contains(x),
{
    let n = v.len();
    for i in 0..n
        invariant
            n == v.len(),
            forall|k: int| 0 <= k < i ==> v@[k] != x,
    {
        if v[i] == x {
            return true;
        }
    }
    false
}

/// Rebuilds the list with every occurrence of one identifier removed.
pub fn remove_id(v: &mut Vec<u64>, x: u64)
    ensures
        final(v)@ == ids_without(old(v)@, x),
{
    let mut out: Vec<u64> = Vec::new();
    let n = v.len();
    proof {
        reveal(Seq::filter);
        assert(v@.take(0) =~= Seq::<u64>::empty());
        assert(out@ =~= ids_without(v@.take(0), x));
    }
    for i in 0..n
        invariant
            n == v.len(),
            out@ =~= ids_without(v@.take(i as int), x),
    {
        if v[i] != x {
            out.push(v[i]);
        }
        proof {
            reveal(Seq::filter);
            assert(v@.take(i + 1).drop_last() =~= v@.take(i as int));
            assert(v@.take(i + 1).last() == v@[i as int]);
            assert(out@ =~= ids_without(v@.take(i + 1), x));
        }
    }
    proof {
        assert(v@.take(n as int) =~= v@);
    }
    *v = out;
}

} // verus!
