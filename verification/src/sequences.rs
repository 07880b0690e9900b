//! Sequence operations that describe what the layout operations do to the
//! left-to-right order of panels, with the facts the proofs need of them.
use vstd::prelude::*;

verus! {

/// `s` with every occurrence of `target` replaced by the sequence `r`.
pub open spec fn subst<A>(s: Seq<A>, target: A, r: Seq<A>) -> Seq<A>
    decreases s.len(),
{
    if s.len() == 0 {
        Seq::empty()
    } else {
        (if s[0] == target {
            r
        } else {
            seq![s[0]]
        }) + subst(s.drop_first(), target, r)
    }
}

/// `s` without the first occurrence of `x` (`s` itself when `x` does not occur).
pub open spec fn remove_first<A>(s: Seq<A>, x: A) -> Seq<A>
    decreases s.len(),
{
    if s.len() == 0 {
        s
    } else if s[0] == x {
        s.drop_first()
    } else {
        seq![s[0]] + remove_first(s.drop_first(), x)
    }
}

/// An element of a concatenation lies in one of its two parts.
pub proof fn lemma_concat_contains<A>(a: Seq<A>, b: Seq<A>, x: A)
    ensures
        (a + b).contains(x) <==> (a.contains(x) || b.contains(x)),
{
    if a.contains(x) {
        let i = choose|i: int| 0 <= i < a.len() && a[i] == x;
        assert((a + b)[i] == x);
    }
    if b.contains(x) {
        let i = choose|i: int| 0 <= i < b.len() && b[i] == x;
        assert((a + b)[a.len() + i] == x);
    }
    if (a + b).contains(x) {
        let i = choose|i: int| 0 <= i < (a + b).len() && (a + b)[i] == x;
        if i < a.len() {
            assert(a[i] == x);
        } else {
            assert(b[i - a.len()] == x);
        }
    }
}

/// A one-element sequence holds exactly its element.
pub proof fn lemma_single_contains<A>(a: A, x: A)
    ensures
        seq![a].contains(x) <==> a == x,
{
    assert(seq![a][0] == a);
}

/// A concatenation has no repeated element exactly when neither part has one
/// and the parts share no element.
pub proof fn lemma_concat_no_duplicates<A>(a: Seq<A>, b: Seq<A>)
    ensures
        (a + b).no_duplicates() <==> (a.no_duplicates() && b.no_duplicates() && (forall|x: A|
            a.contains(x) ==> !b.contains(x))),
{
    let c = a + b;
    if c.no_duplicates() {
        assert forall|i: int, j: int| 0 <= i < a.len() && 0 <= j < a.len() && i != j implies a[i]
            != a[j] by {
            assert(c[i] == a[i] && c[j] == a[j]);
        }
        assert forall|i: int, j: int| 0 <= i < b.len() && 0 <= j < b.len() && i != j implies b[i]
            != b[j] by {
            assert(c[a.len() + i] == b[i] && c[a.len() + j] == b[j]);
        }
        assert forall|x: A| a.contains(x) implies !b.contains(x) by {
            let i = choose|i: int| 0 <= i < a.len() && a[i] == x;
            if b.contains(x) {
                let j = choose|j: int| 0 <= j < b.len() && b[j] == x;
                assert(c[i] == c[a.len() + j]);
            }
        }
    }
    if a.no_duplicates() && b.no_duplicates() && (forall|x: A| a.contains(x) ==> !b.contains(x)) {
        assert forall|i: int, j: int| 0 <= i < c.len() && 0 <= j < c.len() && i != j implies c[i]
            != c[j] by {
            if i < a.len() && j >= a.len() {
                assert(a.contains(c[i]));
                assert(b[j - a.len()] == c[j]);
            } else if j < a.len() && i >= a.len() {
                assert(a.contains(c[j]));
                assert(b[i - a.len()] == c[i]);
            } else if i >= a.len() {
                assert(c[i] == b[i - a.len()] && c[j] == b[j - a.len()]);
            }
        }
    }
}

/// A sequence is its first element followed by the rest.
pub proof fn lemma_head_rest<A>(s: Seq<A>)
    requires
        s.len() > 0,
    ensures
        s =~= seq![s[0]] + s.drop_first(),
{
}

/// Replacing in a concatenation replaces in each part.
pub proof fn lemma_subst_concat<A>(a: Seq<A>, b: Seq<A>, target: A, r: Seq<A>)
    ensures
        subst(a + b, target, r) == subst(a, target, r) + subst(b, target, r),
    decreases a.len(),
{
    if a.len() == 0 {
        assert(a + b =~= b);
        assert(subst(a, target, r) =~= Seq::<A>::empty());
        assert(Seq::<A>::empty() + subst(b, target, r) =~= subst(b, target, r));
    } else {
        assert((a + b).drop_first() =~= a.drop_first() + b);
        assert((a + b)[0] == a[0]);
        lemma_subst_concat(a.drop_first(), b, target, r);
        let h = if a[0] == target {
            r
        } else {
            seq![a[0]]
        };
        assert(subst(a + b, target, r) == h + subst((a + b).drop_first(), target, r));
        assert(subst(a, target, r) == h + subst(a.drop_first(), target, r));
        assert(h + (subst(a.drop_first(), target, r) + subst(b, target, r)) =~= (h + subst(
            a.drop_first(),
            target,
            r,
        )) + subst(b, target, r));
    }
}

/// Replacing in a one-element sequence.
pub proof fn lemma_subst_single<A>(a: A, target: A, r: Seq<A>)
    ensures
        subst(seq![a], target, r) == if a == target {
            r
        } else {
            seq![a]
        },
{
    let s = seq![a];
    assert(s.drop_first() =~= Seq::<A>::empty());
    assert(subst(s.drop_first(), target, r) =~= Seq::<A>::empty());
    let h = if a == target {
        r
    } else {
        seq![a]
    };
    assert(h + Seq::<A>::empty() =~= h);
}

/// Replacing an element that does not occur changes nothing.
pub proof fn lemma_subst_absent<A>(s: Seq<A>, target: A, r: Seq<A>)
    requires
        !s.contains(target),
    ensures
        subst(s, target, r) == s,
    decreases s.len(),
{
    if s.len() > 0 {
        lemma_head_rest(s);
        lemma_concat_contains(seq![s[0]], s.drop_first(), target);
        assert(s.contains(s[0]));
        lemma_subst_absent(s.drop_first(), target, r);
    }
}

/// With distinct elements, replacing `target` found at position `k` puts
/// `r` in its place and keeps everything before and after.
pub proof fn lemma_subst_at<A>(s: Seq<A>, target: A, r: Seq<A>, k: int)
    requires
        s.no_duplicates(),
        0 <= k < s.len(),
        s[k] == target,
    ensures
        subst(s, target, r) == s.take(k) + r + s.skip(k + 1),
    decreases s.len(),
{
    let rest = s.drop_first();
    lemma_head_rest(s);
    lemma_concat_no_duplicates(seq![s[0]], rest);
    if k == 0 {
        lemma_single_contains(s[0], target);
        lemma_subst_absent(rest, target, r);
        assert(s.take(0) + r + s.skip(1) =~= r + rest);
    } else {
        assert(rest[k - 1] == target);
        lemma_subst_at(rest, target, r, k - 1);
        assert(s[0] != target) by {
            assert(s[0] == s[0] && s[k] == target);
        }
        assert(seq![s[0]] + (rest.take(k - 1) + r + rest.skip(k)) =~= s.take(k) + r + s.skip(
            k + 1,
        ));
    }
}

/// What a replacement holds: the old elements other than `target`, and the
/// elements of `r` when `target` occurred.
pub proof fn lemma_subst_contains<A>(s: Seq<A>, target: A, r: Seq<A>, y: A)
    ensures
        subst(s, target, r).contains(y) <==> ((s.contains(y) && y != target) || (s.contains(
            target,
        ) && r.contains(y))),
    decreases s.len(),
{
    if s.len() == 0 {
        assert(subst(s, target, r) =~= Seq::<A>::empty());
    } else {
        let rest = s.drop_first();
        lemma_subst_contains(rest, target, r, y);
        let h = if s[0] == target {
            r
        } else {
            seq![s[0]]
        };
        lemma_concat_contains(h, subst(rest, target, r), y);
        lemma_head_rest(s);
        lemma_concat_contains(seq![s[0]], rest, y);
        lemma_concat_contains(seq![s[0]], rest, target);
        lemma_single_contains(s[0], y);
        lemma_single_contains(s[0], target);
    }
}

/// Replacing the single occurrence of `target` by elements new to `s` keeps
/// the elements distinct.
pub proof fn lemma_subst_no_duplicates<A>(s: Seq<A>, target: A, r: Seq<A>)
    requires
        s.no_duplicates(),
        r.no_duplicates(),
        forall|y: A| r.contains(y) && y != target ==> !s.contains(y),
    ensures
        subst(s, target, r).no_duplicates(),
    decreases s.len(),
{
    if s.len() == 0 {
        assert(subst(s, target, r) =~= Seq::<A>::empty());
    } else {
        let rest = s.drop_first();
        lemma_head_rest(s);
        lemma_concat_no_duplicates(seq![s[0]], rest);
        assert forall|y: A| r.contains(y) && y != target implies !rest.contains(y) by {
            lemma_concat_contains(seq![s[0]], rest, y);
        }
        lemma_subst_no_duplicates(rest, target, r);
        let h = if s[0] == target {
            r
        } else {
            seq![s[0]]
        };
        assert forall|y: A| h.contains(y) implies !subst(rest, target, r).contains(y) by {
            lemma_subst_contains(rest, target, r, y);
            lemma_single_contains(s[0], y);
            lemma_single_contains(s[0], target);
            lemma_concat_contains(seq![s[0]], rest, y);
            if s[0] == target {
                assert(!rest.contains(target));
            }
        }
        assert(seq![s[0]].no_duplicates());
        lemma_concat_no_duplicates(h, subst(rest, target, r));
    }
}

/// Removing from a concatenation removes from the part that holds `x` first.
pub proof fn lemma_remove_first_concat<A>(a: Seq<A>, b: Seq<A>, x: A)
    ensures
        remove_first(a + b, x) == if a.contains(x) {
            remove_first(a, x) + b
        } else {
            a + remove_first(b, x)
        },
    decreases a.len(),
{
    if a.len() == 0 {
        assert(a + b =~= b);
    } else {
        assert((a + b).drop_first() =~= a.drop_first() + b);
        assert((a + b)[0] == a[0]);
        lemma_remove_first_concat(a.drop_first(), b, x);
        lemma_head_rest(a);
        lemma_concat_contains(seq![a[0]], a.drop_first(), x);
        lemma_single_contains(a[0], x);
        if a[0] == x {
        } else {
            let t = remove_first(a.drop_first() + b, x);
            if a.drop_first().contains(x) {
                assert(seq![a[0]] + (remove_first(a.drop_first(), x) + b) =~= (seq![a[0]]
                    + remove_first(a.drop_first(), x)) + b);
            } else {
                assert(seq![a[0]] + (a.drop_first() + remove_first(b, x)) =~= (seq![a[0]]
                    + a.drop_first()) + remove_first(b, x));
            }
        }
    }
}

/// Removing an element that does not occur changes nothing.
pub proof fn lemma_remove_first_absent<A>(s: Seq<A>, x: A)
    requires
        !s.contains(x),
    ensures
        remove_first(s, x) == s,
    decreases s.len(),
{
    if s.len() > 0 {
        lemma_head_rest(s);
        lemma_concat_contains(seq![s[0]], s.drop_first(), x);
        assert(s.contains(s[0]));
        lemma_remove_first_absent(s.drop_first(), x);
    }
}

/// Removing from a one-element sequence.
pub proof fn lemma_remove_first_single<A>(a: A, x: A)
    ensures
        remove_first(seq![a], x) == if a == x {
            Seq::<A>::empty()
        } else {
            seq![a]
        },
{
    let s = seq![a];
    assert(s.drop_first() =~= Seq::<A>::empty());
    if a != x {
        assert(remove_first(s.drop_first(), x) =~= Seq::<A>::empty());
        assert(seq![a] + Seq::<A>::empty() =~= seq![a]);
    }
}

/// What is left after a removal was there before; with distinct elements,
/// exactly `x` is gone.
pub proof fn lemma_remove_first_contains<A>(s: Seq<A>, x: A, y: A)
    ensures
        remove_first(s, x).contains(y) ==> s.contains(y),
        s.no_duplicates() ==> (remove_first(s, x).contains(y) <==> (s.contains(y) && y != x)),
    decreases s.len(),
{
    if s.len() > 0 {
        let rest = s.drop_first();
        lemma_head_rest(s);
        lemma_concat_contains(seq![s[0]], rest, y);
        lemma_concat_contains(seq![s[0]], rest, x);
        lemma_single_contains(s[0], y);
        lemma_remove_first_contains(rest, x, y);
        lemma_concat_no_duplicates(seq![s[0]], rest);
        if s[0] != x {
            lemma_concat_contains(seq![s[0]], remove_first(rest, x), y);
        }
    }
}

/// Removing keeps the elements distinct.
pub proof fn lemma_remove_first_no_duplicates<A>(s: Seq<A>, x: A)
    requires
        s.no_duplicates(),
    ensures
        remove_first(s, x).no_duplicates(),
    decreases s.len(),
{
    if s.len() > 0 {
        let rest = s.drop_first();
        lemma_head_rest(s);
        lemma_concat_no_duplicates(seq![s[0]], rest);
        lemma_remove_first_no_duplicates(rest, x);
        if s[0] != x {
            assert(seq![s[0]].no_duplicates());
            assert forall|y: A| seq![s[0]].contains(y) implies !remove_first(rest, x).contains(
                y,
            ) by {
                lemma_single_contains(s[0], y);
                lemma_remove_first_contains(rest, x, y);
            }
            lemma_concat_no_duplicates(seq![s[0]], remove_first(rest, x));
        }
    }
}

} // verus!
