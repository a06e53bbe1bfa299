use vstd::prelude::*;
use vstd::relations::{sorted_by, total_ordering};
use crate::bytes::views;

verus! {

/// Byte-lexicographic "less than or equal" on byte strings: a proper prefix
/// comes first, otherwise the first differing byte decides.
pub open spec fn lex_leq(a: Seq<u8>, b: Seq<u8>) -> bool
    decreases a.len(),
{
    if a.len() == 0 {
        true
    } else if b.len() == 0 {
        false
    } else if a[0] < b[0] {
        true
    } else if a[0] > b[0] {
        false
    } else {
        lex_leq(a.drop_first(), b.drop_first())
    }
}

/// The order as a closure, as the sorting library expects it.
pub open spec fn lex_leq_f() -> spec_fn(Seq<u8>, Seq<u8>) -> bool {
    |a: Seq<u8>, b: Seq<u8>| lex_leq(a, b)
}

pub proof fn lemma_lex_refl(a: Seq<u8>)
    ensures
        lex_leq(a, a),
    decreases a.len(),
{
    if a.len() > 0 {
        lemma_lex_refl(a.drop_first());
    }
}

pub proof fn lemma_lex_antisym(a: Seq<u8>, b: Seq<u8>)
    requires
        lex_leq(a, b),
        lex_leq(b, a),
    ensures
        a == b,
    decreases a.len(),
{
    if a.len() == 0 {
        assert(b.len() == 0);
        assert(a =~= b);
    } else {
        lemma_lex_antisym(a.drop_first(), b.drop_first());
        assert(a =~= seq![a[0]] + a.drop_first());
        assert(b =~= seq![b[0]] + b.drop_first());
    }
}

pub proof fn lemma_lex_trans(a: Seq<u8>, b: Seq<u8>, c: Seq<u8>)
    requires
        lex_leq(a, b),
        lex_leq(b, c),
    ensures
        lex_leq(a, c),
    decreases a.len(),
{
    if a.len() == 0 {
    } else {
        if a[0] == b[0] && b[0] == c[0] {
            lemma_lex_trans(a.drop_first(), b.drop_first(), c.drop_first());
        }
    }
}

pub proof fn lemma_lex_connected(a: Seq<u8>, b: Seq<u8>)
    ensures
        lex_leq(a, b) || lex_leq(b, a),
    decreases a.len(),
{
    if a.len() > 0 && b.len() > 0 && a[0] == b[0] {
        lemma_lex_connected(a.drop_first(), b.drop_first());
    }
}

/// The byte-lexicographic order is a total order.
pub proof fn lemma_lex_total_ordering()
    ensures
        total_ordering(lex_leq_f()),
{
    let leq = lex_leq_f();
    assert forall|a: Seq<u8>| #[trigger] leq(a, a) by {
        lemma_lex_refl(a);
    }
    assert forall|a: Seq<u8>, b: Seq<u8>| #[trigger] leq(a, b) && #[trigger] leq(b, a)
        implies a == b by {
        lemma_lex_antisym(a, b);
    }
    assert forall|a: Seq<u8>, b: Seq<u8>, c: Seq<u8>|
        #[trigger] leq(a, b) && #[trigger] leq(b, c) implies leq(a, c) by {
        lemma_lex_trans(a, b, c);
    }
    assert forall|a: Seq<u8>, b: Seq<u8>| #[trigger] leq(a, b) || #[trigger] leq(b, a) by {
        lemma_lex_connected(a, b);
    }
}

/// Decide `lex_leq` on byte vectors.
pub fn le_bytes(a: &Vec<u8>, b: &Vec<u8>) -> (r: bool)
    ensures
        r == lex_leq(a@, b@),
{
    let mut i: usize = 0;
    proof {
        assert(a@.skip(0) =~= a@);
        assert(b@.skip(0) =~= b@);
    }
    loop
        invariant
            i <= a@.len(),
            i <= b@.len(),
            forall|k: int| 0 <= k < i ==> a@[k] == b@[k],
            lex_leq(a@, b@) == lex_leq(a@.skip(i as int), b@.skip(i as int)),
        decreases a@.len() - i,
    {
        if i == a.len() {
            assert(a@.skip(i as int).len() == 0);
            return true;
        }
        if i == b.len() {
            assert(b@.skip(i as int).len() == 0);
            assert(a@.skip(i as int).len() > 0);
            return false;
        }
        let x = a[i];
        let y = b[i];
        assert(a@.skip(i as int)[0] == a@[i as int]);
        assert(b@.skip(i as int)[0] == b@[i as int]);
        if x < y {
            return true;
        }
        if x > y {
            return false;
        }
        proof {
            assert(a@.skip(i as int).drop_first() =~= a@.skip(i + 1));
            assert(b@.skip(i as int).drop_first() =~= b@.skip(i + 1));
        }
        i = i + 1;
    }
}

/// Position of the first element that is not at or below `x`; the length if
/// every element is.
fn find_pos(out: &Vec<Vec<u8>>, x: &Vec<u8>) -> (p: usize)
    ensures
        p <= out@.len(),
        forall|k: int| 0 <= k < p ==> lex_leq(#[trigger] views(out@)[k], x@),
        p < out@.len() ==> !lex_leq(views(out@)[p as int], x@),
{
    let mut p: usize = 0;
    while p < out.len()
        invariant
            p <= out@.len(),
            forall|k: int| 0 <= k < p ==> lex_leq(#[trigger] views(out@)[k], x@),
        decreases out@.len() - p,
    {
        proof {
            assert(views(out@)[p as int] == out@[p as int]@);
        }
        if !le_bytes(&out[p], x) {
            return p;
        }
        p = p + 1;
    }
    p
}

/// Insert one byte string into a vector kept in ascending order.
fn sorted_insert(out: &mut Vec<Vec<u8>>, x: Vec<u8>)
    requires
        sorted_by(views(old(out)@), lex_leq_f()),
    ensures
        sorted_by(views(final(out)@), lex_leq_f()),
        views(final(out)@).to_multiset() == views(old(out)@).to_multiset().insert(x@),
{
    proof {
        lemma_lex_total_ordering();
    }
    let ghost xv = x@;
    let p = find_pos(&*out, &x);
    let ghost pre = out@;
    proof {
        if p < pre.len() {
            lemma_lex_connected(views(pre)[p as int], xv);
        }
        assert(p < pre.len() ==> lex_leq(xv, views(pre)[p as int]));
    }
    out.insert(p, x);
    proof {
        let leq = lex_leq_f();
        let vs0 = views(pre);
        let vs1 = views(out@);
        assert(out@ == pre.insert(p as int, x));
        pre.insert_ensures(p as int, x);
        assert(vs1.len() == vs0.len() + 1);
        assert(vs1[p as int] == xv);
        assert(forall|i: int| 0 <= i < p ==> vs1[i] == vs0[i]);
        assert(forall|i: int|
            p < i < vs1.len() ==> {
                &&& pre.insert(p as int, x)[i] == pre[i - 1]
                &&& vs1[i] == vs0[i - 1]
            });
        assert forall|i: int, j: int| 0 <= i < j < vs1.len() implies #[trigger] leq(
            vs1[i],
            vs1[j],
        ) by {
            if i == p {
                // vs1[i] is x; every later element was at least x before
                assert(vs1[j] == vs0[j - 1]);
                if j - 1 == p {
                    assert(lex_leq(xv, vs0[j - 1]));
                } else {
                    assert(leq(vs0[p as int], vs0[j - 1]));
                    lemma_lex_trans(xv, vs0[p as int], vs0[j - 1]);
                }
            } else if j == p {
                assert(vs1[i] == vs0[i]);
                assert(lex_leq(vs0[i], xv));
            } else if i < p && j > p {
                assert(vs1[i] == vs0[i]);
                assert(vs1[j] == vs0[j - 1]);
                if i == j - 1 {
                    lemma_lex_refl(vs0[i]);
                } else {
                    assert(leq(vs0[i], vs0[j - 1]));
                }
            } else if j < p {
                assert(leq(vs0[i], vs0[j]));
            } else {
                assert(i > p);
                assert(leq(vs0[i - 1], vs0[j - 1]));
            }
        }
        // multiset: views of an insert is an insert of views
        assert(vs1 =~= vs0.take(p as int).push(xv) + vs0.skip(p as int));
        assert(vs0 =~= vs0.take(p as int) + vs0.skip(p as int));
        vstd::seq_lib::lemma_multiset_commutative(vs0.take(p as int).push(xv), vs0.skip(p as int));
        vstd::seq_lib::lemma_multiset_commutative(vs0.take(p as int), vs0.skip(p as int));
        vs0.take(p as int).to_multiset_ensures();
        assert(vs0.take(p as int).push(xv).to_multiset() == vs0.take(
            p as int,
        ).to_multiset().insert(xv));
        assert(vs1.to_multiset() =~= vs0.to_multiset().insert(xv));
    }
}

/// Sort byte strings into ascending byte-lexicographic order.
pub fn sort_stmts(input: Vec<Vec<u8>>) -> (r: Vec<Vec<u8>>)
    ensures
        views(r@) == views(input@).sort_by(lex_leq_f()),
        r@.len() == input@.len(),
{
    let ghost all = views(input@);
    let mut src = input;
    let mut out: Vec<Vec<u8>> = Vec::new();
    proof {
        views(out@).to_multiset_ensures();
        assert(views(out@) =~= Seq::<Seq<u8>>::empty());
    }
    while src.len() > 0
        invariant
            sorted_by(views(out@), lex_leq_f()),
            views(src@).to_multiset().add(views(out@).to_multiset()) == all.to_multiset(),
        decreases src@.len(),
    {
        let ghost srcv = views(src@);
        let x = src.pop().unwrap();
        proof {
            assert(srcv =~= views(src@).push(x@));
            views(src@).to_multiset_ensures();
            assert(srcv.to_multiset() == views(src@).to_multiset().insert(x@));
        }
        let ghost outv = views(out@);
        sorted_insert(&mut out, x);
        proof {
            broadcast use vstd::multiset::group_multiset_axioms;

            assert(views(src@).to_multiset().add(views(out@).to_multiset()) =~= srcv.to_multiset()
                .add(outv.to_multiset()));
        }
    }
    proof {
        broadcast use vstd::multiset::group_multiset_axioms;

        assert(views(src@) =~= Seq::<Seq<u8>>::empty());
        views(src@).to_multiset_ensures();
        assert(views(out@).to_multiset() =~= all.to_multiset());
        lemma_lex_total_ordering();
        all.lemma_sort_by_ensures(lex_leq_f());
        vstd::seq_lib::lemma_sorted_unique(views(out@), all.sort_by(lex_leq_f()), lex_leq_f());
        views(out@).to_multiset_ensures();
        all.to_multiset_ensures();
    }
    out
}

} // verus!
