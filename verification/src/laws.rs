use vstd::prelude::*;
use vstd::seq_lib::{lemma_multiset_commutative, lemma_sorted_unique};
use crate::canon::{canon_spec, idx_seg, key_seg, raw_stmts, raw_stmts_entries, raw_stmts_list};
use crate::doc::{equiv, keys_distinct, lemma_size_pos, size, size_entries, size_list, wf, Value};
use crate::order::{lemma_lex_total_ordering, lex_leq_f};

verus! {

/// Removing one entry takes exactly its statements out of the multiset.
proof fn lemma_entries_remove(fs: Seq<(Vec<u8>, Value)>, path: Seq<u8>, j: int)
    requires
        0 <= j < fs.len(),
    ensures
        raw_stmts_entries(fs, path).to_multiset() == raw_stmts(
            fs[j].1,
            path + key_seg(fs[j].0@),
        ).to_multiset().add(raw_stmts_entries(fs.remove(j), path).to_multiset()),
    decreases j,
{
    broadcast use vstd::multiset::group_multiset_axioms;

    if j == 0 {
        assert(fs.remove(0) =~= fs.drop_first());
        lemma_multiset_commutative(
            raw_stmts(fs[0].1, path + key_seg(fs[0].0@)),
            raw_stmts_entries(fs.drop_first(), path),
        );
    } else {
        let rest = fs.drop_first();
        let head = raw_stmts(fs[0].1, path + key_seg(fs[0].0@));
        lemma_entries_remove(rest, path, j - 1);
        assert(rest[j - 1] == fs[j]);
        let picked = raw_stmts(fs[j].1, path + key_seg(fs[j].0@));
        lemma_multiset_commutative(head, raw_stmts_entries(rest, path));
        assert(fs.remove(j).len() > 0);
        assert(fs.remove(j)[0] == fs[0]);
        assert(fs.remove(j).drop_first() =~= rest.remove(j - 1));
        lemma_multiset_commutative(head, raw_stmts_entries(rest.remove(j - 1), path));
        assert(raw_stmts_entries(fs.remove(j), path) == head + raw_stmts_entries(
            rest.remove(j - 1),
            path,
        ));
        assert(raw_stmts_entries(fs, path).to_multiset() =~= picked.to_multiset().add(
            raw_stmts_entries(fs.remove(j), path).to_multiset(),
        ));
    }
}

/// Equivalent documents contribute the same multiset of statements.
proof fn lemma_equiv_multiset(a: Value, b: Value, path: Seq<u8>)
    requires
        equiv(a, b),
        wf(a),
        wf(b),
    ensures
        raw_stmts(a, path).to_multiset() == raw_stmts(b, path).to_multiset(),
    decreases size(a), 0int,
{
    match (a, b) {
        (Value::Array(xs), Value::Array(ys)) => {
            if xs@.len() == 0 {
            } else {
                assert(size(a) == 1 + size_list(xs@));
                lemma_arr_equiv_multiset(xs@, ys@, path, 0);
            }
        },
        (Value::Object(es), Value::Object(fs)) => {
            if es@.len() == 0 {
            } else {
                assert(size(a) == 1 + size_entries(es@));
                lemma_obj_equiv_multiset(es@, fs@, path);
            }
        },
        _ => {},
    }
}

/// Pointwise equivalent element runs contribute the same multiset.
proof fn lemma_arr_equiv_multiset(xs: Seq<Value>, ys: Seq<Value>, path: Seq<u8>, k: int)
    requires
        xs.len() == ys.len(),
        forall|i: int| 0 <= i < xs.len() ==> equiv(#[trigger] xs[i], ys[i]),
        forall|i: int| 0 <= i < xs.len() ==> wf(#[trigger] xs[i]),
        forall|i: int| 0 <= i < ys.len() ==> wf(#[trigger] ys[i]),
    ensures
        raw_stmts_list(xs, path, k).to_multiset() == raw_stmts_list(ys, path, k).to_multiset(),
    decreases size_list(xs), 1int,
{
    broadcast use vstd::multiset::group_multiset_axioms;

    if xs.len() > 0 {
        lemma_size_pos(xs[0]);
        lemma_equiv_multiset(xs[0], ys[0], path + idx_seg(k));
        lemma_arr_equiv_multiset(xs.drop_first(), ys.drop_first(), path, k + 1);
        lemma_multiset_commutative(
            raw_stmts(xs[0], path + idx_seg(k)),
            raw_stmts_list(xs.drop_first(), path, k + 1),
        );
        lemma_multiset_commutative(
            raw_stmts(ys[0], path + idx_seg(k)),
            raw_stmts_list(ys.drop_first(), path, k + 1),
        );
        assert(raw_stmts_list(xs, path, k).to_multiset() =~= raw_stmts_list(
            ys,
            path,
            k,
        ).to_multiset());
    }
}

/// Entry runs with the same keys and equivalent values, in any order,
/// contribute the same multiset.
proof fn lemma_obj_equiv_multiset(
    es: Seq<(Vec<u8>, Value)>,
    fs: Seq<(Vec<u8>, Value)>,
    path: Seq<u8>,
)
    requires
        es.len() == fs.len(),
        keys_distinct(es),
        keys_distinct(fs),
        forall|i: int| 0 <= i < es.len() ==> wf((#[trigger] es[i]).1),
        forall|i: int| 0 <= i < fs.len() ==> wf((#[trigger] fs[i]).1),
        forall|i: int|
            0 <= i < es.len() ==> exists|j: int|
                0 <= j < fs.len() && (#[trigger] fs[j]).0@ == (#[trigger] es[i]).0@ && equiv(
                    es[i].1,
                    fs[j].1,
                ),
    ensures
        raw_stmts_entries(es, path).to_multiset() == raw_stmts_entries(fs, path).to_multiset(),
    decreases size_entries(es), 1int,
{
    broadcast use vstd::multiset::group_multiset_axioms;

    if es.len() == 0 {
    } else {
        let e0 = es[0];
        let seg = path + key_seg(e0.0@);
        let j = choose|j: int|
            0 <= j < fs.len() && (#[trigger] fs[j]).0@ == e0.0@ && equiv(e0.1, fs[j].1);
        lemma_size_pos(e0.1);
        lemma_equiv_multiset(e0.1, fs[j].1, seg);
        lemma_entries_remove(fs, path, j);
        let es1 = es.drop_first();
        let fs1 = fs.remove(j);
        assert(es1.len() == fs1.len());
        assert forall|i: int, k: int| 0 <= i < k < es1.len() implies es1[i].0@ != es1[k].0@ by {
            assert(es1[i] == es[i + 1]);
            assert(es1[k] == es[k + 1]);
        }
        fs.remove_ensures(j);
        assert forall|i: int, k: int| 0 <= i < k < fs1.len() implies fs1[i].0@ != fs1[k].0@ by {
            let i0 = if i < j { i } else { i + 1 };
            let k0 = if k < j { k } else { k + 1 };
            assert(fs1[i] == fs[i0]);
            assert(fs1[k] == fs[k0]);
        }
        assert forall|i: int| 0 <= i < es1.len() implies wf((#[trigger] es1[i]).1) by {
            assert(es1[i] == es[i + 1]);
        }
        assert forall|i: int| 0 <= i < fs1.len() implies wf((#[trigger] fs1[i]).1) by {
            let i0 = if i < j { i } else { i + 1 };
            assert(fs1[i] == fs[i0]);
        }
        assert forall|i: int| 0 <= i < es1.len() implies exists|jj: int|
            0 <= jj < fs1.len() && (#[trigger] fs1[jj]).0@ == (#[trigger] es1[i]).0@ && equiv(
                es1[i].1,
                fs1[jj].1,
            ) by {
            assert(es1[i] == es[i + 1]);
            let jp = choose|jp: int|
                0 <= jp < fs.len() && (#[trigger] fs[jp]).0@ == es[i + 1].0@ && equiv(
                    es[i + 1].1,
                    fs[jp].1,
                );
            // the first entry's key is gone from fs1, but this entry's key
            // differs from it, so its witness survives the removal
            assert(es[i + 1].0@ != es[0].0@);
            assert(fs[jp].0@ != fs[j].0@);
            assert(jp != j);
            if jp < j {
                assert(fs1[jp] == fs[jp]);
                assert(0 <= jp < fs1.len() && fs1[jp].0@ == es1[i].0@ && equiv(
                    es1[i].1,
                    fs1[jp].1,
                ));
            } else {
                assert(fs1[jp - 1] == fs[jp]);
                assert(0 <= jp - 1 < fs1.len() && fs1[jp - 1].0@ == es1[i].0@ && equiv(
                    es1[i].1,
                    fs1[jp - 1].1,
                ));
            }
        }
        lemma_obj_equiv_multiset(es1, fs1, path);
        lemma_multiset_commutative(raw_stmts(e0.1, seg), raw_stmts_entries(es1, path));
        assert(raw_stmts_entries(es, path).to_multiset() =~= raw_stmts_entries(
            fs,
            path,
        ).to_multiset());
    }
}

/// Order independence: two well-formed documents with the same logical
/// content, differing only in the order of their object entries, have the
/// same canonical form.
pub proof fn lemma_order_independence(d1: Value, d2: Value)
    requires
        wf(d1),
        wf(d2),
        equiv(d1, d2),
    ensures
        canon_spec(d1) == canon_spec(d2),
{
    lemma_equiv_multiset(d1, d2, Seq::empty());
    lemma_lex_total_ordering();
    raw_stmts(d1, Seq::empty()).lemma_sort_by_ensures(lex_leq_f());
    raw_stmts(d2, Seq::empty()).lemma_sort_by_ensures(lex_leq_f());
    lemma_sorted_unique(canon_spec(d1), canon_spec(d2), lex_leq_f());
}

} // verus!
