use vstd::prelude::*;
use vstd::relations::sorted_by;
use crate::bytes::{views, dec_digits, int_bytes, json_escape, ptr_escape, push_bytes,
    push_digits, push_int, push_json_escaped, push_ptr_escaped};
use crate::doc::{Value, leaf_count, leaf_count_list, leaf_count_entries, size, size_list,
    size_entries, lemma_size_list_elem, lemma_size_entries_elem};
use crate::order::{lex_leq_f, lemma_lex_total_ordering, sort_stmts};

verus! {

/// Path segment for an object key: `/` followed by the escaped key.
pub open spec fn key_seg(k: Seq<u8>) -> Seq<u8> {
    seq![0x2fu8] + ptr_escape(k)
}

/// Path segment for an array index: `/` followed by the decimal index.
pub open spec fn idx_seg(i: int) -> Seq<u8> {
    seq![0x2fu8] + dec_digits(i as nat)
}

/// Canonical serialization of a leaf value: scalars as JSON scalars, an
/// empty array as `[]`, an empty object as `{}`.
pub open spec fn scalar_bytes(v: Value) -> Seq<u8> {
    match v {
        Value::Null => seq![0x6eu8, 0x75u8, 0x6cu8, 0x6cu8],
        Value::Bool(b) => if b {
            seq![0x74u8, 0x72u8, 0x75u8, 0x65u8]
        } else {
            seq![0x66u8, 0x61u8, 0x6cu8, 0x73u8, 0x65u8]
        },
        Value::Int(i) => int_bytes(i as int),
        Value::UInt(u) => dec_digits(u as nat),
        Value::Decimal(b) => b@,
        Value::Str(s) => seq![0x22u8] + json_escape(s@) + seq![0x22u8],
        Value::Array(_) => seq![0x5bu8, 0x5du8],
        Value::Object(_) => seq![0x7bu8, 0x7du8],
    }
}

/// One statement: the single-entry object `{"<path>":<value>}`.
pub open spec fn stmt_bytes(path: Seq<u8>, v: Value) -> Seq<u8> {
    seq![0x7bu8, 0x22u8] + json_escape(path) + seq![0x22u8, 0x3au8] + scalar_bytes(v) + seq![0x7du8]
}

/// The statements of a document below a path prefix, one per leaf, in
/// traversal order.
pub open spec fn raw_stmts(v: Value, path: Seq<u8>) -> Seq<Seq<u8>>
    decreases v,
{
    match v {
        Value::Array(vs) => if vs@.len() == 0 {
            seq![stmt_bytes(path, v)]
        } else {
            raw_stmts_list(vs@, path, 0)
        },
        Value::Object(es) => if es@.len() == 0 {
            seq![stmt_bytes(path, v)]
        } else {
            raw_stmts_entries(es@, path)
        },
        _ => seq![stmt_bytes(path, v)],
    }
}

/// Statements of array elements, the first element carrying index `i`.
pub open spec fn raw_stmts_list(vs: Seq<Value>, path: Seq<u8>, i: int) -> Seq<Seq<u8>>
    decreases vs,
{
    if vs.len() == 0 {
        Seq::empty()
    } else {
        raw_stmts(vs[0], path + idx_seg(i)) + raw_stmts_list(vs.drop_first(), path, i + 1)
    }
}

/// Statements of object entries, in entry order.
pub open spec fn raw_stmts_entries(es: Seq<(Vec<u8>, Value)>, path: Seq<u8>) -> Seq<Seq<u8>>
    decreases es,
{
    if es.len() == 0 {
        Seq::empty()
    } else {
        raw_stmts(es[0].1, path + key_seg(es[0].0@)) + raw_stmts_entries(es.drop_first(), path)
    }
}

/// The canonical form of a document: its statements in ascending
/// byte-lexicographic order.
pub open spec fn canon_spec(v: Value) -> Seq<Seq<u8>> {
    raw_stmts(v, Seq::empty()).sort_by(lex_leq_f())
}

/// There is one statement per leaf.
pub proof fn lemma_raw_stmts_len(v: Value, path: Seq<u8>)
    ensures
        raw_stmts(v, path).len() == leaf_count(v),
    decreases v,
{
    match v {
        Value::Array(vs) => {
            if vs@.len() > 0 {
                lemma_raw_stmts_list_len(vs@, path, 0);
            }
        },
        Value::Object(es) => {
            if es@.len() > 0 {
                lemma_raw_stmts_entries_len(es@, path);
            }
        },
        _ => {},
    }
}

proof fn lemma_raw_stmts_list_len(vs: Seq<Value>, path: Seq<u8>, i: int)
    ensures
        raw_stmts_list(vs, path, i).len() == leaf_count_list(vs),
    decreases vs,
{
    if vs.len() > 0 {
        lemma_raw_stmts_len(vs[0], path + idx_seg(i));
        lemma_raw_stmts_list_len(vs.drop_first(), path, i + 1);
    }
}

proof fn lemma_raw_stmts_entries_len(es: Seq<(Vec<u8>, Value)>, path: Seq<u8>)
    ensures
        raw_stmts_entries(es, path).len() == leaf_count_entries(es),
    decreases es,
{
    if es.len() > 0 {
        lemma_raw_stmts_len(es[0].1, path + key_seg(es[0].0@));
        lemma_raw_stmts_entries_len(es.drop_first(), path);
    }
}

/// Splitting a run of array elements splits their statements.
pub proof fn lemma_raw_stmts_list_concat(xs: Seq<Value>, ys: Seq<Value>, path: Seq<u8>, i: int)
    ensures
        raw_stmts_list(xs + ys, path, i) == raw_stmts_list(xs, path, i) + raw_stmts_list(
            ys,
            path,
            i + xs.len(),
        ),
    decreases xs,
{
    if xs.len() == 0 {
        assert(xs + ys =~= ys);
        assert(raw_stmts_list(xs, path, i) + raw_stmts_list(ys, path, i) =~= raw_stmts_list(
            ys,
            path,
            i,
        ));
    } else {
        assert((xs + ys)[0] == xs[0]);
        assert((xs + ys).drop_first() =~= xs.drop_first() + ys);
        lemma_raw_stmts_list_concat(xs.drop_first(), ys, path, i + 1);
        assert(raw_stmts(xs[0], path + idx_seg(i)) + (raw_stmts_list(xs.drop_first(), path, i + 1)
            + raw_stmts_list(ys, path, i + xs.len())) =~= (raw_stmts(xs[0], path + idx_seg(i))
            + raw_stmts_list(xs.drop_first(), path, i + 1)) + raw_stmts_list(
            ys,
            path,
            i + xs.len(),
        ));
    }
}

/// Splitting a run of object entries splits their statements.
pub proof fn lemma_raw_stmts_entries_concat(
    xs: Seq<(Vec<u8>, Value)>,
    ys: Seq<(Vec<u8>, Value)>,
    path: Seq<u8>,
)
    ensures
        raw_stmts_entries(xs + ys, path) == raw_stmts_entries(xs, path) + raw_stmts_entries(
            ys,
            path,
        ),
    decreases xs,
{
    if xs.len() == 0 {
        assert(xs + ys =~= ys);
        assert(raw_stmts_entries(xs, path) + raw_stmts_entries(ys, path) =~= raw_stmts_entries(
            ys,
            path,
        ));
    } else {
        assert((xs + ys)[0] == xs[0]);
        assert((xs + ys).drop_first() =~= xs.drop_first() + ys);
        lemma_raw_stmts_entries_concat(xs.drop_first(), ys, path);
        assert(raw_stmts(xs[0].1, path + key_seg(xs[0].0@)) + (raw_stmts_entries(
            xs.drop_first(),
            path,
        ) + raw_stmts_entries(ys, path)) =~= (raw_stmts(xs[0].1, path + key_seg(xs[0].0@))
            + raw_stmts_entries(xs.drop_first(), path)) + raw_stmts_entries(ys, path));
    }
}

/// Copy a byte vector.
fn copy_bytes(src: &Vec<u8>) -> (r: Vec<u8>)
    ensures
        r@ == src@,
{
    let mut r: Vec<u8> = Vec::new();
    let mut i: usize = 0;
    while i < src.len()
        invariant
            i <= src@.len(),
            r@ == src@.take(i as int),
        decreases src@.len() - i,
    {
        r.push(src[i]);
        proof {
            assert(r@ =~= src@.take(i + 1));
        }
        i = i + 1;
    }
    proof {
        assert(src@.take(i as int) =~= src@);
    }
    r
}

/// Build the statement for one leaf.
fn build_stmt(path: &Vec<u8>, v: &Value) -> (r: Vec<u8>)
    requires
        v.is_leaf(),
    ensures
        r@ == stmt_bytes(path@, *v),
{
    let mut r: Vec<u8> = Vec::new();
    r.push(0x7b);
    r.push(0x22);
    push_json_escaped(path, &mut r);
    r.push(0x22);
    r.push(0x3a);
    match v {
        Value::Null => {
            r.push(0x6e);
            r.push(0x75);
            r.push(0x6c);
            r.push(0x6c);
        },
        Value::Bool(b) => {
            if *b {
                r.push(0x74);
                r.push(0x72);
                r.push(0x75);
                r.push(0x65);
            } else {
                r.push(0x66);
                r.push(0x61);
                r.push(0x6c);
                r.push(0x73);
                r.push(0x65);
            }
        },
        Value::Int(i) => {
            push_int(*i, &mut r);
        },
        Value::UInt(u) => {
            push_digits(*u, &mut r);
        },
        Value::Decimal(b) => {
            push_bytes(b, &mut r);
        },
        Value::Str(s) => {
            r.push(0x22);
            push_json_escaped(s, &mut r);
            r.push(0x22);
        },
        Value::Array(_) => {
            r.push(0x5b);
            r.push(0x5d);
        },
        Value::Object(_) => {
            r.push(0x7b);
            r.push(0x7d);
        },
    }
    r.push(0x7d);
    proof {
        assert(r@ =~= stmt_bytes(path@, *v));
    }
    r
}

/// Append the statements of `v` below `path` to `out`, in traversal order.
#[verifier::loop_isolation(false)]
fn flatten(v: &Value, path: &Vec<u8>, out: &mut Vec<Vec<u8>>)
    ensures
        views(final(out)@) == views(old(out)@) + raw_stmts(*v, path@),
    decreases size(*v),
{
    let ghost orig = views(out@);
    match v {
        Value::Array(vs) => {
            if vs.len() == 0 {
                let st = build_stmt(path, v);
                out.push(st);
                proof {
                    assert(views(out@) =~= orig + raw_stmts(*v, path@));
                }
            } else {
                let mut i: usize = 0;
                while i < vs.len()
                    invariant
                        i <= vs@.len(),
                        views(out@) == orig + raw_stmts_list(vs@.take(i as int), path@, 0),
                    decreases vs@.len() - i,
                {
                    let mut cp = copy_bytes(path);
                    cp.push(0x2f);
                    push_digits(i as u64, &mut cp);
                    proof {
                        assert(cp@ =~= path@ + idx_seg(i as int));
                    }
                    proof {
                        lemma_size_list_elem(vs@, i as int);
                        assert(size(*v) == 1 + size_list(vs@));
                        assert(size(vs@[i as int]) < size(*v));
                    }
                    flatten(&vs[i], &cp, out);
                    proof {
                        assert(vs@.take(i + 1) =~= vs@.take(i as int) + seq![vs@[i as int]]);
                        lemma_raw_stmts_list_concat(
                            vs@.take(i as int),
                            seq![vs@[i as int]],
                            path@,
                            0,
                        );
                        assert(seq![vs@[i as int]].drop_first() =~= Seq::<Value>::empty());
                        assert(seq![vs@[i as int]][0] == vs@[i as int]);
                        reveal_with_fuel(raw_stmts_list, 2);
                        assert(raw_stmts_list(seq![vs@[i as int]], path@, i as int) =~= raw_stmts(
                            vs@[i as int],
                            path@ + idx_seg(i as int),
                        ) + Seq::<Seq<u8>>::empty());
                        assert(raw_stmts(vs@[i as int], path@ + idx_seg(i as int)) + Seq::<
                            Seq<u8>,
                        >::empty() =~= raw_stmts(vs@[i as int], path@ + idx_seg(i as int)));
                        assert(views(out@) =~= orig + raw_stmts_list(vs@.take(i + 1), path@, 0));
                    }
                    i = i + 1;
                }
                proof {
                    assert(vs@.take(i as int) =~= vs@);
                }
            }
        },
        Value::Object(es) => {
            if es.len() == 0 {
                let st = build_stmt(path, v);
                out.push(st);
                proof {
                    assert(views(out@) =~= orig + raw_stmts(*v, path@));
                }
            } else {
                let mut i: usize = 0;
                while i < es.len()
                    invariant
                        i <= es@.len(),
                        views(out@) == orig + raw_stmts_entries(es@.take(i as int), path@),
                    decreases es@.len() - i,
                {
                    let mut cp = copy_bytes(path);
                    cp.push(0x2f);
                    push_ptr_escaped(&es[i].0, &mut cp);
                    proof {
                        assert(cp@ =~= path@ + key_seg(es@[i as int].0@));
                    }
                    proof {
                        lemma_size_entries_elem(es@, i as int);
                        assert(size(*v) == 1 + size_entries(es@));
                        assert(size(es@[i as int].1) < size(*v));
                    }
                    flatten(&es[i].1, &cp, out);
                    proof {
                        assert(es@.take(i + 1) =~= es@.take(i as int) + seq![es@[i as int]]);
                        lemma_raw_stmts_entries_concat(
                            es@.take(i as int),
                            seq![es@[i as int]],
                            path@,
                        );
                        assert(seq![es@[i as int]].drop_first() =~= Seq::<
                            (Vec<u8>, Value),
                        >::empty());
                        assert(seq![es@[i as int]][0] == es@[i as int]);
                        reveal_with_fuel(raw_stmts_entries, 2);
                        assert(raw_stmts_entries(seq![es@[i as int]], path@) =~= raw_stmts(
                            es@[i as int].1,
                            path@ + key_seg(es@[i as int].0@),
                        ) + Seq::<Seq<u8>>::empty());
                        assert(raw_stmts(es@[i as int].1, path@ + key_seg(es@[i as int].0@)) + Seq::<
                            Seq<u8>,
                        >::empty() =~= raw_stmts(es@[i as int].1, path@ + key_seg(es@[i as int].0@)));
                        assert(views(out@) =~= orig + raw_stmts_entries(es@.take(i + 1), path@));
                    }
                    i = i + 1;
                }
                proof {
                    assert(es@.take(i as int) =~= es@);
                }
            }
        },
        _ => {
            let st = build_stmt(path, v);
            out.push(st);
            proof {
                assert(views(out@) =~= orig + raw_stmts(*v, path@));
            }
        },
    }
}

/// Canonicalize a document: one statement per leaf, each a single-entry
/// JSON object mapping the leaf's pointer path to its value, the whole
/// sequence sorted in ascending byte-lexicographic order.
pub fn normalize(document: &Value) -> (r: Vec<Vec<u8>>)
    ensures
        views(r@) == canon_spec(*document),
        r@.len() == leaf_count(*document),
        sorted_by(views(r@), lex_leq_f()),
{
    let path: Vec<u8> = Vec::new();
    let mut raw: Vec<Vec<u8>> = Vec::new();
    flatten(document, &path, &mut raw);
    proof {
        assert(views(raw@) =~= raw_stmts(*document, Seq::empty()));
        lemma_raw_stmts_len(*document, Seq::empty());
        lemma_lex_total_ordering();
        views(raw@).lemma_sort_by_ensures(lex_leq_f());
        views(raw@).to_multiset_ensures();
        canon_spec(*document).to_multiset_ensures();
    }
    let r = sort_stmts(raw);
    r
}

/// The canonical form is a function of the document alone: any two results
/// for the same document are the same sequence.
pub proof fn lemma_canon_deterministic(d: Value, r1: Seq<Seq<u8>>, r2: Seq<Seq<u8>>)
    requires
        r1 == canon_spec(d),
        r2 == canon_spec(d),
    ensures
        r1 == r2,
{
}

} // verus!
