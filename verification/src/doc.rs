use vstd::prelude::*;

verus! {

/// A document: a tree of objects, arrays and scalar values.
///
/// Object keys and string values are held as UTF-8 bytes, so that the
/// canonical serialization below is defined byte for byte.
pub enum Value {
    Null,
    Bool(bool),
    Int(i64),
    /// An unsigned number above the signed range.
    UInt(u64),
    /// A number carried in its rendered decimal form (such as a float),
    /// embedded in statements verbatim.
    Decimal(Vec<u8>),
    Str(Vec<u8>),
    Array(Vec<Value>),
    Object(Vec<(Vec<u8>, Value)>),
}

impl Value {
    /// A leaf is a scalar or an empty container: exactly the positions that
    /// contribute one statement each.
    pub open spec fn is_leaf(self) -> bool {
        match self {
            Value::Array(vs) => vs@.len() == 0,
            Value::Object(es) => es@.len() == 0,
            _ => true,
        }
    }
}

/// Number of leaves of a document.
pub open spec fn leaf_count(v: Value) -> nat
    decreases v,
{
    match v {
        Value::Array(vs) => if vs@.len() == 0 { 1 } else { leaf_count_list(vs@) },
        Value::Object(es) => if es@.len() == 0 { 1 } else { leaf_count_entries(es@) },
        _ => 1,
    }
}

/// Sum of the leaf counts of a sequence of array elements.
pub open spec fn leaf_count_list(vs: Seq<Value>) -> nat
    decreases vs,
{
    if vs.len() == 0 {
        0
    } else {
        leaf_count(vs[0]) + leaf_count_list(vs.drop_first())
    }
}

/// Sum of the leaf counts of a sequence of object entries.
pub open spec fn leaf_count_entries(es: Seq<(Vec<u8>, Value)>) -> nat
    decreases es,
{
    if es.len() == 0 {
        0
    } else {
        leaf_count(es[0].1) + leaf_count_entries(es.drop_first())
    }
}

/// Every document has at least one leaf.
pub proof fn lemma_leaf_count_pos(v: Value)
    ensures
        leaf_count(v) >= 1,
    decreases v,
{
    match v {
        Value::Array(vs) => {
            if vs@.len() > 0 {
                lemma_leaf_count_pos(vs@[0]);
                lemma_leaf_count_list_mono(vs@);
            }
        },
        Value::Object(es) => {
            if es@.len() > 0 {
                lemma_leaf_count_pos(es@[0].1);
                lemma_leaf_count_entries_mono(es@);
            }
        },
        _ => {},
    }
}

proof fn lemma_leaf_count_list_mono(vs: Seq<Value>)
    requires
        vs.len() > 0,
    ensures
        leaf_count_list(vs) >= leaf_count(vs[0]),
{
}

proof fn lemma_leaf_count_entries_mono(es: Seq<(Vec<u8>, Value)>)
    requires
        es.len() > 0,
    ensures
        leaf_count_entries(es) >= leaf_count(es[0].1),
{
}

/// Number of nodes of a document: a measure that shrinks strictly from a
/// container to each of its children.
pub open spec fn size(v: Value) -> nat
    decreases v,
{
    match v {
        Value::Array(vs) => 1 + size_list(vs@),
        Value::Object(es) => 1 + size_entries(es@),
        _ => 1,
    }
}

/// Sum of the sizes of array elements.
pub open spec fn size_list(vs: Seq<Value>) -> nat
    decreases vs,
{
    if vs.len() == 0 {
        0
    } else {
        size(vs[0]) + size_list(vs.drop_first())
    }
}

/// Sum of the sizes of object entry values.
pub open spec fn size_entries(es: Seq<(Vec<u8>, Value)>) -> nat
    decreases es,
{
    if es.len() == 0 {
        0
    } else {
        size(es[0].1) + size_entries(es.drop_first())
    }
}

/// Each array element weighs no more than the whole run.
pub proof fn lemma_size_list_elem(vs: Seq<Value>, i: int)
    requires
        0 <= i < vs.len(),
    ensures
        size_list(vs) >= size(vs[i]),
    decreases vs,
{
    if i > 0 {
        lemma_size_list_elem(vs.drop_first(), i - 1);
    }
}

/// Each entry value weighs no more than the whole run.
pub proof fn lemma_size_entries_elem(es: Seq<(Vec<u8>, Value)>, i: int)
    requires
        0 <= i < es.len(),
    ensures
        size_entries(es) >= size(es[i].1),
    decreases es,
{
    if i > 0 {
        lemma_size_entries_elem(es.drop_first(), i - 1);
    }
}

/// Keys of an object entry run are pairwise distinct.
pub open spec fn keys_distinct(es: Seq<(Vec<u8>, Value)>) -> bool {
    forall|i: int, j: int| 0 <= i < j < es.len() ==> es[i].0@ != es[j].0@
}

/// A well-formed document: every object in the tree has pairwise distinct
/// keys.
pub open spec fn wf(v: Value) -> bool
    decreases v,
{
    match v {
        Value::Array(vs) => forall|i: int| 0 <= i < vs@.len() ==> wf(#[trigger] vs@[i]),
        Value::Object(es) => keys_distinct(es@) && forall|i: int|
            0 <= i < es@.len() ==> wf(#[trigger] es@[i].1),
        _ => true,
    }
}

/// Same logical content: scalars equal, arrays pointwise equivalent, and
/// objects carrying the same keys with equivalent values, in any entry
/// order.
pub open spec fn equiv(a: Value, b: Value) -> bool
    decreases a,
{
    match (a, b) {
        (Value::Null, Value::Null) => true,
        (Value::Bool(x), Value::Bool(y)) => x == y,
        (Value::Int(x), Value::Int(y)) => x == y,
        (Value::UInt(x), Value::UInt(y)) => x == y,
        (Value::Decimal(x), Value::Decimal(y)) => x@ == y@,
        (Value::Str(x), Value::Str(y)) => x@ == y@,
        (Value::Array(xs), Value::Array(ys)) => xs@.len() == ys@.len() && forall|i: int|
            0 <= i < xs@.len() ==> equiv(#[trigger] xs@[i], ys@[i]),
        (Value::Object(es), Value::Object(fs)) => es@.len() == fs@.len() && forall|i: int|
            0 <= i < es@.len() ==> exists|j: int|
                0 <= j < fs@.len() && (#[trigger] fs@[j]).0@ == (#[trigger] es@[i]).0@ && equiv(
                    es@[i].1,
                    fs@[j].1,
                ),
        _ => false,
    }
}

/// Every document has at least one node.
pub proof fn lemma_size_pos(v: Value)
    ensures
        size(v) >= 1,
{
}

} // verus!
