//! The flattener: a depth-first pre-order walk of the tree that produces the
//! ordered sequence of display rows. The root container itself is never shown;
//! its immediate children sit at indentation 1. A scalar contributes one leaf
//! row; a container contributes one header row followed by the rows of its
//! children, object entries in insertion order and array elements in order.

use vstd::prelude::*;

use crate::tree::JsonV;
use crate::tree::JsonValue;
use crate::tree::RowV;
use crate::tree::ValuePair;
use crate::tree::lemma_height_elem;
use crate::tree::lemma_height_field;
use crate::tree::lemma_view_elems;
use crate::tree::lemma_view_fields;

verus! {

/// The header row shown for a container standing under `key` at `depth`.
pub open spec fn header_row(key: Seq<char>, depth: nat) -> RowV {
    RowV { indentation: depth, key, value: Option::None, is_array_value: false }
}

/// The leaf row shown for a scalar `v` standing under `key` at `depth`. An
/// empty key marks an array element.
pub open spec fn leaf_row(v: JsonV, key: Seq<char>, depth: nat) -> RowV {
    RowV { indentation: depth, key, value: Option::Some(v), is_array_value: key.len() == 0 }
}

/// All rows that value `v` contributes when it stands under `key` at `depth`.
pub open spec fn rows_of(v: JsonV, key: Seq<char>, depth: nat) -> Seq<RowV>
    decreases v, 0int,
{
    match v {
        JsonV::Obj(fs) => seq![header_row(key, depth)] + rows_of_fields(fs, (depth + 1) as nat),
        JsonV::Arr(es) => seq![header_row(key, depth)] + rows_of_elems(es, (depth + 1) as nat),
        _ => seq![leaf_row(v, key, depth)],
    }
}

/// Rows of a run of object entries, visited in insertion order.
pub open spec fn rows_of_fields(fs: Seq<(Seq<char>, JsonV)>, depth: nat) -> Seq<RowV>
    decreases fs, 1int,
{
    if fs.len() == 0 {
        Seq::empty()
    } else {
        rows_of(fs[0].1, fs[0].0, depth) + rows_of_fields(fs.drop_first(), depth)
    }
}

/// Rows of a run of array elements; each element stands under the empty key.
pub open spec fn rows_of_elems(es: Seq<JsonV>, depth: nat) -> Seq<RowV>
    decreases es, 1int,
{
    if es.len() == 0 {
        Seq::empty()
    } else {
        rows_of(es[0], Seq::empty(), depth) + rows_of_elems(es.drop_first(), depth)
    }
}

/// The rows of a container's children, which is what the whole document
/// flattens to when `v` is the root (the root's own header is never shown).
pub open spec fn rows_of_children(v: JsonV, depth: nat) -> Seq<RowV> {
    match v {
        JsonV::Obj(fs) => rows_of_fields(fs, depth),
        JsonV::Arr(es) => rows_of_elems(es, depth),
        _ => Seq::empty(),
    }
}

/// Number of rows that value `v` contributes.
pub open spec fn rcount(v: JsonV) -> nat
    decreases v, 0int,
{
    match v {
        JsonV::Obj(fs) => 1 + rcount_fields(fs),
        JsonV::Arr(es) => 1 + rcount_elems(es),
        _ => 1,
    }
}

pub open spec fn rcount_fields(fs: Seq<(Seq<char>, JsonV)>) -> nat
    decreases fs, 1int,
{
    if fs.len() == 0 {
        0
    } else {
        rcount(fs[0].1) + rcount_fields(fs.drop_first())
    }
}

pub open spec fn rcount_elems(es: Seq<JsonV>) -> nat
    decreases es, 1int,
{
    if es.len() == 0 {
        0
    } else {
        rcount(es[0]) + rcount_elems(es.drop_first())
    }
}

/// Number of rows of a container's children: the total row count of the
/// document when `v` is the root.
pub open spec fn rcount_children(v: JsonV) -> nat {
    match v {
        JsonV::Obj(fs) => rcount_fields(fs),
        JsonV::Arr(es) => rcount_elems(es),
        _ => 0,
    }
}

/// The view of a row vector, row by row.
pub open spec fn rows_view(pairs: Seq<ValuePair>) -> Seq<RowV> {
    pairs.map_values(|p: ValuePair| p@)
}

/// Every value contributes at least its own row.
pub proof fn lemma_rcount_pos(v: JsonV)
    ensures
        rcount(v) >= 1,
{
}

/// The row sequence and the row count agree.
pub proof fn lemma_rows_len(v: JsonV, key: Seq<char>, depth: nat)
    ensures
        rows_of(v, key, depth).len() == rcount(v),
    decreases v, 0int,
{
    match v {
        JsonV::Obj(fs) => lemma_rows_fields_len(fs, (depth + 1) as nat),
        JsonV::Arr(es) => lemma_rows_elems_len(es, (depth + 1) as nat),
        _ => {},
    }
}

pub proof fn lemma_rows_fields_len(fs: Seq<(Seq<char>, JsonV)>, depth: nat)
    ensures
        rows_of_fields(fs, depth).len() == rcount_fields(fs),
    decreases fs, 1int,
{
    if fs.len() > 0 {
        lemma_rows_len(fs[0].1, fs[0].0, depth);
        lemma_rows_fields_len(fs.drop_first(), depth);
    }
}

pub proof fn lemma_rows_elems_len(es: Seq<JsonV>, depth: nat)
    ensures
        rows_of_elems(es, depth).len() == rcount_elems(es),
    decreases es, 1int,
{
    if es.len() > 0 {
        lemma_rows_len(es[0], Seq::empty(), depth);
        lemma_rows_elems_len(es.drop_first(), depth);
    }
}

/// Appending one entry at the end appends exactly its rows at the end.
pub proof fn lemma_rows_fields_snoc(fs: Seq<(Seq<char>, JsonV)>, e: (Seq<char>, JsonV), depth: nat)
    ensures
        rows_of_fields(fs.push(e), depth) == rows_of_fields(fs, depth) + rows_of(e.1, e.0, depth),
        rcount_fields(fs.push(e)) == rcount_fields(fs) + rcount(e.1),
    decreases fs.len(),
{
    if fs.len() == 0 {
        assert(fs.push(e)[0] == e);
        assert(fs.push(e).drop_first() =~= fs);
        assert(rows_of_fields(fs, depth) == Seq::<RowV>::empty());
        assert(rcount_fields(fs) == 0);
        assert(rows_of_fields(fs.push(e), depth) == rows_of(e.1, e.0, depth) + rows_of_fields(
            fs,
            depth,
        ));
        assert(rows_of_fields(fs.push(e), depth) =~= rows_of_fields(fs, depth) + rows_of(
            e.1,
            e.0,
            depth,
        ));
    } else {
        lemma_rows_fields_snoc(fs.drop_first(), e, depth);
        assert(fs.push(e)[0] == fs[0]);
        assert(fs.push(e).drop_first() =~= fs.drop_first().push(e));
        assert(rows_of_fields(fs.push(e), depth) == rows_of(fs[0].1, fs[0].0, depth)
            + rows_of_fields(fs.drop_first().push(e), depth));
        assert(rcount_fields(fs.push(e)) == rcount(fs[0].1) + rcount_fields(
            fs.drop_first().push(e),
        ));
        assert(rows_of_fields(fs.push(e), depth) =~= rows_of_fields(fs, depth) + rows_of(
            e.1,
            e.0,
            depth,
        ));
    }
}

/// Appending one element at the end appends exactly its rows at the end.
pub proof fn lemma_rows_elems_snoc(es: Seq<JsonV>, e: JsonV, depth: nat)
    ensures
        rows_of_elems(es.push(e), depth) == rows_of_elems(es, depth) + rows_of(
            e,
            Seq::empty(),
            depth,
        ),
        rcount_elems(es.push(e)) == rcount_elems(es) + rcount(e),
    decreases es.len(),
{
    if es.len() == 0 {
        assert(es.push(e)[0] == e);
        assert(es.push(e).drop_first() =~= es);
        assert(rows_of_elems(es, depth) == Seq::<RowV>::empty());
        assert(rcount_elems(es) == 0);
        assert(rows_of_elems(es.push(e), depth) == rows_of(e, Seq::empty(), depth)
            + rows_of_elems(es, depth));
        assert(rows_of_elems(es.push(e), depth) =~= rows_of_elems(es, depth) + rows_of(
            e,
            Seq::empty(),
            depth,
        ));
    } else {
        lemma_rows_elems_snoc(es.drop_first(), e, depth);
        assert(es.push(e)[0] == es[0]);
        assert(es.push(e).drop_first() =~= es.drop_first().push(e));
        assert(rows_of_elems(es.push(e), depth) == rows_of(es[0], Seq::empty(), depth)
            + rows_of_elems(es.drop_first().push(e), depth));
        assert(rcount_elems(es.push(e)) == rcount(es[0]) + rcount_elems(es.drop_first().push(e)));
        assert(rows_of_elems(es.push(e), depth) =~= rows_of_elems(es, depth) + rows_of(
            e,
            Seq::empty(),
            depth,
        ));
    }
}

/// Law: flattening is a function of the tree alone, so flattening the same
/// unmodified tree twice yields identical row sequences and identical totals.
pub proof fn lemma_flatten_idempotent(
    root: JsonV,
    rows1: Seq<RowV>,
    total1: nat,
    rows2: Seq<RowV>,
    total2: nat,
)
    requires
        rows1 == rows_of_children(root, 1),
        total1 == rcount_children(root),
        rows2 == rows_of_children(root, 1),
        total2 == rcount_children(root),
    ensures
        rows1 == rows2,
        total1 == total2,
{
}

proof fn lemma_rows_view_push(s: Seq<ValuePair>, p: ValuePair)
    ensures
        rows_view(s.push(p)) == rows_view(s).push(p@),
        rows_view(s).push(p@) == rows_view(s) + seq![p@],
{
    assert(rows_view(s.push(p)) =~= rows_view(s).push(p@));
    assert(rows_view(s).push(p@) =~= rows_view(s) + seq![p@]);
}

/// Appends to `pairs` one row for every node under `data` (the rows of
/// `data`'s children, `data`'s own header not included), children at
/// indentation `indentation_counter + 1`, and returns how many rows were
/// appended.
pub fn insert_data_to_tree(
    pairs: &mut Vec<ValuePair>,
    data: &JsonValue,
    indentation_counter: usize,
) -> (count: usize)
    requires
        data@.is_container(),
        indentation_counter + data@.height() <= usize::MAX,
    ensures
        rows_view(final(pairs)@) == rows_view(old(pairs)@) + rows_of_children(
            data@,
            (indentation_counter + 1) as nat,
        ),
        final(pairs)@.len() == old(pairs)@.len() + count,
        count == rcount_children(data@),
    decreases data@.height(), 0int,
{
    let indentation = indentation_counter + 1;
    let start = pairs.len();
    match data {
        JsonValue::Object(fs) => {
            let ghost gfs = JsonValue::view_fields(fs@);
            proof {
                lemma_view_fields(fs@);
            }
            let mut j: usize = 0;
            while j < fs.len()
                invariant
                    j <= fs.len(),
                    data@ == JsonV::Obj(gfs),
                    gfs == JsonValue::view_fields(fs@),
                    gfs.len() == fs@.len(),
                    forall|i: int| 0 <= i < fs@.len() ==> gfs[i] == (#[trigger] fs@[i].0@, fs@[i].1@),
                    indentation == indentation_counter + 1,
                    indentation_counter + data@.height() <= usize::MAX,
                    start == old(pairs)@.len(),
                    rows_view(pairs@) == rows_view(old(pairs)@) + rows_of_fields(
                        gfs.take(j as int),
                        indentation as nat,
                    ),
                    pairs@.len() == old(pairs)@.len() + rcount_fields(gfs.take(j as int)),
                decreases fs.len() - j,
            {
                proof {
                    assert(gfs[j as int] == (fs@[j as int].0@, fs@[j as int].1@));
                    lemma_height_field(gfs, j as int);
                }
                let _ = walk_data_tree_for_json(fs[j].0.as_str(), &fs[j].1, pairs, indentation);
                proof {
                    assert(gfs.take(j as int + 1) =~= gfs.take(j as int).push(gfs[j as int]));
                    lemma_rows_fields_snoc(gfs.take(j as int), gfs[j as int], indentation as nat);
                }
                j += 1;
            }
            proof {
                assert(gfs.take(fs@.len() as int) =~= gfs);
            }
        },
        JsonValue::Array(es) => {
            let ghost ges = JsonValue::view_elems(es@);
            proof {
                lemma_view_elems(es@);
            }
            let mut j: usize = 0;
            while j < es.len()
                invariant
                    j <= es.len(),
                    data@ == JsonV::Arr(ges),
                    ges == JsonValue::view_elems(es@),
                    ges.len() == es@.len(),
                    forall|i: int| 0 <= i < es@.len() ==> ges[i] == #[trigger] es@[i]@,
                    indentation == indentation_counter + 1,
                    indentation_counter + data@.height() <= usize::MAX,
                    start == old(pairs)@.len(),
                    rows_view(pairs@) == rows_view(old(pairs)@) + rows_of_elems(
                        ges.take(j as int),
                        indentation as nat,
                    ),
                    pairs@.len() == old(pairs)@.len() + rcount_elems(ges.take(j as int)),
                decreases es.len() - j,
            {
                proof {
                    assert(ges[j as int] == es@[j as int]@);
                    lemma_height_elem(ges, j as int);
                }
                let _ = walk_data_tree_for_json("", &es[j], pairs, indentation);
                proof {
                    reveal_strlit("");
                    assert(""@ =~= Seq::<char>::empty());
                    assert(ges.take(j as int + 1) =~= ges.take(j as int).push(ges[j as int]));
                    lemma_rows_elems_snoc(ges.take(j as int), ges[j as int], indentation as nat);
                }
                j += 1;
            }
            proof {
                assert(ges.take(es@.len() as int) =~= ges);
            }
        },
        _ => {
            proof {
                assert(false);
            }
        },
    }
    pairs.len() - start
}

/// Appends the rows of one value standing under `key` at the given
/// indentation: a leaf row for a scalar, or a header row followed by the rows
/// of the children for a container. Returns how many rows were appended.
fn walk_data_tree_for_json(
    key: &str,
    value: &JsonValue,
    pairs: &mut Vec<ValuePair>,
    indentation_counter: usize,
) -> (count: usize)
    requires
        indentation_counter + value@.height() <= usize::MAX,
    ensures
        rows_view(final(pairs)@) == rows_view(old(pairs)@) + rows_of(
            value@,
            key@,
            indentation_counter as nat,
        ),
        final(pairs)@.len() == old(pairs)@.len() + count,
        count == rcount(value@),
    decreases value@.height(), 1int,
{
    let start = pairs.len();
    match value {
        JsonValue::Object(_) => {
            let header = ValuePair {
                indentation: indentation_counter,
                key: key.to_owned(),
                value: Option::None,
                is_array_value: false,
            };
            proof {
                lemma_rows_view_push(pairs@, header);
            }
            pairs.push(header);
            let _ = insert_data_to_tree(pairs, value, indentation_counter);
        },
        JsonValue::Array(_) => {
            let header = ValuePair {
                indentation: indentation_counter,
                key: key.to_owned(),
                value: Option::None,
                is_array_value: false,
            };
            proof {
                lemma_rows_view_push(pairs@, header);
            }
            pairs.push(header);
            let _ = insert_data_to_tree(pairs, value, indentation_counter);
        },
        _ => {
            let sc = value.deep_copy();
            let leaf = ValuePair {
                indentation: indentation_counter,
                key: key.to_owned(),
                value: Option::Some(sc),
                is_array_value: key.is_empty(),
            };
            proof {
                lemma_rows_view_push(pairs@, leaf);
            }
            pairs.push(leaf);
        },
    }
    pairs.len() - start
}

/// Flattens the whole document: the ordered display rows of the root's
/// children, and the total row count.
pub fn flatten(root: &JsonValue) -> (r: (Vec<ValuePair>, usize))
    requires
        root@.is_container(),
        root@.height() <= usize::MAX,
    ensures
        rows_view(r.0@) == rows_of_children(root@, 1),
        r.0@.len() == r.1,
        r.1 == rcount_children(root@),
{
    let mut pairs: Vec<ValuePair> = Vec::new();
    proof {
        assert(rows_view(Seq::<ValuePair>::empty()) =~= Seq::<RowV>::empty());
    }
    let count = insert_data_to_tree(&mut pairs, root, 0);
    (pairs, count)
}

} // verus!
