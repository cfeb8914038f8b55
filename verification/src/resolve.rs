//! The path resolver: maps a display-row index back to the exact location in
//! the tree. It counts nodes with the same depth-first rule the flattener
//! uses to emit rows, so row `i` of the flattened document always names the
//! node the resolver finds for `i`. A location is an arena-style path of
//! child indices from the root; the final component is the child's index
//! inside its parent container.

use vstd::prelude::*;

use crate::flatten::header_row;
use crate::flatten::leaf_row;
use crate::flatten::rcount;
use crate::flatten::rcount_children;
use crate::flatten::rcount_elems;
use crate::flatten::rcount_fields;
use crate::flatten::rows_of;
use crate::flatten::rows_of_children;
use crate::flatten::rows_of_elems;
use crate::flatten::rows_of_fields;
use crate::flatten::lemma_rcount_pos;
use crate::flatten::lemma_rows_len;
use crate::flatten::lemma_rows_fields_len;
use crate::flatten::lemma_rows_elems_len;
use crate::tree::JsonV;
use crate::tree::JsonValue;
use crate::tree::RowV;
use crate::tree::lemma_height_elem;
use crate::tree::lemma_height_field;
use crate::tree::lemma_view_elems;
use crate::tree::lemma_view_fields;

verus! {

/// How many children a container holds.
pub open spec fn child_count(v: JsonV) -> nat {
    match v {
        JsonV::Obj(fs) => fs.len(),
        JsonV::Arr(es) => es.len(),
        _ => 0,
    }
}

/// The `j`-th child of a container.
pub open spec fn child_at(v: JsonV, j: int) -> JsonV {
    match v {
        JsonV::Obj(fs) => fs[j].1,
        JsonV::Arr(es) => es[j],
        _ => v,
    }
}

/// The key the `j`-th child stands under: its object key, or the empty key
/// for an array element.
pub open spec fn child_key(v: JsonV, j: int) -> Seq<char> {
    match v {
        JsonV::Obj(fs) => fs[j].0,
        _ => Seq::empty(),
    }
}

/// A path is a run of child indices, each valid in the container it steps
/// into.
pub open spec fn path_ok(v: JsonV, p: Seq<int>) -> bool
    decreases p.len(),
{
    if p.len() == 0 {
        true
    } else {
        &&& v.is_container()
        &&& 0 <= p[0] < child_count(v)
        &&& path_ok(child_at(v, p[0]), p.drop_first())
    }
}

/// The node a path leads to.
pub open spec fn node_at(v: JsonV, p: Seq<int>) -> JsonV
    decreases p.len(),
{
    if p.len() == 0 {
        v
    } else {
        node_at(child_at(v, p[0]), p.drop_first())
    }
}

/// The key of the node a non-empty path leads to, when its parent is an
/// object.
pub open spec fn key_opt_at(v: JsonV, p: Seq<int>) -> Option<Seq<char>>
    decreases p.len(),
{
    if p.len() <= 1 {
        match v {
            JsonV::Obj(fs) => Option::Some(fs[p[0]].0),
            _ => Option::None,
        }
    } else {
        key_opt_at(child_at(v, p[0]), p.drop_first())
    }
}

/// The key of the node a non-empty path leads to, as it appears in its row:
/// the object key, or the empty key under an array parent.
pub open spec fn key_at(v: JsonV, p: Seq<int>) -> Seq<char> {
    match key_opt_at(v, p) {
        Option::Some(k) => k,
        Option::None => Seq::empty(),
    }
}

/// Rows contributed by the first `j` children of `v`.
pub open spec fn prefix_count(v: JsonV, j: int) -> nat {
    match v {
        JsonV::Obj(fs) => rcount_fields(fs.take(j)),
        JsonV::Arr(es) => rcount_elems(es.take(j)),
        _ => 0,
    }
}

/// The display-row index of the node a non-empty path leads to, counted
/// within the rows of `v`'s children: all rows of earlier siblings come
/// first, and inside the chosen child its own header comes before its
/// children's rows.
pub open spec fn row_index_of(v: JsonV, p: Seq<int>) -> int
    decreases p.len(),
{
    if p.len() <= 1 {
        prefix_count(v, p[0]) as int
    } else {
        prefix_count(v, p[0]) + 1 + row_index_of(child_at(v, p[0]), p.drop_first())
    }
}

/// The single row a node shows as: a header for a container, a leaf row for
/// a scalar.
pub open spec fn own_row(v: JsonV, key: Seq<char>, depth: nat) -> RowV {
    if v.is_container() {
        header_row(key, depth)
    } else {
        leaf_row(v, key, depth)
    }
}

/// Splitting an object's entry run at `j` splits its rows and its count.
pub proof fn lemma_fields_split(fs: Seq<(Seq<char>, JsonV)>, depth: nat, j: int)
    requires
        0 <= j < fs.len(),
    ensures
        rows_of_fields(fs, depth) == rows_of_fields(fs.take(j), depth) + rows_of(
            fs[j].1,
            fs[j].0,
            depth,
        ) + rows_of_fields(fs.skip(j + 1), depth),
        rcount_fields(fs) == rcount_fields(fs.take(j)) + rcount(fs[j].1) + rcount_fields(
            fs.skip(j + 1),
        ),
    decreases j,
{
    if j == 0 {
        assert(fs.take(0) =~= Seq::<(Seq<char>, JsonV)>::empty());
        assert(rows_of_fields(fs.take(0), depth) == Seq::<RowV>::empty());
        assert(rcount_fields(fs.take(0)) == 0);
        assert(fs.drop_first() =~= fs.skip(1));
        assert(rows_of_fields(fs, depth) =~= rows_of_fields(fs.take(0), depth) + rows_of(
            fs[0].1,
            fs[0].0,
            depth,
        ) + rows_of_fields(fs.skip(1), depth));
    } else {
        lemma_fields_split(fs.drop_first(), depth, j - 1);
        assert(fs.drop_first().take(j - 1) =~= fs.take(j).drop_first());
        assert(fs.drop_first().skip(j) =~= fs.skip(j + 1));
        assert(fs.drop_first()[j - 1] == fs[j]);
        assert(fs.take(j)[0] == fs[0]);
        assert(rows_of_fields(fs.take(j), depth) == rows_of(fs[0].1, fs[0].0, depth)
            + rows_of_fields(fs.take(j).drop_first(), depth));
        assert(rcount_fields(fs.take(j)) == rcount(fs[0].1) + rcount_fields(
            fs.take(j).drop_first(),
        ));
        assert(rows_of_fields(fs, depth) =~= rows_of_fields(fs.take(j), depth) + rows_of(
            fs[j].1,
            fs[j].0,
            depth,
        ) + rows_of_fields(fs.skip(j + 1), depth));
    }
}

/// Splitting an array's element run at `j` splits its rows and its count.
pub proof fn lemma_elems_split(es: Seq<JsonV>, depth: nat, j: int)
    requires
        0 <= j < es.len(),
    ensures
        rows_of_elems(es, depth) == rows_of_elems(es.take(j), depth) + rows_of(
            es[j],
            Seq::empty(),
            depth,
        ) + rows_of_elems(es.skip(j + 1), depth),
        rcount_elems(es) == rcount_elems(es.take(j)) + rcount(es[j]) + rcount_elems(es.skip(j + 1)),
    decreases j,
{
    if j == 0 {
        assert(es.take(0) =~= Seq::<JsonV>::empty());
        assert(rows_of_elems(es.take(0), depth) == Seq::<RowV>::empty());
        assert(rcount_elems(es.take(0)) == 0);
        assert(es.drop_first() =~= es.skip(1));
        assert(rows_of_elems(es, depth) =~= rows_of_elems(es.take(0), depth) + rows_of(
            es[0],
            Seq::empty(),
            depth,
        ) + rows_of_elems(es.skip(1), depth));
    } else {
        lemma_elems_split(es.drop_first(), depth, j - 1);
        assert(es.drop_first().take(j - 1) =~= es.take(j).drop_first());
        assert(es.drop_first().skip(j) =~= es.skip(j + 1));
        assert(es.drop_first()[j - 1] == es[j]);
        assert(es.take(j)[0] == es[0]);
        assert(rows_of_elems(es.take(j), depth) == rows_of(es[0], Seq::empty(), depth)
            + rows_of_elems(es.take(j).drop_first(), depth));
        assert(rcount_elems(es.take(j)) == rcount(es[0]) + rcount_elems(es.take(j).drop_first()));
        assert(rows_of_elems(es, depth) =~= rows_of_elems(es.take(j), depth) + rows_of(
            es[j],
            Seq::empty(),
            depth,
        ) + rows_of_elems(es.skip(j + 1), depth));
    }
}

/// Splitting a container's children at `j`, uniformly over both kinds.
pub proof fn lemma_children_split(v: JsonV, depth: nat, j: int)
    requires
        v.is_container(),
        0 <= j < child_count(v),
    ensures
        rows_of_children(v, depth) == rows_of_children(v, depth).take(prefix_count(v, j) as int)
            + rows_of(child_at(v, j), child_key(v, j), depth) + rows_of_children(v, depth).skip(
            prefix_count(v, j) + rcount(child_at(v, j)) as int,
        ),
        prefix_count(v, j) + rcount(child_at(v, j)) <= rcount_children(v),
        rows_of_children(v, depth).len() == rcount_children(v),
{
    match v {
        JsonV::Obj(fs) => {
            lemma_fields_split(fs, depth, j);
            lemma_rows_fields_len(fs, depth);
            lemma_rows_fields_len(fs.take(j), depth);
            lemma_rows_len(fs[j].1, fs[j].0, depth);
            assert(rows_of_children(v, depth).take(prefix_count(v, j) as int) =~= rows_of_fields(
                fs.take(j),
                depth,
            ));
            assert(rows_of_children(v, depth).skip(prefix_count(v, j) + rcount(child_at(v, j)) as int)
                =~= rows_of_fields(fs.skip(j + 1), depth));
        },
        JsonV::Arr(es) => {
            lemma_elems_split(es, depth, j);
            lemma_rows_elems_len(es, depth);
            lemma_rows_elems_len(es.take(j), depth);
            lemma_rows_len(es[j], Seq::empty(), depth);
            assert(rows_of_children(v, depth).take(prefix_count(v, j) as int) =~= rows_of_elems(
                es.take(j),
                depth,
            ));
            assert(rows_of_children(v, depth).skip(prefix_count(v, j) + rcount(child_at(v, j)) as int)
                =~= rows_of_elems(es.skip(j + 1), depth));
        },
        _ => {},
    }
}

/// Adding one more child to a prefix adds exactly that child's rows.
pub proof fn lemma_prefix_snoc(v: JsonV, j: int)
    requires
        v.is_container(),
        0 <= j < child_count(v),
    ensures
        prefix_count(v, j + 1) == prefix_count(v, j) + rcount(child_at(v, j)),
{
    match v {
        JsonV::Obj(fs) => {
            assert(fs.take(j + 1) =~= fs.take(j).push(fs[j]));
            crate::flatten::lemma_rows_fields_snoc(fs.take(j), fs[j], 1);
        },
        JsonV::Arr(es) => {
            assert(es.take(j + 1) =~= es.take(j).push(es[j]));
            crate::flatten::lemma_rows_elems_snoc(es.take(j), es[j], 1);
        },
        _ => {},
    }
}

/// Prefix counts grow with the prefix.
pub proof fn lemma_prefix_mono(v: JsonV, j1: int, j2: int)
    requires
        v.is_container(),
        0 <= j1 <= j2 <= child_count(v),
    ensures
        prefix_count(v, j1) <= prefix_count(v, j2),
    decreases j2 - j1,
{
    if j1 < j2 {
        lemma_prefix_snoc(v, j1);
        lemma_rcount_pos(child_at(v, j1));
        lemma_prefix_mono(v, j1 + 1, j2);
    }
}

/// A path's row index stays inside the row block of its first child.
pub proof fn lemma_row_index_block(v: JsonV, p: Seq<int>)
    requires
        v.is_container(),
        p.len() >= 1,
        path_ok(v, p),
    ensures
        prefix_count(v, p[0]) <= row_index_of(v, p) < prefix_count(v, p[0]) + rcount(
            child_at(v, p[0]),
        ),
    decreases p.len(),
{
    let child = child_at(v, p[0]);
    lemma_rcount_pos(child);
    if p.len() > 1 {
        let q = p.drop_first();
        assert(path_ok(child, q));
        assert(child.is_container());
        lemma_row_index_block(child, q);
        lemma_prefix_mono(child, q[0] + 1, child_count(child) as int);
        lemma_prefix_snoc(child, q[0]);
        assert(prefix_count(child, q[0]) + rcount(child_at(child, q[0])) <= prefix_count(
            child,
            child_count(child) as int,
        ));
        match child {
            JsonV::Obj(fs) => {
                assert(fs.take(fs.len() as int) =~= fs);
            },
            JsonV::Arr(es) => {
                assert(es.take(es.len() as int) =~= es);
            },
            _ => {},
        }
        assert(row_index_of(child, q) < rcount_children(child));
        assert(rcount(child) == 1 + rcount_children(child));
    }
}

/// Law: two valid paths with the same row index are the same path. Together
/// with `lemma_path_row` this makes the row/path correspondence one-to-one.
pub proof fn lemma_path_unique(v: JsonV, p1: Seq<int>, p2: Seq<int>)
    requires
        v.is_container(),
        p1.len() >= 1,
        p2.len() >= 1,
        path_ok(v, p1),
        path_ok(v, p2),
        row_index_of(v, p1) == row_index_of(v, p2),
    ensures
        p1 == p2,
    decreases p1.len(),
{
    lemma_row_index_block(v, p1);
    lemma_row_index_block(v, p2);
    if p1[0] < p2[0] {
        lemma_prefix_snoc(v, p1[0]);
        lemma_prefix_mono(v, p1[0] + 1, p2[0]);
        assert(false);
    }
    if p2[0] < p1[0] {
        lemma_prefix_snoc(v, p2[0]);
        lemma_prefix_mono(v, p2[0] + 1, p1[0]);
        assert(false);
    }
    let j = p1[0];
    let child = child_at(v, j);
    if p1.len() == 1 && p2.len() == 1 {
        assert(p1 =~= p2);
    } else if p1.len() == 1 {
        assert(path_ok(child, p2.drop_first()));
        assert(child.is_container());
        lemma_row_index_block(child, p2.drop_first());
        assert(false);
    } else if p2.len() == 1 {
        assert(path_ok(child, p1.drop_first()));
        assert(child.is_container());
        lemma_row_index_block(child, p1.drop_first());
        assert(false);
    } else {
        assert(path_ok(child, p1.drop_first()));
        assert(path_ok(child, p2.drop_first()));
        assert(child.is_container());
        lemma_path_unique(child, p1.drop_first(), p2.drop_first());
        assert(p1.drop_first() == p2.drop_first());
        assert(p1.len() == p1.drop_first().len() + 1);
        assert(p2.len() == p2.drop_first().len() + 1);
        assert forall|i: int| 0 <= i < p1.len() implies p1[i] == p2[i] by {
            if i > 0 {
                assert(p1.drop_first()[i - 1] == p1[i]);
                assert(p2.drop_first()[i - 1] == p2[i]);
            }
        }
        assert(p1 =~= p2);
    }
}

/// The unique valid path whose node shows at display row `i`; meaningful
/// whenever some path reaches row `i`, which the resolver establishes for
/// every `i` below the total row count.
pub open spec fn row_path(v: JsonV, i: int) -> Seq<int> {
    choose|p: Seq<int>| path_ok(v, p) && p.len() >= 1 && row_index_of(v, p) == i
}

/// Whenever a concrete valid path reaches row `i`, `row_path` is that path.
pub proof fn lemma_row_path_is(v: JsonV, p: Seq<int>, i: int)
    requires
        v.is_container(),
        p.len() >= 1,
        path_ok(v, p),
        row_index_of(v, p) == i,
    ensures
        row_path(v, i) == p,
{
    let q = choose|q: Seq<int>| path_ok(v, q) && q.len() >= 1 && row_index_of(v, q) == i;
    assert(path_ok(v, p) && p.len() >= 1 && row_index_of(v, p) == i);
    lemma_path_unique(v, q, p);
}

/// Law: row/path duality. The node a valid path leads to shows, in the
/// flattened document, exactly at the display-row index the depth-first
/// counter assigns to that path: the row there carries the node's key, its
/// depth, and — for a scalar — its value.
pub proof fn lemma_path_row(v: JsonV, p: Seq<int>, depth: nat)
    requires
        v.is_container(),
        p.len() >= 1,
        path_ok(v, p),
    ensures
        0 <= row_index_of(v, p) < rcount_children(v),
        rows_of_children(v, depth)[row_index_of(v, p)] == own_row(
            node_at(v, p),
            key_at(v, p),
            (depth + p.len() - 1) as nat,
        ),
    decreases p.len(),
{
    let j = p[0];
    let child = child_at(v, j);
    let ckey = child_key(v, j);
    lemma_children_split(v, depth, j);
    lemma_rcount_pos(child);
    lemma_rows_len(child, ckey, depth);
    let rows = rows_of_children(v, depth);
    let pc = prefix_count(v, j) as int;
    assert(rows =~= rows.take(pc) + rows_of(child, ckey, depth) + rows.skip(
        pc + rcount(child),
    ));
    if p.len() == 1 {
        assert(row_index_of(v, p) == pc);
        assert(rows[pc] == rows_of(child, ckey, depth)[0]);
        assert(node_at(v, p) == node_at(child, p.drop_first()));
        assert(p.drop_first().len() == 0);
        assert(node_at(v, p) == child);
        match v {
            JsonV::Obj(fs) => {
                assert(key_opt_at(v, p) == Option::Some(fs[j].0));
                assert(key_at(v, p) == ckey);
            },
            JsonV::Arr(es) => {
                assert(key_opt_at(v, p) == Option::<Seq<char>>::None);
                assert(key_at(v, p) =~= ckey);
            },
            _ => {},
        }
        assert(rows_of(child, ckey, depth)[0] == own_row(child, ckey, depth));
    } else {
        let q = p.drop_first();
        assert(path_ok(child, q));
        assert(child.is_container());
        lemma_path_row(child, q, (depth + 1) as nat);
        let inner = row_index_of(child, q);
        assert(row_index_of(v, p) == pc + 1 + inner);
        assert(rcount(child) == 1 + rcount_children(child));
        assert(0 <= row_index_of(v, p) < rcount_children(v));
        assert(rows_of(child, ckey, depth) == seq![header_row(ckey, depth)] + rows_of_children(
            child,
            ((depth + 1) as nat),
        ));
        assert(rows[pc + 1 + inner] == rows_of(child, ckey, depth)[1 + inner]);
        assert(rows_of(child, ckey, depth)[1 + inner] == rows_of_children(
            child,
            ((depth + 1) as nat),
        )[inner]);
        assert(node_at(v, p) == node_at(child, q));
        assert(key_at(v, p) == key_at(child, q));
        assert(rows[row_index_of(v, p)] == own_row(
            node_at(v, p),
            key_at(v, p),
            (depth + p.len() - 1) as nat,
        ));
    }
}

/// A path of child indices, as the mathematical sequence it denotes.
pub open spec fn path_view(p: Seq<usize>) -> Seq<int> {
    p.map_values(|u: usize| u as int)
}

/// Walks the children of `v` with the running depth-first row counter
/// `current`, looking for the node whose row index is `target`. Returns the
/// path to that node relative to `v`; `None` means the target lies beyond
/// `v`'s rows, with the counter advanced past them.
fn find_row_path(v: &JsonValue, current: &mut usize, target: usize) -> (r: Option<Vec<usize>>)
    requires
        v@.is_container(),
        *old(current) <= target,
    ensures
        match r {
            Option::Some(p) => {
                &&& p@.len() >= 1
                &&& path_ok(v@, path_view(p@))
                &&& row_index_of(v@, path_view(p@)) == target - *old(current)
                &&& target - *old(current) < rcount_children(v@)
            },
            Option::None => {
                &&& *final(current) == *old(current) + rcount_children(v@)
                &&& *old(current) + rcount_children(v@) <= target
            },
        },
    decreases v@.height(),
{
    match v {
        JsonValue::Object(fs) => {
            let ghost gfs = JsonValue::view_fields(fs@);
            proof {
                lemma_view_fields(fs@);
            }
            let mut j: usize = 0;
            while j < fs.len()
                invariant
                    j <= fs.len(),
                    v@ == JsonV::Obj(gfs),
                    gfs == JsonValue::view_fields(fs@),
                    gfs.len() == fs@.len(),
                    forall|i: int| 0 <= i < fs@.len() ==> gfs[i] == (#[trigger] fs@[i].0@, fs@[i].1@),
                    *current == *old(current) + prefix_count(v@, j as int),
                    *current <= target,
                    *old(current) <= target,
                decreases fs.len() - j,
            {
                proof {
                    assert(gfs[j as int] == (fs@[j as int].0@, fs@[j as int].1@));
                }
                if *current == target {
                    let mut p: Vec<usize> = Vec::new();
                    p.push(j);
                    proof {
                        assert(path_view(p@) =~= seq![j as int]);
                        assert(path_view(p@).len() == 1);
                        assert(path_view(p@)[0] == j as int);
                        assert(path_view(p@).drop_first() =~= Seq::<int>::empty());
                        assert(path_ok(child_at(v@, j as int), path_view(p@).drop_first()));
                        assert(path_ok(v@, path_view(p@)));
                        assert(row_index_of(v@, path_view(p@)) == prefix_count(v@, j as int));
                        lemma_prefix_snoc(v@, j as int);
                        lemma_rcount_pos(child_at(v@, j as int));
                        lemma_prefix_mono(v@, j as int + 1, fs@.len() as int);
                        assert(gfs.take(gfs.len() as int) =~= gfs);
                    }
                    return Option::Some(p);
                }
                *current += 1;
                let ghost c1 = *current;
                if fs[j].1.is_container() {
                    proof {
                        lemma_height_field(gfs, j as int);
                    }
                    let sub = find_row_path(&fs[j].1, current, target);
                    match sub {
                        Option::Some(mut p) => {
                            let ghost p0 = p@;
                            p.insert(0, j);
                            proof {
                                assert(p@ == p0.insert(0, j));
                                assert(path_view(p@) =~= seq![j as int] + path_view(p0));
                                assert(path_view(p@).drop_first() =~= path_view(p0));
                                assert(path_view(p@)[0] == j as int);
                                assert(path_view(p@).len() == path_view(p0).len() + 1);
                                assert(child_at(v@, j as int) == gfs[j as int].1);
                                assert(gfs[j as int].1 == fs@[j as int].1@);
                                assert(path_ok(fs@[j as int].1@, path_view(p0)));
                                assert(path_ok(child_at(v@, j as int), path_view(
                                    p@,
                                ).drop_first()));
                                assert((j as int) < child_count(v@));
                                assert(path_ok(v@, path_view(p@)));
                                assert(row_index_of(v@, path_view(p@)) == prefix_count(
                                    v@,
                                    j as int,
                                ) + 1 + row_index_of(gfs[j as int].1, path_view(p0)));
                                lemma_prefix_snoc(v@, j as int);
                                lemma_prefix_mono(v@, j as int + 1, fs@.len() as int);
                                assert(gfs.take(gfs.len() as int) =~= gfs);
                                assert(rcount(gfs[j as int].1) == 1 + rcount_children(
                                    gfs[j as int].1,
                                ));
                            }
                            return Option::Some(p);
                        },
                        Option::None => {
                            proof {
                                lemma_prefix_snoc(v@, j as int);
                            }
                        },
                    }
                } else {
                    proof {
                        lemma_prefix_snoc(v@, j as int);
                        assert(rcount(gfs[j as int].1) == 1);
                    }
                }
                j += 1;
            }
            proof {
                assert(gfs.take(gfs.len() as int) =~= gfs);
            }
            Option::None
        },
        JsonValue::Array(es) => {
            let ghost ges = JsonValue::view_elems(es@);
            proof {
                lemma_view_elems(es@);
            }
            let mut j: usize = 0;
            while j < es.len()
                invariant
                    j <= es.len(),
                    v@ == JsonV::Arr(ges),
                    ges == JsonValue::view_elems(es@),
                    ges.len() == es@.len(),
                    forall|i: int| 0 <= i < es@.len() ==> ges[i] == #[trigger] es@[i]@,
                    *current == *old(current) + prefix_count(v@, j as int),
                    *current <= target,
                    *old(current) <= target,
                decreases es.len() - j,
            {
                proof {
                    assert(ges[j as int] == es@[j as int]@);
                }
                if *current == target {
                    let mut p: Vec<usize> = Vec::new();
                    p.push(j);
                    proof {
                        assert(path_view(p@) =~= seq![j as int]);
                        assert(path_view(p@).len() == 1);
                        assert(path_view(p@)[0] == j as int);
                        assert(path_view(p@).drop_first() =~= Seq::<int>::empty());
                        assert(path_ok(child_at(v@, j as int), path_view(p@).drop_first()));
                        assert(path_ok(v@, path_view(p@)));
                        assert(row_index_of(v@, path_view(p@)) == prefix_count(v@, j as int));
                        lemma_prefix_snoc(v@, j as int);
                        lemma_rcount_pos(child_at(v@, j as int));
                        lemma_prefix_mono(v@, j as int + 1, es@.len() as int);
                        assert(ges.take(ges.len() as int) =~= ges);
                    }
                    return Option::Some(p);
                }
                *current += 1;
                if es[j].is_container() {
                    proof {
                        lemma_height_elem(ges, j as int);
                    }
                    let sub = find_row_path(&es[j], current, target);
                    match sub {
                        Option::Some(mut p) => {
                            let ghost p0 = p@;
                            p.insert(0, j);
                            proof {
                                assert(p@ == p0.insert(0, j));
                                assert(path_view(p@) =~= seq![j as int] + path_view(p0));
                                assert(path_view(p@).drop_first() =~= path_view(p0));
                                assert(path_view(p@)[0] == j as int);
                                assert(path_view(p@).len() == path_view(p0).len() + 1);
                                assert(child_at(v@, j as int) == ges[j as int]);
                                assert(ges[j as int] == es@[j as int]@);
                                assert(path_ok(es@[j as int]@, path_view(p0)));
                                assert(path_ok(child_at(v@, j as int), path_view(
                                    p@,
                                ).drop_first()));
                                assert((j as int) < child_count(v@));
                                assert(path_ok(v@, path_view(p@)));
                                assert(row_index_of(v@, path_view(p@)) == prefix_count(
                                    v@,
                                    j as int,
                                ) + 1 + row_index_of(ges[j as int], path_view(p0)));
                                lemma_prefix_snoc(v@, j as int);
                                lemma_prefix_mono(v@, j as int + 1, es@.len() as int);
                                assert(ges.take(ges.len() as int) =~= ges);
                                assert(rcount(ges[j as int]) == 1 + rcount_children(ges[j as int]));
                            }
                            return Option::Some(p);
                        },
                        Option::None => {
                            proof {
                                lemma_prefix_snoc(v@, j as int);
                            }
                        },
                    }
                } else {
                    proof {
                        lemma_prefix_snoc(v@, j as int);
                        assert(rcount(ges[j as int]) == 1);
                    }
                }
                j += 1;
            }
            proof {
                assert(ges.take(ges.len() as int) =~= ges);
            }
            Option::None
        },
        _ => {
            proof {
                assert(false);
            }
            Option::None
        },
    }
}
/// Resolves a display-row index to the full path of the node shown on that
/// row. `None` exactly when the row is out of bounds.
pub fn resolve_row_path(target_row: usize, root: &JsonValue) -> (r: Option<Vec<usize>>)
    requires
        root@.is_container(),
    ensures
        match r {
            Option::Some(p) => {
                &&& target_row < rcount_children(root@)
                &&& p@.len() >= 1
                &&& path_ok(root@, path_view(p@))
                &&& row_index_of(root@, path_view(p@)) == target_row
                &&& path_view(p@) == row_path(root@, target_row as int)
            },
            Option::None => target_row >= rcount_children(root@),
        },
{
    let mut cur: usize = 0;
    let r = find_row_path(root, &mut cur, target_row);
    proof {
        match &r {
            Option::Some(p) => {
                lemma_row_path_is(root@, path_view(p@), target_row as int);
            },
            Option::None => {},
        }
    }
    r
}

/// Resolves a display-row index to the node's parent container (as the path
/// from the root to that parent) and the node's child index inside it.
/// `None` with index 0 exactly when the row is out of bounds.
pub fn get_nested_object_to_insert_into(steps: usize, obj: &JsonValue) -> (r: (
    Option<Vec<usize>>,
    usize,
))
    requires
        obj@.is_container(),
    ensures
        match r.0 {
            Option::Some(pp) => {
                &&& steps < rcount_children(obj@)
                &&& path_view(pp@).push(r.1 as int) == row_path(obj@, steps as int)
                &&& path_ok(obj@, path_view(pp@).push(r.1 as int))
                &&& row_index_of(obj@, path_view(pp@).push(r.1 as int)) == steps
            },
            Option::None => {
                &&& steps >= rcount_children(obj@)
                &&& r.1 == 0
            },
        },
{
    match resolve_row_path(steps, obj) {
        Option::Some(mut p) => {
            let ghost full = p@;
            let idx = match p.pop() {
                Option::Some(x) => x,
                Option::None => 0,
            };
            proof {
                assert(full.len() >= 1);
                assert(p@ == full.subrange(0, full.len() - 1));
                assert(idx == full[full.len() - 1]);
                assert(path_view(p@).push(idx as int) =~= path_view(full));
            }
            (Option::Some(p), idx)
        },
        Option::None => (Option::None, 0),
    }
}

/// Walks down `v` along `p` from position `pos` and returns the key of the
/// final node (when its parent is an object) and a copy of the node itself.
fn fetch_at(v: &JsonValue, p: &Vec<usize>, pos: usize) -> (r: (Option<String>, JsonValue))
    requires
        pos < p@.len(),
        path_ok(v@, path_view(p@).skip(pos as int)),
    ensures
        r.1@ == node_at(v@, path_view(p@).skip(pos as int)),
        match r.0 {
            Option::Some(k) => key_opt_at(v@, path_view(p@).skip(pos as int)) == Option::Some(k@),
            Option::None => key_opt_at(v@, path_view(p@).skip(pos as int)) is None,
        },
    decreases p@.len() - pos,
{
    let ghost sp = path_view(p@).skip(pos as int);
    proof {
        assert(sp.len() == p@.len() - pos);
        assert(sp[0] == p@[pos as int] as int);
    }
    let plen = p.len();
    let j = p[pos];
    match v {
        JsonValue::Object(fs) => {
            let ghost gfs = JsonValue::view_fields(fs@);
            proof {
                lemma_view_fields(fs@);
                assert(child_count(v@) == gfs.len());
                assert(gfs[j as int] == (fs@[j as int].0@, fs@[j as int].1@));
                assert(child_at(v@, j as int) == fs@[j as int].1@);
            }
            if pos + 1 == plen {
                proof {
                    assert(sp.len() == 1);
                    assert(node_at(v@, sp) == node_at(child_at(v@, j as int), sp.drop_first()));
                    assert(sp.drop_first().len() == 0);
                    assert(key_opt_at(v@, sp) == Option::Some(gfs[j as int].0));
                }
                (Option::Some(fs[j].0.clone()), fs[j].1.deep_copy())
            } else {
                proof {
                    assert(sp.drop_first() =~= path_view(p@).skip(pos as int + 1));
                }
                fetch_at(&fs[j].1, p, pos + 1)
            }
        },
        JsonValue::Array(es) => {
            let ghost ges = JsonValue::view_elems(es@);
            proof {
                lemma_view_elems(es@);
                assert(child_count(v@) == ges.len());
                assert(ges[j as int] == es@[j as int]@);
                assert(child_at(v@, j as int) == es@[j as int]@);
            }
            if pos + 1 == plen {
                proof {
                    assert(sp.len() == 1);
                    assert(node_at(v@, sp) == node_at(child_at(v@, j as int), sp.drop_first()));
                    assert(sp.drop_first().len() == 0);
                    assert(key_opt_at(v@, sp) is None);
                }
                (Option::None, es[j].deep_copy())
            } else {
                proof {
                    assert(sp.drop_first() =~= path_view(p@).skip(pos as int + 1));
                }
                fetch_at(&es[j], p, pos + 1)
            }
        },
        _ => {
            proof {
                assert(false);
            }
            (Option::None, JsonValue::Null)
        },
    }
}

/// Resolves a display-row index for an edit of the existing value there: the
/// path to the node's parent, the node's key when the parent is an object, a
/// copy of the node itself, and the node's index inside its parent. All
/// `None` with index 0 exactly when the row is out of bounds.
pub fn get_current_value_at_position(steps: usize, obj: &JsonValue) -> (r: (
    Option<Vec<usize>>,
    Option<String>,
    Option<JsonValue>,
    usize,
))
    requires
        obj@.is_container(),
    ensures
        match r.2 {
            Option::Some(node) => {
                &&& steps < rcount_children(obj@)
                &&& r.0 is Some
                &&& match r.0 {
                    Option::Some(pp) => {
                        &&& path_view(pp@).push(r.3 as int) == row_path(obj@, steps as int)
                        &&& path_ok(obj@, path_view(pp@).push(r.3 as int))
                        &&& row_index_of(obj@, path_view(pp@).push(r.3 as int)) == steps
                        &&& node@ == node_at(obj@, path_view(pp@).push(r.3 as int))
                        &&& match r.1 {
                            Option::Some(k) => key_opt_at(
                                obj@,
                                path_view(pp@).push(r.3 as int),
                            ) == Option::Some(k@),
                            Option::None => key_opt_at(
                                obj@,
                                path_view(pp@).push(r.3 as int),
                            ) is None,
                        }
                    },
                    Option::None => false,
                }
            },
            Option::None => {
                &&& steps >= rcount_children(obj@)
                &&& r.0 is None
                &&& r.1 is None
                &&& r.3 == 0
            },
        },
{
    match resolve_row_path(steps, obj) {
        Option::Some(p) => {
            proof {
                assert(path_view(p@).skip(0) =~= path_view(p@));
            }
            let (key, node) = fetch_at(obj, &p, 0);
            let ghost full = p@;
            let mut parent = p;
            let idx = match parent.pop() {
                Option::Some(x) => x,
                Option::None => 0,
            };
            proof {
                assert(full.len() >= 1);
                assert(parent@ == full.subrange(0, full.len() - 1));
                assert(idx == full[full.len() - 1]);
                assert(path_view(parent@).push(idx as int) =~= path_view(full));
            }
            (Option::Some(parent), key, Option::Some(node), idx)
        },
        Option::None => (Option::None, Option::None, Option::None, 0),
    }
}

/// Scanning the children from `j` on finds the child whose row block holds
/// row `i`.
proof fn lemma_find_block(v: JsonV, i: int, j: int)
    requires
        v.is_container(),
        0 <= j <= child_count(v),
        prefix_count(v, j) <= i < rcount_children(v),
    ensures
        exists|k: int|
            j <= k < child_count(v) && prefix_count(v, k) <= i < prefix_count(v, k) + rcount(
                #[trigger] child_at(v, k),
            ),
    decreases child_count(v) - j,
{
    if j == child_count(v) {
        match v {
            JsonV::Obj(fs) => {
                assert(fs.take(fs.len() as int) =~= fs);
            },
            JsonV::Arr(es) => {
                assert(es.take(es.len() as int) =~= es);
            },
            _ => {},
        }
        assert(false);
    } else {
        lemma_prefix_snoc(v, j);
        if i < prefix_count(v, j) + rcount(child_at(v, j)) {
            assert(prefix_count(v, j) <= i < prefix_count(v, j) + rcount(child_at(v, j)));
        } else {
            lemma_find_block(v, i, j + 1);
        }
    }
}

/// Every display row below the total is reached by a valid path: the one
/// `row_path` names.
pub proof fn lemma_row_has_path(v: JsonV, i: int)
    requires
        v.is_container(),
        0 <= i < rcount_children(v),
    ensures
        path_ok(v, row_path(v, i)),
        row_path(v, i).len() >= 1,
        row_index_of(v, row_path(v, i)) == i,
    decreases v.height(),
{
    match v {
        JsonV::Obj(fs) => {
            assert(fs.take(0) =~= Seq::<(Seq<char>, JsonV)>::empty());
        },
        JsonV::Arr(es) => {
            assert(es.take(0) =~= Seq::<JsonV>::empty());
        },
        _ => {},
    }
    assert(prefix_count(v, 0) == 0);
    lemma_find_block(v, i, 0);
    let k = choose|k: int|
        0 <= k < child_count(v) && prefix_count(v, k) <= i < prefix_count(v, k) + rcount(
            #[trigger] child_at(v, k),
        );
    let child = child_at(v, k);
    if i == prefix_count(v, k) {
        let p = seq![k];
        assert(p.drop_first() =~= Seq::<int>::empty());
        assert(path_ok(child, p.drop_first()));
        assert(path_ok(v, p));
        assert(row_index_of(v, p) == prefix_count(v, k));
        lemma_row_path_is(v, p, i);
    } else {
        lemma_rcount_pos(child);
        if !child.is_container() {
            assert(rcount(child) == 1);
            assert(false);
        }
        let i2 = i - prefix_count(v, k) - 1;
        assert(rcount(child) == 1 + rcount_children(child));
        assert(0 <= i2 < rcount_children(child));
        match v {
            JsonV::Obj(fs) => {
                crate::tree::lemma_height_field(fs, k);
                assert(child == fs[k].1);
            },
            JsonV::Arr(es) => {
                crate::tree::lemma_height_elem(es, k);
                assert(child == es[k]);
            },
            _ => {},
        }
        lemma_row_has_path(child, i2);
        let q = row_path(child, i2);
        let p = seq![k] + q;
        assert(p.drop_first() =~= q);
        assert(p[0] == k);
        assert(path_ok(v, p));
        assert(row_index_of(v, p) == prefix_count(v, k) + 1 + i2);
        lemma_row_path_is(v, p, i);
    }
}

/// Law: round-trip row/path duality. For every container document and
/// every row index below the total, the resolver's path names exactly the
/// node whose row the flattener emitted at that index: the flattened row
/// there carries that node's key and depth, and — when the node is a
/// scalar — its value; two different rows never resolve to the same path.
pub proof fn lemma_row_path_duality(root: JsonV, i: int)
    requires
        root.is_container(),
        0 <= i < rcount_children(root),
    ensures
        ({
            let p = row_path(root, i);
            &&& path_ok(root, p)
            &&& p.len() >= 1
            &&& row_index_of(root, p) == i
            &&& rows_of_children(root, 1)[i] == own_row(
                node_at(root, p),
                key_at(root, p),
                p.len() as nat,
            )
        }),
{
    lemma_row_has_path(root, i);
    let p = row_path(root, i);
    lemma_path_row(root, p, 1);
    assert((1 + p.len() - 1) as nat == p.len() as nat);
}

} // verus!
