//! The mutation engine: coerces free-text input into a typed JSON scalar and
//! performs order-preserving structural edits at a resolved location.
//!
//! The coercion rule: text that reads as a 64-bit float literal becomes a
//! number (kept in its literal form); failing that, `true`/`false` becomes a
//! boolean; failing that, exactly `null` becomes null, but only where the
//! caller allows it (updates do, inserts do not); anything else is stored as
//! a string verbatim.

use vstd::prelude::*;

use crate::flatten::rcount_children;
use crate::flatten::rows_of_children;
use crate::resolve::child_at;
use crate::resolve::child_count;
use crate::resolve::child_key;
use crate::resolve::get_nested_object_to_insert_into;
use crate::resolve::key_opt_at;
use crate::resolve::lemma_path_row;
use crate::resolve::node_at;
use crate::resolve::own_row;
use crate::resolve::path_ok;
use crate::resolve::path_view;
use crate::resolve::row_index_of;
use crate::resolve::row_path;
use crate::tree::JsonV;
use crate::tree::JsonValue;
use crate::tree::lemma_view_elems;
use crate::tree::lemma_view_fields;
use vstd::pervasive::VecAdditionalExecFns;

verus! {

/// An ASCII decimal digit.
pub open spec fn is_digit(c: char) -> bool {
    48 <= c as int <= 57
}

/// The first position at or after `i` that does not hold a digit.
pub open spec fn digits_end(s: Seq<char>, i: int) -> int
    decreases s.len() - i,
{
    if 0 <= i < s.len() && is_digit(s[i]) {
        digits_end(s, i + 1)
    } else {
        i
    }
}

/// A sign character.
pub open spec fn is_sign(c: char) -> bool {
    c == '+' || c == '-'
}

/// An exponent part fills the rest of the text from `i`: `e` or `E`, an
/// optional sign, then at least one digit.
pub open spec fn is_exp_from(s: Seq<char>, i: int) -> bool {
    &&& 0 <= i < s.len()
    &&& (s[i] == 'e' || s[i] == 'E')
    &&& {
        let k = if i + 1 < s.len() && is_sign(s[i + 1]) {
            i + 2
        } else {
            i + 1
        };
        k < s.len() && digits_end(s, k) == s.len()
    }
}

/// A decimal number fills the rest of the text from `i`: digits, digits
/// followed by a dot and optional digits, or a dot followed by digits, each
/// with an optional exponent.
pub open spec fn is_number_from(s: Seq<char>, i: int) -> bool {
    let d1 = digits_end(s, i);
    if d1 == s.len() {
        d1 > i
    } else if s[d1] == '.' {
        let d2 = digits_end(s, d1 + 1);
        (d1 > i || d2 > d1 + 1) && (d2 == s.len() || is_exp_from(s, d2))
    } else {
        d1 > i && is_exp_from(s, d1)
    }
}

/// `a` equals `b` up to ASCII case, where `b` is a lower-case letter or any
/// exact character.
pub open spec fn ci_char(a: char, b: char) -> bool {
    a == b || (97 <= b as int <= 122 && a as int + 32 == b as int)
}

/// The rest of the text from `i` spells `w`, up to ASCII case.
pub open spec fn ci_word_from(s: Seq<char>, i: int, w: Seq<char>) -> bool {
    &&& 0 <= i <= s.len()
    &&& s.len() - i == w.len()
    &&& forall|j: int| 0 <= j < w.len() ==> ci_char(s[i + j], #[trigger] w[j])
}

/// The text reads as a 64-bit float literal: an optional sign, then one of
/// the words `inf`, `infinity` or `nan` in any case, or a decimal number.
pub open spec fn is_float_text(s: Seq<char>) -> bool {
    let i: int = if s.len() > 0 && is_sign(s[0]) {
        1
    } else {
        0
    };
    ||| ci_word_from(s, i, "inf"@)
    ||| ci_word_from(s, i, "infinity"@)
    ||| ci_word_from(s, i, "nan"@)
    ||| is_number_from(s, i)
}

/// What free-text input coerces to: a number when it reads as a float
/// literal, then a boolean, then null (only where allowed), else the text
/// itself as a string.
pub open spec fn coerce_spec(text: Seq<char>, allow_null: bool) -> JsonV {
    if is_float_text(text) {
        JsonV::Num(text)
    } else if text == "true"@ {
        JsonV::Bool(true)
    } else if text == "false"@ {
        JsonV::Bool(false)
    } else if allow_null && text == "null"@ {
        JsonV::Null
    } else {
        JsonV::Str(text)
    }
}

/// Exact character-for-character equality of two text slices.
fn str_eq(a: &str, b: &str) -> (r: bool)
    ensures
        r == (a@ == b@),
{
    let na = a.unicode_len();
    let nb = b.unicode_len();
    if na != nb {
        proof {
            assert(a@ != b@);
        }
        return false;
    }
    let mut j: usize = 0;
    while j < na
        invariant
            na == a@.len(),
            na == b@.len(),
            j <= na,
            forall|i: int| 0 <= i < j ==> a@[i] == b@[i],
        decreases na - j,
    {
        if a.get_char(j) != b.get_char(j) {
            return false;
        }
        j += 1;
    }
    proof {
        assert(a@ =~= b@);
    }
    true
}

/// The first position at or after `i` in `s` that does not hold a digit.
fn scan_digits(s: &str, i: usize, n: usize) -> (r: usize)
    requires
        n == s@.len(),
        i <= n,
    ensures
        i <= r <= n,
        r == digits_end(s@, i as int),
{
    let mut k: usize = i;
    while k < n
        invariant
            n == s@.len(),
            i <= k <= n,
            digits_end(s@, i as int) == digits_end(s@, k as int),
        ensures
            i <= k <= n,
            digits_end(s@, i as int) == k as int,
        decreases n - k,
    {
        let c = s.get_char(k);
        if !((c as u32) >= 48 && (c as u32) <= 57) {
            proof {
                assert(!is_digit(s@[k as int]));
                assert(digits_end(s@, k as int) == k as int);
            }
            break ;
        }
        proof {
            assert(is_digit(s@[k as int]));
            assert(digits_end(s@, k as int) == digits_end(s@, k as int + 1));
        }
        k += 1;
    }
    k
}

/// Whether the rest of `s` from `i` spells `w` up to ASCII case.
fn ci_match_from(s: &str, i: usize, n: usize, w: &str) -> (r: bool)
    requires
        n == s@.len(),
        i <= n,
    ensures
        r == ci_word_from(s@, i as int, w@),
{
    let nw = w.unicode_len();
    if n - i != nw {
        return false;
    }
    let mut j: usize = 0;
    while j < nw
        invariant
            n == s@.len(),
            nw == w@.len(),
            i <= n,
            n - i == nw,
            j <= nw,
            forall|x: int| 0 <= x < j ==> ci_char(s@[i + x], #[trigger] w@[x]),
        decreases nw - j,
    {
        let a = s.get_char(i + j);
        let b = w.get_char(j);
        let ok = a == b || ((b as u32) >= 97 && (b as u32) <= 122 && (a as u32) + 32 == (b as u32));
        if !ok {
            proof {
                assert(!ci_char(s@[i + j], w@[j as int]));
            }
            return false;
        }
        j += 1;
    }
    true
}

/// Whether an exponent part fills the rest of `s` from `i`.
fn exp_from(s: &str, i: usize, n: usize) -> (r: bool)
    requires
        n == s@.len(),
        i <= n,
    ensures
        r == is_exp_from(s@, i as int),
{
    if i >= n {
        return false;
    }
    let c = s.get_char(i);
    if c != 'e' && c != 'E' {
        return false;
    }
    let mut k: usize = i + 1;
    if k < n {
        let c2 = s.get_char(k);
        if c2 == '+' || c2 == '-' {
            k += 1;
        }
    }
    let e = scan_digits(s, k, n);
    k < n && e == n
}

/// Whether the whole text reads as a 64-bit float literal.
pub fn is_float_literal(s: &str) -> (r: bool)
    ensures
        r == is_float_text(s@),
{
    let n = s.unicode_len();
    let mut start: usize = 0;
    if n > 0 {
        let c = s.get_char(0);
        if c == '+' || c == '-' {
            start = 1;
        }
    }
    if ci_match_from(s, start, n, "inf") || ci_match_from(s, start, n, "infinity")
        || ci_match_from(s, start, n, "nan") {
        return true;
    }
    let d1 = scan_digits(s, start, n);
    if d1 == n {
        return d1 > start;
    }
    let dot = s.get_char(d1);
    if dot == '.' {
        let d2 = scan_digits(s, d1 + 1, n);
        if !(d1 > start || d2 > d1 + 1) {
            return false;
        }
        if d2 == n {
            return true;
        }
        return exp_from(s, d2, n);
    }
    d1 > start && exp_from(s, d1, n)
}

/// Coerces free-text input into a typed scalar, per the coercion rule.
pub fn coerce_value(text: &str, allow_null: bool) -> (r: JsonValue)
    ensures
        r@ == coerce_spec(text@, allow_null),
        r@.is_scalar(),
{
    if is_float_literal(text) {
        JsonValue::Num(text.to_owned())
    } else if str_eq(text, "true") {
        JsonValue::Bool(true)
    } else if str_eq(text, "false") {
        JsonValue::Bool(false)
    } else if allow_null && str_eq(text, "null") {
        JsonValue::Null
    } else {
        JsonValue::Str(text.to_owned())
    }
}

/// The container `v` with a new child inserted at position `idx`; the key is
/// used only when `v` is an object.
pub open spec fn insert_child(v: JsonV, idx: int, key: Seq<char>, nv: JsonV) -> JsonV {
    match v {
        JsonV::Obj(fs) => JsonV::Obj(fs.insert(idx, (key, nv))),
        JsonV::Arr(es) => JsonV::Arr(es.insert(idx, nv)),
        _ => v,
    }
}

/// The container `v` with the child at `idx` replaced; in an object both the
/// key and the value of the entry are replaced, in an array the element.
pub open spec fn update_child(v: JsonV, idx: int, key: Seq<char>, nv: JsonV) -> JsonV {
    match v {
        JsonV::Obj(fs) => JsonV::Obj(fs.update(idx, (key, nv))),
        JsonV::Arr(es) => JsonV::Arr(es.update(idx, nv)),
        _ => v,
    }
}

/// The container `v` with child `j` replaced by `c`, its key kept.
pub open spec fn with_child_replaced(v: JsonV, j: int, c: JsonV) -> JsonV {
    match v {
        JsonV::Obj(fs) => JsonV::Obj(fs.update(j, (fs[j].0, c))),
        JsonV::Arr(es) => JsonV::Arr(es.update(j, c)),
        _ => v,
    }
}

/// The tree after inserting a new child at position `idx` of the container
/// that the path `pp` leads to; everything off that path is untouched.
pub open spec fn after_insert(v: JsonV, pp: Seq<int>, idx: int, key: Seq<char>, nv: JsonV) -> JsonV
    decreases pp.len(),
{
    if pp.len() == 0 {
        insert_child(v, idx, key, nv)
    } else {
        with_child_replaced(v, pp[0], after_insert(child_at(v, pp[0]), pp.drop_first(), idx, key, nv))
    }
}

/// The tree after replacing the child at position `idx` of the container
/// that the path `pp` leads to; everything off that path is untouched.
pub open spec fn after_update(v: JsonV, pp: Seq<int>, idx: int, key: Seq<char>, nv: JsonV) -> JsonV
    decreases pp.len(),
{
    if pp.len() == 0 {
        update_child(v, idx, key, nv)
    } else {
        with_child_replaced(v, pp[0], after_update(child_at(v, pp[0]), pp.drop_first(), idx, key, nv))
    }
}

/// A valid path stays valid with its last step removed, the node there is
/// the parent container, and the removed step indexes one of its children.
pub proof fn lemma_path_ok_drop_last(v: JsonV, p: Seq<int>)
    requires
        p.len() >= 1,
        path_ok(v, p),
    ensures
        path_ok(v, p.drop_last()),
        node_at(v, p.drop_last()).is_container(),
        0 <= p.last() < child_count(node_at(v, p.drop_last())),
        node_at(v, p) == child_at(node_at(v, p.drop_last()), p.last()),
    decreases p.len(),
{
    if p.len() == 1 {
        assert(p.drop_last() =~= Seq::<int>::empty());
        assert(p.drop_first() =~= Seq::<int>::empty());
        assert(node_at(v, p) == node_at(child_at(v, p[0]), p.drop_first()));
        assert(node_at(v, p) == child_at(v, p[0]));
    } else {
        let child = child_at(v, p[0]);
        let q = p.drop_first();
        assert(path_ok(child, q));
        lemma_path_ok_drop_last(child, q);
        assert(q.drop_last() =~= p.drop_last().drop_first());
        assert(p.drop_last()[0] == p[0]);
        assert(p.drop_last().len() >= 1);
        assert(q.last() == p.last());
        assert(path_ok(child, p.drop_last().drop_first()));
        assert(path_ok(v, p.drop_last()));
        assert(node_at(v, p.drop_last()) == node_at(child, p.drop_last().drop_first()));
        assert(node_at(v, p.drop_last()) == node_at(child, q.drop_last()));
        assert(node_at(v, p) == node_at(child, q));
    }
}

/// View of inserting into the entries of an object commutes with the view.
proof fn lemma_view_fields_insert(fs: Seq<(String, JsonValue)>, i: int, e: (String, JsonValue))
    requires
        0 <= i <= fs.len(),
    ensures
        JsonValue::view_fields(fs.insert(i, e)) == JsonValue::view_fields(fs).insert(
            i,
            (e.0@, e.1@),
        ),
{
    lemma_view_fields(fs);
    lemma_view_fields(fs.insert(i, e));
    fs.insert_ensures(i, e);
    JsonValue::view_fields(fs).insert_ensures(i, (e.0@, e.1@));
    let lhs = JsonValue::view_fields(fs.insert(i, e));
    let rhs = JsonValue::view_fields(fs).insert(i, (e.0@, e.1@));
    assert forall|x: int| 0 <= x < fs.len() + 1 implies lhs[x] == rhs[x] by {
        assert(lhs[x] == (fs.insert(i, e)[x].0@, fs.insert(i, e)[x].1@));
        if x < i {
            assert(fs.insert(i, e)[x] == fs[x]);
            assert(JsonValue::view_fields(fs)[x] == (fs[x].0@, fs[x].1@));
        } else if x == i {
            assert(fs.insert(i, e)[x] == e);
        } else {
            assert(fs.insert(i, e)[x] == fs[x - 1]);
            assert(JsonValue::view_fields(fs)[x - 1] == (fs[x - 1].0@, fs[x - 1].1@));
        }
    }
    assert(lhs =~= rhs);
}

proof fn lemma_view_elems_insert(es: Seq<JsonValue>, i: int, e: JsonValue)
    requires
        0 <= i <= es.len(),
    ensures
        JsonValue::view_elems(es.insert(i, e)) == JsonValue::view_elems(es).insert(i, e@),
{
    lemma_view_elems(es);
    lemma_view_elems(es.insert(i, e));
    es.insert_ensures(i, e);
    JsonValue::view_elems(es).insert_ensures(i, e@);
    let lhs = JsonValue::view_elems(es.insert(i, e));
    let rhs = JsonValue::view_elems(es).insert(i, e@);
    assert forall|x: int| 0 <= x < es.len() + 1 implies lhs[x] == rhs[x] by {
        assert(lhs[x] == es.insert(i, e)[x]@);
        if x < i {
            assert(es.insert(i, e)[x] == es[x]);
            assert(JsonValue::view_elems(es)[x] == es[x]@);
        } else if x == i {
            assert(es.insert(i, e)[x] == e);
        } else {
            assert(es.insert(i, e)[x] == es[x - 1]);
            assert(JsonValue::view_elems(es)[x - 1] == es[x - 1]@);
        }
    }
    assert(lhs =~= rhs);
}

proof fn lemma_view_fields_update(fs: Seq<(String, JsonValue)>, i: int, e: (String, JsonValue))
    requires
        0 <= i < fs.len(),
    ensures
        JsonValue::view_fields(fs.update(i, e)) == JsonValue::view_fields(fs).update(
            i,
            (e.0@, e.1@),
        ),
{
    lemma_view_fields(fs);
    lemma_view_fields(fs.update(i, e));
    let lhs = JsonValue::view_fields(fs.update(i, e));
    let rhs = JsonValue::view_fields(fs).update(i, (e.0@, e.1@));
    assert forall|x: int| 0 <= x < fs.len() implies lhs[x] == rhs[x] by {
        assert(lhs[x] == (fs.update(i, e)[x].0@, fs.update(i, e)[x].1@));
        if x != i {
            assert(fs.update(i, e)[x] == fs[x]);
            assert(JsonValue::view_fields(fs)[x] == (fs[x].0@, fs[x].1@));
        }
    }
    assert(lhs =~= rhs);
}

proof fn lemma_view_elems_update(es: Seq<JsonValue>, i: int, e: JsonValue)
    requires
        0 <= i < es.len(),
    ensures
        JsonValue::view_elems(es.update(i, e)) == JsonValue::view_elems(es).update(i, e@),
{
    lemma_view_elems(es);
    lemma_view_elems(es.update(i, e));
    let lhs = JsonValue::view_elems(es.update(i, e));
    let rhs = JsonValue::view_elems(es).update(i, e@);
    assert forall|x: int| 0 <= x < es.len() implies lhs[x] == rhs[x] by {
        assert(lhs[x] == es.update(i, e)[x]@);
        if x != i {
            assert(es.update(i, e)[x] == es[x]);
            assert(JsonValue::view_elems(es)[x] == es[x]@);
        }
    }
    assert(lhs =~= rhs);
}

/// Applies one edit at the container the path leads to, walking from `pos`:
/// replaces the child at `idx`, or inserts a new child just after `idx`.
#[verifier::rlimit(60)]
fn apply_edit(
    v: JsonValue,
    pp: &Vec<usize>,
    pos: usize,
    idx: usize,
    key: String,
    nv: JsonValue,
    replace: bool,
) -> (r: JsonValue)
    requires
        pos <= pp@.len(),
        path_ok(v@, path_view(pp@).skip(pos as int)),
        node_at(v@, path_view(pp@).skip(pos as int)).is_container(),
        idx < child_count(node_at(v@, path_view(pp@).skip(pos as int))),
    ensures
        r@ == if replace {
            after_update(v@, path_view(pp@).skip(pos as int), idx as int, key@, nv@)
        } else {
            after_insert(v@, path_view(pp@).skip(pos as int), idx + 1, key@, nv@)
        },
    decreases pp@.len() - pos,
{
    let ghost sp = path_view(pp@).skip(pos as int);
    let plen = pp.len();
    if pos == plen {
        proof {
            assert(sp.len() == 0);
            assert(node_at(v@, sp) == v@);
        }
        match v {
            JsonValue::Object(mut fs) => {
                let ghost gfs = JsonValue::view_fields(fs@);
                proof {
                    lemma_view_fields(fs@);
                    assert(child_count(v@) == gfs.len());
                }
                let n = fs.len();
                proof {
                    assert(idx < n);
                }
                if replace {
                    proof {
                        lemma_view_fields_update(fs@, idx as int, (key, nv));
                    }
                    fs.set(idx, (key, nv));
                    JsonValue::Object(fs)
                } else {
                    proof {
                        lemma_view_fields_insert(fs@, idx + 1, (key, nv));
                    }
                    fs.insert(idx + 1, (key, nv));
                    JsonValue::Object(fs)
                }
            },
            JsonValue::Array(mut es) => {
                let ghost ges = JsonValue::view_elems(es@);
                proof {
                    lemma_view_elems(es@);
                    assert(child_count(v@) == ges.len());
                }
                let n = es.len();
                proof {
                    assert(idx < n);
                }
                if replace {
                    proof {
                        lemma_view_elems_update(es@, idx as int, nv);
                    }
                    es.set(idx, nv);
                    JsonValue::Array(es)
                } else {
                    proof {
                        lemma_view_elems_insert(es@, idx + 1, nv);
                    }
                    es.insert(idx + 1, nv);
                    JsonValue::Array(es)
                }
            },
            _ => {
                proof {
                    assert(false);
                }
                v
            },
        }
    } else {
        let j = pp[pos];
        proof {
            assert(sp[0] == pp@[pos as int] as int);
            assert(sp.drop_first() =~= path_view(pp@).skip(pos as int + 1));
        }
        match v {
            JsonValue::Object(mut fs) => {
                let ghost fs0 = fs@;
                let ghost gfs = JsonValue::view_fields(fs@);
                proof {
                    lemma_view_fields(fs@);
                    assert(child_count(v@) == gfs.len());
                    assert(gfs[j as int] == (fs0[j as int].0@, fs0[j as int].1@));
                    assert(child_at(v@, j as int) == gfs[j as int].1);
                }
                let entry = fs.remove(j);
                let (k0, child) = entry;
                let newchild = apply_edit(child, pp, pos + 1, idx, key, nv, replace);
                fs.insert(j, (k0, newchild));
                proof {
                    fs0.remove_ensures(j as int);
                    fs0.remove(j as int).insert_ensures(j as int, (k0, newchild));
                    assert(fs@ =~= fs0.update(j as int, (k0, newchild)));
                    lemma_view_fields_update(fs0, j as int, (k0, newchild));
                    assert(JsonValue::view_fields(fs@) == gfs.update(
                        j as int,
                        (gfs[j as int].0, newchild@),
                    ));
                }
                JsonValue::Object(fs)
            },
            JsonValue::Array(mut es) => {
                let ghost es0 = es@;
                let ghost ges = JsonValue::view_elems(es@);
                proof {
                    lemma_view_elems(es@);
                    assert(child_count(v@) == ges.len());
                    assert(ges[j as int] == es0[j as int]@);
                    assert(child_at(v@, j as int) == ges[j as int]);
                }
                let child = es.remove(j);
                let newchild = apply_edit(child, pp, pos + 1, idx, key, nv, replace);
                es.insert(j, newchild);
                proof {
                    es0.remove_ensures(j as int);
                    es0.remove(j as int).insert_ensures(j as int, newchild);
                    assert(es@ =~= es0.update(j as int, newchild));
                    lemma_view_elems_update(es0, j as int, newchild);
                    assert(JsonValue::view_elems(es@) == ges.update(j as int, newchild@));
                }
                JsonValue::Array(es)
            },
            _ => {
                proof {
                    assert(false);
                }
                v
            },
        }
    }
}

/// Whether the node at `pp` in `v` is an array.
fn parent_is_array(v: &JsonValue, pp: &Vec<usize>, pos: usize) -> (r: bool)
    requires
        pos <= pp@.len(),
        path_ok(v@, path_view(pp@).skip(pos as int)),
    ensures
        r == (node_at(v@, path_view(pp@).skip(pos as int)) is Arr),
    decreases pp@.len() - pos,
{
    let ghost sp = path_view(pp@).skip(pos as int);
    let plen = pp.len();
    if pos == plen {
        proof {
            assert(sp.len() == 0);
        }
        match v {
            JsonValue::Array(_) => true,
            _ => false,
        }
    } else {
        let j = pp[pos];
        proof {
            assert(sp[0] == pp@[pos as int] as int);
            assert(sp.drop_first() =~= path_view(pp@).skip(pos as int + 1));
        }
        match v {
            JsonValue::Object(fs) => {
                proof {
                    lemma_view_fields(fs@);
                    assert(JsonValue::view_fields(fs@)[j as int] == (
                    fs@[j as int].0@,
                    fs@[j as int].1@,
                    ));
                }
                parent_is_array(&fs[j].1, pp, pos + 1)
            },
            JsonValue::Array(es) => {
                proof {
                    lemma_view_elems(es@);
                    assert(JsonValue::view_elems(es@)[j as int] == es@[j as int]@);
                }
                parent_is_array(&es[j], pp, pos + 1)
            },
            _ => {
                proof {
                    assert(false);
                }
                false
            },
        }
    }
}

/// Whether the container holding the node shown at `target_row` is an
/// array — which decides whether an edit there asks for a value only, or
/// for a key and a value. `false` when the row is out of bounds.
pub fn is_container_array(target_row: usize, json: &JsonValue) -> (r: bool)
    requires
        json@.is_container(),
    ensures
        r == (target_row < rcount_children(json@) && node_at(
            json@,
            row_path(json@, target_row as int).drop_last(),
        ) is Arr),
{
    let (pp_opt, idx) = get_nested_object_to_insert_into(target_row, json);
    match pp_opt {
        Option::Some(pp) => {
            proof {
                let full = path_view(pp@).push(idx as int);
                lemma_path_ok_drop_last(json@, full);
                assert(full.drop_last() =~= path_view(pp@));
                assert(path_view(pp@).skip(0) =~= path_view(pp@));
            }
            parent_is_array(json, &pp, 0)
        },
        Option::None => false,
    }
}

/// When an edit at `target_row` with the given key and value texts is
/// accepted: the row must exist, the value text must be non-empty, and under
/// an object parent the key text must be non-empty too.
pub open spec fn edit_allowed(root: JsonV, row: int, key: Seq<char>, value: Seq<char>) -> bool {
    let parent = node_at(root, row_path(root, row).drop_last());
    &&& 0 <= row < rcount_children(root)
    &&& value.len() > 0
    &&& (parent is Obj ==> key.len() > 0)
}

/// Inserts a new entry immediately after the node shown at `target_row`:
/// under an object parent a key/value pair, under an array parent the
/// coerced value alone (`null` is not available to inserts). Rejected edits
/// (out-of-range row, missing key or value text) leave the tree untouched
/// and return false.
pub fn insert_after(
    target_row: usize,
    key_text: &str,
    value_text: &str,
    json: &mut JsonValue,
) -> (changed: bool)
    requires
        old(json)@.is_container(),
    ensures
        changed == edit_allowed(old(json)@, target_row as int, key_text@, value_text@),
        changed ==> final(json)@ == after_insert(
            old(json)@,
            row_path(old(json)@, target_row as int).drop_last(),
            row_path(old(json)@, target_row as int).last() + 1,
            key_text@,
            coerce_spec(value_text@, false),
        ),
        !changed ==> final(json)@ == old(json)@,
{
    let (pp_opt, idx) = get_nested_object_to_insert_into(target_row, json);
    match pp_opt {
        Option::Some(pp) => {
            let ghost full = path_view(pp@).push(idx as int);
            proof {
                lemma_path_ok_drop_last(json@, full);
                assert(full.drop_last() =~= path_view(pp@));
                assert(full.last() == idx as int);
                assert(path_view(pp@).skip(0) =~= path_view(pp@));
            }
            let in_arr = parent_is_array(json, &pp, 0);
            if in_arr {
                if value_text.is_empty() {
                    return false;
                }
            } else {
                if key_text.is_empty() || value_text.is_empty() {
                    return false;
                }
            }
            let nv = coerce_value(value_text, false);
            let key_owned = key_text.to_owned();
            let mut tmp = JsonValue::Null;
            core::mem::swap(json, &mut tmp);
            let out = apply_edit(tmp, &pp, 0, idx, key_owned, nv, false);
            *json = out;
            true
        },
        Option::None => false,
    }
}

/// Replaces the node shown at `target_row` with the coerced value; under an
/// object parent the entry's key is replaced by the key text at the same
/// position in the entry order (`null` is available to updates). Rejected
/// edits leave the tree untouched and return false.
pub fn update_at(
    target_row: usize,
    key_text: &str,
    value_text: &str,
    json: &mut JsonValue,
) -> (changed: bool)
    requires
        old(json)@.is_container(),
    ensures
        changed == edit_allowed(old(json)@, target_row as int, key_text@, value_text@),
        changed ==> final(json)@ == after_update(
            old(json)@,
            row_path(old(json)@, target_row as int).drop_last(),
            row_path(old(json)@, target_row as int).last(),
            key_text@,
            coerce_spec(value_text@, true),
        ),
        !changed ==> final(json)@ == old(json)@,
{
    let (pp_opt, idx) = get_nested_object_to_insert_into(target_row, json);
    match pp_opt {
        Option::Some(pp) => {
            let ghost full = path_view(pp@).push(idx as int);
            proof {
                lemma_path_ok_drop_last(json@, full);
                assert(full.drop_last() =~= path_view(pp@));
                assert(full.last() == idx as int);
                assert(path_view(pp@).skip(0) =~= path_view(pp@));
            }
            let in_arr = parent_is_array(json, &pp, 0);
            if in_arr {
                if value_text.is_empty() {
                    return false;
                }
            } else {
                if key_text.is_empty() || value_text.is_empty() {
                    return false;
                }
            }
            let nv = coerce_value(value_text, true);
            let key_owned = key_text.to_owned();
            let mut tmp = JsonValue::Null;
            core::mem::swap(json, &mut tmp);
            let out = apply_edit(tmp, &pp, 0, idx, key_owned, nv, true);
            *json = out;
            true
        },
        Option::None => false,
    }
}

/// Law: order preservation. Inserting a new entry just after position `k`
/// of an object keeps entries up to `k` in place, puts the new key at
/// position `k + 1`, shifts every later entry by exactly one — so no two
/// old entries change their relative order — and the flattened rows then
/// show the new entry at its path's row index. Inserting after the last
/// entry of an object of size `n` thus puts the new key at position `n`.
pub proof fn lemma_insert_order_preservation(
    obj: JsonV,
    k: int,
    key: Seq<char>,
    nv: JsonV,
    depth: nat,
)
    requires
        obj is Obj,
        0 <= k < child_count(obj),
    ensures
        ({
            let newobj = insert_child(obj, k + 1, key, nv);
            &&& child_count(newobj) == child_count(obj) + 1
            &&& child_key(newobj, k + 1) == key
            &&& child_at(newobj, k + 1) == nv
            &&& forall|i: int|
                0 <= i <= k ==> #[trigger] child_at(newobj, i) == child_at(obj, i) && child_key(
                    newobj,
                    i,
                ) == child_key(obj, i)
            &&& forall|i: int|
                k + 1 < i < child_count(obj) + 1 ==> #[trigger] child_at(newobj, i) == child_at(
                    obj,
                    i - 1,
                ) && child_key(newobj, i) == child_key(obj, i - 1)
            &&& rows_of_children(newobj, depth)[row_index_of(newobj, seq![k + 1])] == own_row(
                nv,
                key,
                depth,
            )
        }),
{
    let fs = obj->Obj_0;
    fs.insert_ensures(k + 1, (key, nv));
    let newobj = insert_child(obj, k + 1, key, nv);
    let p = seq![k + 1];
    assert(p.drop_first() =~= Seq::<int>::empty());
    assert(path_ok(child_at(newobj, k + 1), p.drop_first()));
    assert(path_ok(newobj, p));
    lemma_path_row(newobj, p, depth);
    assert(node_at(newobj, p) == node_at(child_at(newobj, k + 1), p.drop_first()));
    assert(node_at(newobj, p) == nv);
    assert(key_opt_at(newobj, p) == Option::Some(key));
    assert((depth + p.len() - 1) as nat == depth);
}

} // verus!
