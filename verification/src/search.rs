//! The search index: a case-insensitive substring scan over the flattened
//! rows. A row matches when its key or its displayed value contains the
//! query; each matching row is recorded once, in row order. Navigation picks
//! the nearest match strictly after or strictly before the cursor and does
//! not wrap.

use vstd::prelude::*;

use crate::tree::JsonV;
use crate::tree::JsonValue;
use crate::tree::RowV;
use crate::tree::ValuePair;
use crate::flatten::rows_view;

verus! {

/// The result of Unicode lowercasing; it depends on the characters alone.
pub uninterp spec fn lower_of(s: Seq<char>) -> Seq<char>;

/// Relies on str::to_lowercase: the result is a function of the characters
/// alone, and an empty text stays empty.
#[verifier::external_body]
fn lowercase(s: &str) -> (r: String)
    ensures
        r@ == lower_of(s@),
        s@.len() == 0 ==> r@.len() == 0,
{
    s.to_lowercase()
}

/// `needle` occurs contiguously somewhere in `hay`.
pub open spec fn contains_sub(hay: Seq<char>, needle: Seq<char>) -> bool {
    exists|k: int|
        0 <= k <= hay.len() - needle.len() && #[trigger] hay.subrange(k, k + needle.len())
            =~= needle
}

/// Substring scan: whether `needle` occurs in `hay`.
fn str_contains(hay: &str, needle: &str) -> (r: bool)
    ensures
        r == contains_sub(hay@, needle@),
{
    let nh = hay.unicode_len();
    let nn = needle.unicode_len();
    if nn > nh {
        proof {
            assert(!contains_sub(hay@, needle@));
        }
        return false;
    }
    let mut k: usize = 0;
    while k <= nh - nn
        invariant
            nh == hay@.len(),
            nn == needle@.len(),
            nn <= nh,
            k <= nh - nn + 1,
            forall|x: int|
                0 <= x < k ==> !(#[trigger] hay@.subrange(x, x + needle@.len()) =~= needle@),
        decreases nh - nn + 1 - k,
    {
        let mut j: usize = 0;
        let mut all_eq = true;
        while j < nn
            invariant
                nh == hay@.len(),
                nn == needle@.len(),
                k + nn <= nh,
                j <= nn,
                all_eq ==> forall|y: int| 0 <= y < j ==> hay@[k + y] == needle@[y],
                !all_eq ==> !(hay@.subrange(k as int, k + needle@.len()) =~= needle@),
            ensures
                all_eq ==> forall|y: int| 0 <= y < nn ==> hay@[k + y] == needle@[y],
                !all_eq ==> !(hay@.subrange(k as int, k + needle@.len()) =~= needle@),
            decreases nn - j,
        {
            if hay.get_char(k + j) != needle.get_char(j) {
                proof {
                    assert(hay@.subrange(k as int, k + needle@.len())[j as int] != needle@[j as int]);
                }
                all_eq = false;
                break ;
            }
            j += 1;
        }
        if all_eq {
            proof {
                assert forall|y: int| 0 <= y < needle@.len() implies hay@.subrange(
                    k as int,
                    k + needle@.len(),
                )[y] == needle@[y] by {
                    assert(hay@[k + y] == needle@[y]);
                }
                assert(hay@.subrange(k as int, k + needle@.len()) =~= needle@);
            }
            return true;
        }
        k += 1;
    }
    proof {
        assert forall|x: int| 0 <= x <= hay@.len() - needle@.len() implies !(#[trigger] hay@.subrange(
            x,
            x + needle@.len(),
        ) =~= needle@) by {
            assert(0 <= x < k);
        }
    }
    false
}

/// The text a scalar is displayed as: `null`, `true`/`false`, the number's
/// literal, or the string in quotes. Containers display as nothing.
pub open spec fn scalar_display(v: JsonV) -> Seq<char> {
    match v {
        JsonV::Null => "null"@,
        JsonV::Bool(b) => if b {
            "true"@
        } else {
            "false"@
        },
        JsonV::Num(t) => t,
        JsonV::Str(s) => seq!['"'] + s + seq!['"'],
        _ => Seq::empty(),
    }
}

/// The display text of a scalar value.
pub fn scalar_display_text(v: &JsonValue) -> (r: String)
    ensures
        r@ == scalar_display(v@),
{
    match v {
        JsonValue::Null => "null".to_owned(),
        JsonValue::Bool(b) => if *b {
            "true".to_owned()
        } else {
            "false".to_owned()
        },
        JsonValue::Num(t) => t.clone(),
        JsonValue::Str(s) => {
            let quoted = String::from_str("\"").concat(s.as_str()).concat("\"");
            proof {
                reveal_strlit("\"");
                assert("\""@ =~= seq!['"']);
            }
            quoted
        },
        JsonValue::Array(_) => {
            proof {
                assert(scalar_display(v@) =~= Seq::<char>::empty());
            }
            String::new()
        },
        JsonValue::Object(_) => {
            proof {
                assert(scalar_display(v@) =~= Seq::<char>::empty());
            }
            String::new()
        },
    }
}

/// The text a scalar offers for editing: as `scalar_display`, but the string
/// itself without quotes.
pub open spec fn scalar_edit(v: JsonV) -> Seq<char> {
    match v {
        JsonV::Str(s) => s,
        _ => scalar_display(v),
    }
}

/// The editable text of a scalar value.
pub fn scalar_edit_text(v: &JsonValue) -> (r: String)
    ensures
        r@ == scalar_edit(v@),
{
    match v {
        JsonValue::Str(s) => s.clone(),
        _ => scalar_display_text(v),
    }
}

/// A row matches the lowered query `lq` when its lowered key or its lowered
/// display text contains `lq`.
pub open spec fn row_matches(row: RowV, lq: Seq<char>) -> bool {
    ||| contains_sub(lower_of(row.key), lq)
    ||| match row.value {
        Option::Some(s) => contains_sub(lower_of(scalar_display(s)), lq),
        Option::None => false,
    }
}

/// The indices below `n` of the rows that match, in row order.
pub open spec fn matches_upto(rows: Seq<RowV>, lq: Seq<char>, n: int) -> Seq<int>
    decreases n,
{
    if n <= 0 {
        Seq::empty()
    } else {
        matches_upto(rows, lq, n - 1) + if row_matches(rows[n - 1], lq) {
            seq![n - 1]
        } else {
            Seq::empty()
        }
    }
}

/// All matching row indices, in row order.
pub open spec fn matches_of(rows: Seq<RowV>, lq: Seq<char>) -> Seq<int> {
    matches_upto(rows, lq, rows.len() as int)
}

/// A sequence of row indices, as the mathematical sequence it denotes.
pub open spec fn indices_view(s: Seq<usize>) -> Seq<int> {
    s.map_values(|u: usize| u as int)
}

/// Match indices are strictly increasing and lie below `n`; an index is
/// recorded exactly when its row matches.
pub proof fn lemma_matches_upto(rows: Seq<RowV>, lq: Seq<char>, n: int)
    ensures
        forall|i: int, j: int|
            0 <= i < j < matches_upto(rows, lq, n).len() ==> #[trigger] matches_upto(
                rows,
                lq,
                n,
            )[i] < #[trigger] matches_upto(rows, lq, n)[j],
        forall|i: int|
            0 <= i < matches_upto(rows, lq, n).len() ==> 0 <= #[trigger] matches_upto(
                rows,
                lq,
                n,
            )[i] < n,
        forall|k: int|
            0 <= k < n ==> (row_matches(rows[k], lq) <==> matches_upto(rows, lq, n).contains(k)),
    decreases n,
{
    if n > 0 {
        lemma_matches_upto(rows, lq, n - 1);
        let prev = matches_upto(rows, lq, n - 1);
        let cur = matches_upto(rows, lq, n);
        assert forall|k: int| 0 <= k < n implies (row_matches(rows[k], lq) <==> cur.contains(
            k,
        )) by {
            if k < n - 1 {
                if prev.contains(k) {
                    let i = choose|i: int| 0 <= i < prev.len() && prev[i] == k;
                    assert(cur[i] == k);
                    assert(cur.contains(k));
                }
                if cur.contains(k) {
                    let i = choose|i: int| 0 <= i < cur.len() && cur[i] == k;
                    assert(i < prev.len());
                    assert(prev.contains(k));
                }
            } else {
                if row_matches(rows[k], lq) {
                    assert(cur[cur.len() - 1] == k);
                    assert(cur.contains(k));
                }
                if cur.contains(k) {
                    let i = choose|i: int| 0 <= i < cur.len() && cur[i] == k;
                    assert(i == cur.len() - 1 || prev[i] == k);
                }
            }
        }
    }
}

/// Scans the rows and records, in row order, each row whose key or value
/// contains the query, comparing case-insensitively; a row is recorded once
/// even when both its key and its value match.
pub fn recompute_matches(pairs: &Vec<ValuePair>, query: &str) -> (m: Vec<usize>)
    ensures
        indices_view(m@) == matches_of(rows_view(pairs@), lower_of(query@)),
        forall|i: int| 0 <= i < m@.len() ==> #[trigger] m@[i] < pairs@.len(),
    decreases pairs@.len(),
{
    let lq = lowercase(query);
    let ghost glq = lower_of(query@);
    let ghost rows = rows_view(pairs@);
    let mut m: Vec<usize> = Vec::new();
    let mut i: usize = 0;
    while i < pairs.len()
        invariant
            rows == rows_view(pairs@),
            rows.len() == pairs@.len(),
            lq@ == glq,
            i <= pairs@.len(),
            indices_view(m@) == matches_upto(rows, glq, i as int),
            forall|x: int| 0 <= x < m@.len() ==> #[trigger] m@[x] < pairs@.len(),
        decreases pairs@.len() - i,
    {
        let key_lower = lowercase(pairs[i].key.as_str());
        let mut hit = str_contains(key_lower.as_str(), lq.as_str());
        if !hit {
            match &pairs[i].value {
                Option::Some(v) => {
                    let shown = scalar_display_text(v);
                    let shown_lower = lowercase(shown.as_str());
                    hit = str_contains(shown_lower.as_str(), lq.as_str());
                },
                Option::None => {},
            }
        }
        proof {
            assert(rows[i as int] == pairs@[i as int]@);
        }
        if hit {
            m.push(i);
            proof {
                assert(indices_view(m@) =~= matches_upto(rows, glq, i as int) + seq![i as int]);
            }
        }
        proof {
            assert(matches_upto(rows, glq, i + 1 as int) == matches_upto(rows, glq, i as int) + (
            if row_matches(rows[i as int], glq) {
                seq![i as int]
            } else {
                Seq::<int>::empty()
            }));
            if !row_matches(rows[i as int], glq) {
                assert(indices_view(m@) =~= matches_upto(rows, glq, i as int));
            }
        }
        i += 1;
    }
    m
}

/// The first recorded match strictly after `from_row`, scanning the matches
/// in order; `None` when there is none — search does not wrap.
pub fn next_match(matches: &Vec<usize>, from_row: usize) -> (r: Option<usize>)
    ensures
        match r {
            Option::Some(m) => exists|i: int|
                0 <= i < matches@.len() && matches@[i] == m && m > from_row && forall|j: int|
                    0 <= j < i ==> #[trigger] matches@[j] <= from_row,
            Option::None => forall|j: int|
                0 <= j < matches@.len() ==> #[trigger] matches@[j] <= from_row,
        },
{
    let mut i: usize = 0;
    while i < matches.len()
        invariant
            i <= matches@.len(),
            forall|j: int| 0 <= j < i ==> #[trigger] matches@[j] <= from_row,
        decreases matches@.len() - i,
    {
        let m = matches[i];
        if from_row < m {
            return Option::Some(m);
        }
        i += 1;
    }
    Option::None
}

/// The first recorded match strictly before `from_row`, scanning the
/// matches in reverse order; `None` when there is none — search does not
/// wrap.
pub fn prev_match(matches: &Vec<usize>, from_row: usize) -> (r: Option<usize>)
    ensures
        match r {
            Option::Some(m) => exists|i: int|
                0 <= i < matches@.len() && matches@[i] == m && m < from_row && forall|j: int|
                    i < j < matches@.len() ==> #[trigger] matches@[j] >= from_row,
            Option::None => forall|j: int|
                0 <= j < matches@.len() ==> #[trigger] matches@[j] >= from_row,
        },
{
    let mut i: usize = matches.len();
    while i > 0
        invariant
            i <= matches@.len(),
            forall|j: int| i <= j < matches@.len() ==> #[trigger] matches@[j] >= from_row,
        decreases i,
    {
        i -= 1;
        let m = matches[i];
        if m < from_row {
            return Option::Some(m);
        }
    }
    Option::None
}

} // verus!
