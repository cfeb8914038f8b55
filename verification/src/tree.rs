//! The JSON tree that the document holds, and the display rows produced from
//! it. Objects keep their entries in insertion order, so they are stored as a
//! sequence of key/value pairs. Numbers are kept in their literal text form;
//! nothing in the document model computes with them.

use vstd::prelude::*;

verus! {

/// Mathematical model of a JSON value. Object entries are ordered; a number
/// is the sequence of characters of its literal.
pub ghost enum JsonV {
    Null,
    Bool(bool),
    Num(Seq<char>),
    Str(Seq<char>),
    Arr(Seq<JsonV>),
    Obj(Seq<(Seq<char>, JsonV)>),
}

/// A JSON value. `Object` keeps entries in insertion order; `Num` holds the
/// number's literal text, which is all the document model ever reads of it.
#[derive(Debug, PartialEq)]
pub enum JsonValue {
    Null,
    Bool(bool),
    Num(String),
    Str(String),
    Array(Vec<JsonValue>),
    Object(Vec<(String, JsonValue)>),
}

impl View for JsonValue {
    type V = JsonV;

    open spec fn view(&self) -> JsonV
        decreases self, 1int,
    {
        match self {
            JsonValue::Null => JsonV::Null,
            JsonValue::Bool(b) => JsonV::Bool(*b),
            JsonValue::Num(t) => JsonV::Num(t@),
            JsonValue::Str(s) => JsonV::Str(s@),
            JsonValue::Array(es) => JsonV::Arr(JsonValue::view_elems(es@)),
            JsonValue::Object(fs) => JsonV::Obj(JsonValue::view_fields(fs@)),
        }
    }
}

impl JsonValue {
    pub open spec fn view_elems(es: Seq<JsonValue>) -> Seq<JsonV>
        decreases es, 0int,
    {
        if es.len() == 0 {
            Seq::empty()
        } else {
            seq![es[0]@] + JsonValue::view_elems(es.drop_first())
        }
    }

    pub open spec fn view_fields(fs: Seq<(String, JsonValue)>) -> Seq<(Seq<char>, JsonV)>
        decreases fs, 0int,
    {
        if fs.len() == 0 {
            Seq::empty()
        } else {
            seq![(fs[0].0@, fs[0].1@)] + JsonValue::view_fields(fs.drop_first())
        }
    }
}

/// `view_elems` maps the element views pointwise.
pub proof fn lemma_view_elems(es: Seq<JsonValue>)
    ensures
        JsonValue::view_elems(es).len() == es.len(),
        forall|i: int| 0 <= i < es.len() ==> JsonValue::view_elems(es)[i] == #[trigger] es[i]@,
    decreases es.len(),
{
    if es.len() > 0 {
        lemma_view_elems(es.drop_first());
        assert forall|i: int| 0 <= i < es.len() implies JsonValue::view_elems(es)[i]
            == #[trigger] es[i]@ by {
            if i > 0 {
                assert(JsonValue::view_elems(es) == seq![es[0]@]
                    + JsonValue::view_elems(es.drop_first()));
                assert(seq![es[0]@].len() == 1);
                assert(JsonValue::view_elems(es)[i] == JsonValue::view_elems(es.drop_first())[i
                    - 1]);
                assert(es.drop_first()[i - 1] == es[i]);
            }
        }
    }
}

/// `view_fields` maps the key and value views pointwise.
pub proof fn lemma_view_fields(fs: Seq<(String, JsonValue)>)
    ensures
        JsonValue::view_fields(fs).len() == fs.len(),
        forall|i: int| 0 <= i < fs.len() ==> JsonValue::view_fields(fs)[i] == (
        #[trigger] fs[i].0@,
        fs[i].1@,
        ),
    decreases fs.len(),
{
    if fs.len() > 0 {
        lemma_view_fields(fs.drop_first());
        assert forall|i: int| 0 <= i < fs.len() implies JsonValue::view_fields(fs)[i] == (
        #[trigger] fs[i].0@,
        fs[i].1@,
        ) by {
            if i > 0 {
                assert(JsonValue::view_fields(fs) == seq![(fs[0].0@, fs[0].1@)]
                    + JsonValue::view_fields(fs.drop_first()));
                assert(seq![(fs[0].0@, fs[0].1@)].len() == 1);
                assert(JsonValue::view_fields(fs)[i] == JsonValue::view_fields(fs.drop_first())[i
                    - 1]);
                assert(fs.drop_first()[i - 1] == fs[i]);
            }
        }
    }
}

impl JsonV {
    /// A container is an object or an array; everything else is a scalar.
    pub open spec fn is_container(self) -> bool {
        self is Arr || self is Obj
    }

    pub open spec fn is_scalar(self) -> bool {
        !self.is_container()
    }

    /// Nesting depth of the value: scalars have height 0, containers one more
    /// than their deepest child. Serves as a termination and depth measure.
    pub open spec fn height(self) -> nat
        decreases self, 1int,
    {
        match self {
            JsonV::Arr(es) => 1 + JsonV::height_elems(es),
            JsonV::Obj(fs) => 1 + JsonV::height_fields(fs),
            _ => 0,
        }
    }

    pub open spec fn height_elems(es: Seq<JsonV>) -> nat
        decreases es, 0int,
    {
        if es.len() == 0 {
            0
        } else {
            let h0 = es[0].height();
            let hr = JsonV::height_elems(es.drop_first());
            if h0 >= hr {
                h0
            } else {
                hr
            }
        }
    }

    pub open spec fn height_fields(fs: Seq<(Seq<char>, JsonV)>) -> nat
        decreases fs, 0int,
    {
        if fs.len() == 0 {
            0
        } else {
            let h0 = fs[0].1.height();
            let hr = JsonV::height_fields(fs.drop_first());
            if h0 >= hr {
                h0
            } else {
                hr
            }
        }
    }
}

/// Every array element sits strictly below its array.
pub proof fn lemma_height_elem(es: Seq<JsonV>, j: int)
    requires
        0 <= j < es.len(),
    ensures
        es[j].height() < JsonV::Arr(es).height(),
    decreases es.len(),
{
    if j > 0 {
        lemma_height_elem(es.drop_first(), j - 1);
        assert(es.drop_first()[j - 1] == es[j]);
        assert(JsonV::height_elems(es.drop_first()) <= JsonV::height_elems(es));
    }
}

/// Every object entry's value sits strictly below its object.
pub proof fn lemma_height_field(fs: Seq<(Seq<char>, JsonV)>, j: int)
    requires
        0 <= j < fs.len(),
    ensures
        fs[j].1.height() < JsonV::Obj(fs).height(),
    decreases fs.len(),
{
    if j > 0 {
        lemma_height_field(fs.drop_first(), j - 1);
        assert(fs.drop_first()[j - 1] == fs[j]);
        assert(JsonV::height_fields(fs.drop_first()) <= JsonV::height_fields(fs));
    }
}

impl JsonValue {
    /// Whether this value is an object or an array.
    pub fn is_container(&self) -> (r: bool)
        ensures
            r == self@.is_container(),
    {
        match self {
            JsonValue::Array(_) => true,
            JsonValue::Object(_) => true,
            _ => false,
        }
    }
}

impl JsonValue {
    /// Structural copy: the copy has exactly the view of the original.
    pub fn deep_copy(&self) -> (r: JsonValue)
        ensures
            r@ == self@,
        decreases self@.height(),
    {
        match self {
            JsonValue::Null => JsonValue::Null,
            JsonValue::Bool(b) => JsonValue::Bool(*b),
            JsonValue::Num(t) => JsonValue::Num(t.clone()),
            JsonValue::Str(s) => JsonValue::Str(s.clone()),
            JsonValue::Array(es) => {
                let mut out: Vec<JsonValue> = Vec::new();
                let mut j: usize = 0;
                while j < es.len()
                    invariant
                        j <= es.len(),
                        out@.len() == j,
                        forall|i: int| 0 <= i < j ==> #[trigger] out@[i]@ == es@[i]@,
                        self@ == JsonV::Arr(JsonValue::view_elems(es@)),
                    decreases es.len() - j,
                {
                    proof {
                        lemma_view_elems(es@);
                        lemma_height_elem(JsonValue::view_elems(es@), j as int);
                    }
                    let c = es[j].deep_copy();
                    out.push(c);
                    j += 1;
                }
                proof {
                    lemma_view_elems(es@);
                    lemma_view_elems(out@);
                    assert forall|i: int| 0 <= i < es@.len() implies JsonValue::view_elems(out@)[i]
                        == JsonValue::view_elems(es@)[i] by {
                        assert(out@[i]@ == es@[i]@);
                    }
                    assert(JsonValue::view_elems(out@) =~= JsonValue::view_elems(es@));
                }
                JsonValue::Array(out)
            },
            JsonValue::Object(fs) => {
                let mut out: Vec<(String, JsonValue)> = Vec::new();
                let mut j: usize = 0;
                while j < fs.len()
                    invariant
                        j <= fs.len(),
                        out@.len() == j,
                        forall|i: int|
                            0 <= i < j ==> #[trigger] out@[i].0@ == fs@[i].0@ && out@[i].1@
                                == fs@[i].1@,
                        self@ == JsonV::Obj(JsonValue::view_fields(fs@)),
                    decreases fs.len() - j,
                {
                    proof {
                        lemma_view_fields(fs@);
                        assert(JsonValue::view_fields(fs@)[j as int] == (
                        fs@[j as int].0@,
                        fs@[j as int].1@,
                        ));
                        lemma_height_field(JsonValue::view_fields(fs@), j as int);
                    }
                    let k = fs[j].0.clone();
                    let v = fs[j].1.deep_copy();
                    out.push((k, v));
                    j += 1;
                }
                proof {
                    lemma_view_fields(fs@);
                    lemma_view_fields(out@);
                    assert forall|i: int| 0 <= i < fs@.len() implies JsonValue::view_fields(out@)[i]
                        == JsonValue::view_fields(fs@)[i] by {
                        assert(out@[i].0@ == fs@[i].0@ && out@[i].1@ == fs@[i].1@);
                    }
                    assert(JsonValue::view_fields(out@) =~= JsonValue::view_fields(fs@));
                }
                JsonValue::Object(out)
            },
        }
    }
}

/// One renderable line of the flattened tree: its depth, the key under which
/// the value sits (empty for array elements), the scalar value for leaf rows
/// (`None` marks a container header), and whether the row is an array element.
#[derive(Debug, PartialEq)]
pub struct ValuePair {
    pub indentation: usize,
    pub key: String,
    pub value: Option<JsonValue>,
    pub is_array_value: bool,
}

/// Mathematical model of a display row.
pub ghost struct RowV {
    pub indentation: nat,
    pub key: Seq<char>,
    pub value: Option<JsonV>,
    pub is_array_value: bool,
}

impl View for ValuePair {
    type V = RowV;

    open spec fn view(&self) -> RowV {
        RowV {
            indentation: self.indentation as nat,
            key: self.key@,
            value: match self.value {
                Option::Some(v) => Option::Some(v@),
                Option::None => Option::None,
            },
            is_array_value: self.is_array_value,
        }
    }
}

} // verus!
