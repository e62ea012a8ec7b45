//! The canonical tagged tree that every stage of the pipeline works on:
//! parsed documents are normalized into it, the merge engine folds many of
//! them into one, the projector narrows it, and the serializer renders it.
use vstd::prelude::*;

verus! {

/// A numeric literal. The integer / floating-point distinction of the source
/// document is preserved: integers carry their exact value, while a
/// floating-point number carries the decimal text it will be rendered as.
#[derive(Debug)]
pub enum Number {
    /// A signed integer literal.
    Int(i64),
    /// An unsigned integer literal above `i64::MAX`.
    Uint(u64),
    /// A floating-point literal, kept as its decimal rendering.
    Float(String),
}

/// A parsed document or any sub-value of one: a tagged union of exactly six
/// shapes. Object fields keep insertion order and have unique keys.
#[derive(Debug)]
pub enum JsonValue {
    Null,
    Bool(bool),
    Number(Number),
    Str(String),
    Array(Vec<JsonValue>),
    Object(Vec<(String, JsonValue)>),
}

/// The mathematical model of a `Number`: integers collapse to `int`,
/// floating-point literals are modelled by their rendering.
pub enum NumberModel {
    Int(int),
    Float(Seq<char>),
}

/// The mathematical model of a `JsonValue`, used by every contract.
pub enum ValueModel {
    Null,
    Bool(bool),
    Number(NumberModel),
    Str(Seq<char>),
    Array(Seq<ValueModel>),
    Object(Seq<(Seq<char>, ValueModel)>),
}

impl View for Number {
    type V = NumberModel;

    open spec fn view(&self) -> NumberModel {
        match *self {
            Number::Int(i) => NumberModel::Int(i as int),
            Number::Uint(u) => NumberModel::Int(u as int),
            Number::Float(ref s) => NumberModel::Float(s@),
        }
    }
}

/// The model of one value: structural, field order kept.
pub open spec fn value_model(v: JsonValue) -> ValueModel
    decreases v, 1int,
{
    match v {
        JsonValue::Null => ValueModel::Null,
        JsonValue::Bool(b) => ValueModel::Bool(b),
        JsonValue::Number(n) => ValueModel::Number(n@),
        JsonValue::Str(s) => ValueModel::Str(s@),
        JsonValue::Array(elems) => ValueModel::Array(elems_model(elems@)),
        JsonValue::Object(fields) => ValueModel::Object(fields_model(fields@)),
    }
}

/// The models of the elements of an array, in order.
pub open spec fn elems_model(s: Seq<JsonValue>) -> Seq<ValueModel>
    decreases s, 0int,
{
    if s.len() == 0 {
        Seq::empty()
    } else {
        seq![value_model(s[0])] + elems_model(s.drop_first())
    }
}

/// The models of the fields of an object, in order.
pub open spec fn fields_model(s: Seq<(String, JsonValue)>) -> Seq<(Seq<char>, ValueModel)>
    decreases s, 0int,
{
    if s.len() == 0 {
        Seq::empty()
    } else {
        seq![(s[0].0@, value_model(s[0].1))] + fields_model(s.drop_first())
    }
}

impl View for JsonValue {
    type V = ValueModel;

    open spec fn view(&self) -> ValueModel {
        value_model(*self)
    }
}

pub broadcast proof fn lemma_elems_model_len(s: Seq<JsonValue>)
    ensures
        #[trigger] elems_model(s).len() == s.len(),
    decreases s.len(),
{
    if s.len() > 0 {
        lemma_elems_model_len(s.drop_first());
    }
}

pub broadcast proof fn lemma_elems_model_index(s: Seq<JsonValue>, i: int)
    requires
        0 <= i < s.len(),
    ensures
        elems_model(s).len() == s.len(),
        #[trigger] elems_model(s)[i] == value_model(s[i]),
    decreases s.len(),
{
    lemma_elems_model_len(s);
    if i > 0 {
        lemma_elems_model_index(s.drop_first(), i - 1);
    }
}

pub broadcast proof fn lemma_fields_model_len(s: Seq<(String, JsonValue)>)
    ensures
        #[trigger] fields_model(s).len() == s.len(),
    decreases s.len(),
{
    if s.len() > 0 {
        lemma_fields_model_len(s.drop_first());
    }
}

pub broadcast proof fn lemma_fields_model_index(s: Seq<(String, JsonValue)>, i: int)
    requires
        0 <= i < s.len(),
    ensures
        fields_model(s).len() == s.len(),
        #[trigger] fields_model(s)[i] == (s[i].0@, value_model(s[i].1)),
    decreases s.len(),
{
    lemma_fields_model_len(s);
    if i > 0 {
        lemma_fields_model_index(s.drop_first(), i - 1);
    }
}

/// Structural size of a value, the measure for recursion over trees.
pub open spec fn value_size(v: JsonValue) -> nat
    decreases v, 1int,
{
    match v {
        JsonValue::Array(elems) => 1 + elems_size(elems@),
        JsonValue::Object(fields) => 1 + fields_size(fields@),
        _ => 1,
    }
}

pub open spec fn elems_size(s: Seq<JsonValue>) -> nat
    decreases s, 0int,
{
    if s.len() == 0 {
        0
    } else {
        value_size(s[0]) + elems_size(s.drop_first())
    }
}

pub open spec fn fields_size(s: Seq<(String, JsonValue)>) -> nat
    decreases s, 0int,
{
    if s.len() == 0 {
        0
    } else {
        value_size(s[0].1) + fields_size(s.drop_first())
    }
}

/// Each array element is strictly smaller than the whole array value.
pub broadcast proof fn lemma_elem_size(s: Seq<JsonValue>, i: int)
    requires
        0 <= i < s.len(),
    ensures
        #[trigger] value_size(s[i]) < 1 + elems_size(s),
    decreases s.len(),
{
    if i > 0 {
        lemma_elem_size(s.drop_first(), i - 1);
    }
}

/// Each field value is strictly smaller than the whole object value.
pub broadcast proof fn lemma_field_size(s: Seq<(String, JsonValue)>, i: int)
    requires
        0 <= i < s.len(),
    ensures
        #[trigger] value_size(s[i].1) < 1 + fields_size(s),
    decreases s.len(),
{
    if i > 0 {
        lemma_field_size(s.drop_first(), i - 1);
    }
}

/// The value stored under `key`, looking at the first occurrence.
pub open spec fn obj_lookup(fs: Seq<(Seq<char>, ValueModel)>, key: Seq<char>) -> Option<ValueModel>
    decreases fs.len(),
{
    if fs.len() == 0 {
        None
    } else if fs[0].0 == key {
        Some(fs[0].1)
    } else {
        obj_lookup(fs.drop_first(), key)
    }
}

pub open spec fn obj_has_key(fs: Seq<(Seq<char>, ValueModel)>, key: Seq<char>) -> bool {
    obj_lookup(fs, key) is Some
}

/// The keys of an object, in field order.
pub open spec fn obj_keys(fs: Seq<(Seq<char>, ValueModel)>) -> Seq<Seq<char>> {
    Seq::new(fs.len(), |i: int| fs[i].0)
}

pub open spec fn keys_unique(fs: Seq<(Seq<char>, ValueModel)>) -> bool {
    forall|i: int, j: int| 0 <= i < j < fs.len() ==> fs[i].0 != fs[j].0
}

/// The characters a numeric literal's rendering may contain.
pub open spec fn number_char(c: char) -> bool {
    c == '-' || c == '+' || c == '.' || c == 'e' || c == 'E' || ('0' <= c && c <= '9')
}

/// A floating-point rendering: non-empty text of numeric characters.
pub open spec fn number_token(s: Seq<char>) -> bool {
    s.len() > 0 && forall|i: int| 0 <= i < s.len() ==> number_char(#[trigger] s[i])
}

/// What marks a rendering as floating-point rather than integer: a decimal
/// point or an exponent.
pub open spec fn float_marked(s: Seq<char>) -> bool {
    exists|i: int|
        0 <= i < s.len() && ((#[trigger] s[i]) == '.' || s[i] == 'e' || s[i] == 'E')
}

/// Well-formedness: object keys are unique at every level and floating-point
/// renderings are numeric tokens. Constructors at the parse boundary
/// establish it; merge and projection preserve it.
pub open spec fn wf(m: ValueModel) -> bool
    decreases m,
{
    match m {
        ValueModel::Number(NumberModel::Float(s)) => number_token(s) && float_marked(s),
        ValueModel::Array(es) => forall|i: int| 0 <= i < es.len() ==> wf(#[trigger] es[i]),
        ValueModel::Object(fs) => keys_unique(fs) && forall|i: int|
            0 <= i < fs.len() ==> wf((#[trigger] fs[i]).1),
        _ => true,
    }
}

impl Number {
    /// An independent copy with the same model.
    pub fn duplicate(&self) -> (r: Number)
        ensures
            r@ == self@,
    {
        match self {
            Number::Int(i) => Number::Int(*i),
            Number::Uint(u) => Number::Uint(*u),
            Number::Float(s) => Number::Float(s.clone()),
        }
    }
}

impl JsonValue {
    /// An independent deep copy with the same model.
    #[verifier::loop_isolation(false)]
    pub fn deep_clone(&self) -> (r: JsonValue)
        ensures
            r@ == self@,
        decreases value_size(*self),
    {
        match self {
            JsonValue::Null => JsonValue::Null,
            JsonValue::Bool(b) => JsonValue::Bool(*b),
            JsonValue::Number(n) => JsonValue::Number(n.duplicate()),
            JsonValue::Str(s) => JsonValue::Str(s.clone()),
            JsonValue::Array(elems) => {
                let mut out: Vec<JsonValue> = Vec::new();
                let mut i: usize = 0;
                while i < elems.len()
                    invariant
                        i <= elems.len(),
                        out@.len() == i,
                        forall|k: int|
                            0 <= k < i ==> value_model(out@[k]) == value_model(elems@[k]),
                    decreases elems.len() - i,
                {
                    proof {
                        lemma_elem_size(elems@, i as int);
                    }
                    out.push(elems[i].deep_clone());
                    i += 1;
                }
                proof {
                    assert forall|k: int| 0 <= k < elems@.len() implies #[trigger] elems_model(
                        out@,
                    )[k] == elems_model(elems@)[k] by {
                        lemma_elems_model_index(out@, k);
                        lemma_elems_model_index(elems@, k);
                    }
                    lemma_elems_model_len(out@);
                    lemma_elems_model_len(elems@);
                    assert(elems_model(out@) =~= elems_model(elems@));
                }
                JsonValue::Array(out)
            },
            JsonValue::Object(fields) => {
                let mut out: Vec<(String, JsonValue)> = Vec::new();
                let mut i: usize = 0;
                while i < fields.len()
                    invariant
                        i <= fields.len(),
                        out@.len() == i,
                        forall|k: int|
                            0 <= k < i ==> out@[k].0@ == fields@[k].0@ && value_model(out@[k].1)
                                == value_model(fields@[k].1),
                    decreases fields.len() - i,
                {
                    let entry = &fields[i];
                    proof {
                        lemma_field_size(fields@, i as int);
                    }
                    out.push((entry.0.clone(), entry.1.deep_clone()));
                    i += 1;
                }
                proof {
                    assert forall|k: int| 0 <= k < fields@.len() implies #[trigger] fields_model(
                        out@,
                    )[k] == fields_model(fields@)[k] by {
                        lemma_fields_model_index(out@, k);
                        lemma_fields_model_index(fields@, k);
                    }
                    lemma_fields_model_len(out@);
                    lemma_fields_model_len(fields@);
                    assert(fields_model(out@) =~= fields_model(fields@));
                }
                JsonValue::Object(out)
            },
        }
    }
}

/// The position of `key` among the fields, scanning from the front.
pub fn find_key(fields: &Vec<(String, JsonValue)>, key: &String) -> (r: Option<usize>)
    ensures
        match r {
            Some(i) => i < fields@.len() && fields@[i as int].0@ == key@ && forall|j: int|
                0 <= j < i ==> fields@[j].0@ != key@,
            None => forall|j: int| 0 <= j < fields@.len() ==> fields@[j].0@ != key@,
        },
{
    let mut i: usize = 0;
    while i < fields.len()
        invariant
            i <= fields.len(),
            forall|j: int| 0 <= j < i ==> fields@[j].0@ != key@,
        decreases fields.len() - i,
    {
        if fields[i].0 == *key {
            return Some(i);
        }
        i += 1;
    }
    None
}

/// `obj_lookup` finds the entry at the first matching position.
pub proof fn lemma_lookup_at(fs: Seq<(Seq<char>, ValueModel)>, key: Seq<char>, i: int)
    requires
        0 <= i < fs.len(),
        fs[i].0 == key,
        forall|j: int| 0 <= j < i ==> fs[j].0 != key,
    ensures
        obj_lookup(fs, key) == Some(fs[i].1),
    decreases i,
{
    if i > 0 {
        lemma_lookup_at(fs.drop_first(), key, i - 1);
    }
}

/// `obj_lookup` fails exactly when no field has the key.
pub proof fn lemma_lookup_none(fs: Seq<(Seq<char>, ValueModel)>, key: Seq<char>)
    requires
        forall|j: int| 0 <= j < fs.len() ==> fs[j].0 != key,
    ensures
        obj_lookup(fs, key) is None,
    decreases fs.len(),
{
    if fs.len() > 0 {
        lemma_lookup_none(fs.drop_first(), key);
    }
}

} // verus!
