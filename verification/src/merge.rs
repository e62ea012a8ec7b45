//! The merge engine: folds an ordered sequence of documents into one value,
//! under a shallow policy (top-level key overwrite, every document must be an
//! object) or a deep policy (nested objects are combined key-wise, everything
//! else is replaced wholesale). Later documents always win for any key that
//! is replaced wholesale.
use vstd::prelude::*;

use crate::value::JsonValue;
use crate::value::ValueModel;
use crate::value::elems_model;
use crate::value::fields_model;
use crate::value::fields_size;
use crate::value::find_key;
use crate::value::lemma_elems_model_index;
use crate::value::lemma_elems_model_len;
use crate::value::lemma_field_size;
use crate::value::lemma_fields_model_index;
use crate::value::lemma_fields_model_len;
use crate::value::lemma_lookup_at;
use crate::value::lemma_lookup_none;
use crate::value::obj_has_key;
use crate::value::obj_lookup;
use crate::value::keys_unique;
use crate::value::value_model;
use crate::value::value_size;
use crate::value::wf;

verus! {

broadcast use {
    crate::value::lemma_elems_model_len,
    crate::value::lemma_elems_model_index,
    crate::value::lemma_fields_model_len,
    crate::value::lemma_fields_model_index,
};

/// Replace the value at the first occurrence of `key`, or append a new field.
pub open spec fn upsert(
    fs: Seq<(Seq<char>, ValueModel)>,
    key: Seq<char>,
    val: ValueModel,
) -> Seq<(Seq<char>, ValueModel)>
    decreases fs.len(),
{
    if fs.len() == 0 {
        seq![(key, val)]
    } else if fs[0].0 == key {
        seq![(key, val)] + fs.drop_first()
    } else {
        seq![fs[0]] + upsert(fs.drop_first(), key, val)
    }
}

/// Shallow merge of the fields of one document into the accumulator:
/// every field overwrites the accumulator's same key verbatim.
pub open spec fn shallow_fields(
    acc: Seq<(Seq<char>, ValueModel)>,
    src: Seq<(Seq<char>, ValueModel)>,
) -> Seq<(Seq<char>, ValueModel)>
    decreases src.len(),
{
    if src.len() == 0 {
        acc
    } else {
        shallow_fields(upsert(acc, src[0].0, src[0].1), src.drop_first())
    }
}

/// Deep merge of one value over another: objects combine key-wise,
/// anything else is replaced by the right-hand value.
pub open spec fn deep_merged(a: ValueModel, b: ValueModel) -> ValueModel
    decreases b, 1int,
{
    if a is Object && b is Object {
        ValueModel::Object(deep_fields(a->Object_0, b->Object_0))
    } else {
        b
    }
}

/// Deep merge of the fields of one document into the accumulator.
pub open spec fn deep_fields(
    acc: Seq<(Seq<char>, ValueModel)>,
    src: Seq<(Seq<char>, ValueModel)>,
) -> Seq<(Seq<char>, ValueModel)>
    decreases src, 0int,
{
    if src.len() == 0 {
        acc
    } else {
        let stepped = match obj_lookup(acc, src[0].0) {
            Some(old) => upsert(acc, src[0].0, deep_merged(old, src[0].1)),
            None => acc.push(src[0]),
        };
        deep_fields(stepped, src.drop_first())
    }
}

/// One document folded into the accumulator under the chosen policy.
/// Under the shallow policy both sides are objects whenever this is invoked.
pub open spec fn merge_step(acc: ValueModel, v: ValueModel, deep: bool) -> ValueModel {
    if deep {
        deep_merged(acc, v)
    } else if acc is Object && v is Object {
        ValueModel::Object(shallow_fields(acc->Object_0, v->Object_0))
    } else {
        v
    }
}

pub open spec fn merged_from(acc: ValueModel, vs: Seq<ValueModel>, deep: bool) -> ValueModel
    decreases vs.len(),
{
    if vs.len() == 0 {
        acc
    } else {
        merged_from(merge_step(acc, vs[0], deep), vs.drop_first(), deep)
    }
}

/// The merge of an ordered sequence of documents, starting from an empty
/// object accumulator.
pub open spec fn merged_all(vs: Seq<ValueModel>, deep: bool) -> ValueModel {
    merged_from(ValueModel::Object(Seq::empty()), vs, deep)
}

/// `upsert` on a key whose first occurrence is position `i` is an update.
pub proof fn lemma_upsert_at(
    fs: Seq<(Seq<char>, ValueModel)>,
    key: Seq<char>,
    val: ValueModel,
    i: int,
)
    requires
        0 <= i < fs.len(),
        fs[i].0 == key,
        forall|j: int| 0 <= j < i ==> fs[j].0 != key,
    ensures
        upsert(fs, key, val) =~= fs.update(i, (key, val)),
    decreases i,
{
    if i > 0 {
        lemma_upsert_at(fs.drop_first(), key, val, i - 1);
    }
}

/// `upsert` on an absent key appends the field.
pub proof fn lemma_upsert_absent(fs: Seq<(Seq<char>, ValueModel)>, key: Seq<char>, val: ValueModel)
    requires
        forall|j: int| 0 <= j < fs.len() ==> fs[j].0 != key,
    ensures
        upsert(fs, key, val) =~= fs.push((key, val)),
    decreases fs.len(),
{
    if fs.len() > 0 {
        lemma_upsert_absent(fs.drop_first(), key, val);
    }
}

/// What `upsert` does to every lookup: the touched key now holds `val`,
/// all other keys are untouched.
pub proof fn lemma_upsert_lookup(
    fs: Seq<(Seq<char>, ValueModel)>,
    key: Seq<char>,
    val: ValueModel,
    probe: Seq<char>,
)
    ensures
        probe == key ==> obj_lookup(upsert(fs, key, val), probe) == Some(val),
        probe != key ==> obj_lookup(upsert(fs, key, val), probe) == obj_lookup(fs, probe),
    decreases fs.len(),
{
    if fs.len() == 0 {
        assert(upsert(fs, key, val) =~= seq![(key, val)]);
        assert(seq![(key, val)].drop_first() =~= Seq::<(Seq<char>, ValueModel)>::empty());
        assert(seq![(key, val)][0] == (key, val));
        assert(obj_lookup(Seq::<(Seq<char>, ValueModel)>::empty(), probe) is None);
        assert(probe != key ==> obj_lookup(upsert(fs, key, val), probe) == obj_lookup(fs, probe));
    } else if fs[0].0 != key {
        lemma_upsert_lookup(fs.drop_first(), key, val, probe);
        assert((seq![fs[0]] + upsert(fs.drop_first(), key, val))[0] == fs[0]);
        assert((seq![fs[0]] + upsert(fs.drop_first(), key, val)).drop_first() =~= upsert(
            fs.drop_first(),
            key,
            val,
        ));
        assert(probe != key ==> obj_lookup(upsert(fs, key, val), probe) == obj_lookup(fs, probe));
    } else {
        assert((seq![(key, val)] + fs.drop_first())[0] == (key, val));
        assert((seq![(key, val)] + fs.drop_first()).drop_first() =~= fs.drop_first());
        assert(probe != key ==> obj_lookup(upsert(fs, key, val), probe) == obj_lookup(fs, probe));
    }
}

/// What appending a fresh field does to every lookup.
pub proof fn lemma_lookup_push(
    fs: Seq<(Seq<char>, ValueModel)>,
    field: (Seq<char>, ValueModel),
    probe: Seq<char>,
)
    ensures
        obj_lookup(fs.push(field), probe) == if obj_has_key(fs, probe) {
            obj_lookup(fs, probe)
        } else if field.0 == probe {
            Some(field.1)
        } else {
            None::<ValueModel>
        },
    decreases fs.len(),
{
    if fs.len() == 0 {
        assert(fs.push(field) =~= seq![field]);
        assert(seq![field][0] == field);
        assert(seq![field].drop_first() =~= Seq::<(Seq<char>, ValueModel)>::empty());
        assert(obj_lookup(Seq::<(Seq<char>, ValueModel)>::empty(), probe) is None);
    } else {
        assert(fs.push(field)[0] == fs[0]);
        assert(fs.push(field).drop_first() =~= fs.drop_first().push(field));
        lemma_lookup_push(fs.drop_first(), field, probe);
    }
}

/// A looked-up value is one of the object's field values, so it inherits
/// well-formedness from the object.
pub proof fn lemma_lookup_wf(fs: Seq<(Seq<char>, ValueModel)>, key: Seq<char>)
    requires
        wf(ValueModel::Object(fs)),
        obj_lookup(fs, key) is Some,
    ensures
        wf(obj_lookup(fs, key)->Some_0),
    decreases fs.len(),
{
    if fs.len() > 0 && fs[0].0 != key {
        assert forall|i: int, j: int| 0 <= i < j < fs.drop_first().len() implies fs.drop_first()[i].0
            != fs.drop_first()[j].0 by {
            assert(fs[i + 1].0 != fs[j + 1].0);
        }
        assert forall|i: int| 0 <= i < fs.drop_first().len() implies wf(
            (#[trigger] fs.drop_first()[i]).1,
        ) by {
            assert(wf(fs[i + 1].1));
        }
        lemma_lookup_wf(fs.drop_first(), key);
    }
}

/// A failed lookup means no field holds the key.
proof fn lemma_lookup_none_keys(fs: Seq<(Seq<char>, ValueModel)>, key: Seq<char>)
    requires
        obj_lookup(fs, key) is None,
    ensures
        forall|j: int| 0 <= j < fs.len() ==> fs[j].0 != key,
    decreases fs.len(),
{
    if fs.len() > 0 {
        lemma_lookup_none_keys(fs.drop_first(), key);
        assert forall|j: int| 0 <= j < fs.len() implies fs[j].0 != key by {
            if j > 0 {
                assert(fs.drop_first()[j - 1].0 != key);
            }
        }
    }
}

/// A successful lookup has a first occurrence.
proof fn lemma_first_occurrence(fs: Seq<(Seq<char>, ValueModel)>, key: Seq<char>)
    requires
        obj_has_key(fs, key),
    ensures
        exists|i: int|
            0 <= i < fs.len() && (#[trigger] fs[i]).0 == key && forall|j: int|
                0 <= j < i ==> fs[j].0 != key,
    decreases fs.len(),
{
    if fs[0].0 == key {
        assert(fs[0].0 == key && forall|j: int| 0 <= j < 0 ==> fs[j].0 != key);
    } else {
        lemma_first_occurrence(fs.drop_first(), key);
        let i0 = choose|i: int|
            0 <= i < fs.drop_first().len() && (#[trigger] fs.drop_first()[i]).0 == key
                && forall|j: int| 0 <= j < i ==> fs.drop_first()[j].0 != key;
        assert(fs[i0 + 1].0 == key);
        assert forall|j: int| 0 <= j < i0 + 1 implies fs[j].0 != key by {
            if j > 0 {
                assert(fs.drop_first()[j - 1].0 != key);
            }
        }
    }
}

/// `upsert` with a well-formed value keeps the object well-formed.
proof fn lemma_upsert_wf(fs: Seq<(Seq<char>, ValueModel)>, key: Seq<char>, val: ValueModel)
    requires
        wf(ValueModel::Object(fs)),
        wf(val),
    ensures
        wf(ValueModel::Object(upsert(fs, key, val))),
{
    if obj_has_key(fs, key) {
        lemma_first_occurrence(fs, key);
        let i = choose|i: int|
            0 <= i < fs.len() && (#[trigger] fs[i]).0 == key && forall|j: int|
                0 <= j < i ==> fs[j].0 != key;
        lemma_upsert_at(fs, key, val, i);
        let out = fs.update(i, (key, val));
        assert forall|p: int, q: int| 0 <= p < q < out.len() implies out[p].0 != out[q].0 by {
            assert(fs[p].0 != fs[q].0);
        }
        assert forall|p: int| 0 <= p < out.len() implies wf((#[trigger] out[p]).1) by {
            if p != i {
                assert(wf(fs[p].1));
            }
        }
    } else {
        lemma_lookup_none_keys(fs, key);
        lemma_upsert_absent(fs, key, val);
        let out = fs.push((key, val));
        assert forall|p: int, q: int| 0 <= p < q < out.len() implies out[p].0 != out[q].0 by {
            if q < fs.len() {
                assert(fs[p].0 != fs[q].0);
            } else {
                assert(fs[p].0 != key);
            }
        }
        assert forall|p: int| 0 <= p < out.len() implies wf((#[trigger] out[p]).1) by {
            if p < fs.len() {
                assert(wf(fs[p].1));
            }
        }
    }
}

/// An object with the first field dropped is still well-formed.
proof fn lemma_wf_drop_first(fs: Seq<(Seq<char>, ValueModel)>)
    requires
        wf(ValueModel::Object(fs)),
        fs.len() > 0,
    ensures
        wf(ValueModel::Object(fs.drop_first())),
{
    let rest = fs.drop_first();
    assert forall|p: int, q: int| 0 <= p < q < rest.len() implies rest[p].0 != rest[q].0 by {
        assert(fs[p + 1].0 != fs[q + 1].0);
    }
    assert forall|p: int| 0 <= p < rest.len() implies wf((#[trigger] rest[p]).1) by {
        assert(wf(fs[p + 1].1));
    }
}

/// A shallow merge of well-formed objects is well-formed: keys stay unique.
proof fn lemma_shallow_fields_wf(
    acc: Seq<(Seq<char>, ValueModel)>,
    src: Seq<(Seq<char>, ValueModel)>,
)
    requires
        wf(ValueModel::Object(acc)),
        wf(ValueModel::Object(src)),
    ensures
        wf(ValueModel::Object(shallow_fields(acc, src))),
    decreases src.len(),
{
    if src.len() > 0 {
        assert(wf(src[0].1));
        lemma_upsert_wf(acc, src[0].0, src[0].1);
        lemma_wf_drop_first(src);
        lemma_shallow_fields_wf(upsert(acc, src[0].0, src[0].1), src.drop_first());
    }
}

/// A deep merge of well-formed values is well-formed.
pub proof fn lemma_deep_merged_wf(a: ValueModel, b: ValueModel)
    requires
        wf(a),
        wf(b),
    ensures
        wf(deep_merged(a, b)),
    decreases b, 1int,
{
    if a is Object && b is Object {
        lemma_deep_fields_wf(a->Object_0, b->Object_0);
    }
}

proof fn lemma_deep_fields_wf(acc: Seq<(Seq<char>, ValueModel)>, src: Seq<(Seq<char>, ValueModel)>)
    requires
        wf(ValueModel::Object(acc)),
        wf(ValueModel::Object(src)),
    ensures
        wf(ValueModel::Object(deep_fields(acc, src))),
    decreases src, 0int,
{
    if src.len() > 0 {
        assert(wf(src[0].1));
        let stepped = match obj_lookup(acc, src[0].0) {
            Some(old) => upsert(acc, src[0].0, deep_merged(old, src[0].1)),
            None => acc.push(src[0]),
        };
        match obj_lookup(acc, src[0].0) {
            Some(old) => {
                lemma_lookup_wf(acc, src[0].0);
                lemma_deep_merged_wf(old, src[0].1);
                lemma_upsert_wf(acc, src[0].0, deep_merged(old, src[0].1));
            },
            None => {
                lemma_lookup_none_keys(acc, src[0].0);
                assert forall|p: int, q: int| 0 <= p < q < stepped.len() implies stepped[p].0
                    != stepped[q].0 by {
                    if q < acc.len() {
                        assert(acc[p].0 != acc[q].0);
                    } else {
                        assert(acc[p].0 != src[0].0);
                    }
                }
                assert forall|p: int| 0 <= p < stepped.len() implies wf(
                    (#[trigger] stepped[p]).1,
                ) by {
                    if p < acc.len() {
                        assert(wf(acc[p].1));
                    }
                }
            },
        }
        lemma_wf_drop_first(src);
        lemma_deep_fields_wf(stepped, src.drop_first());
    }
}

/// The fold of well-formed documents from a well-formed accumulator is
/// well-formed, under either policy: merging never duplicates a key and
/// never damages a nested value.
pub proof fn lemma_merged_from_wf(acc: ValueModel, vs: Seq<ValueModel>, deep: bool)
    requires
        wf(acc),
        forall|i: int| 0 <= i < vs.len() ==> wf(#[trigger] vs[i]),
    ensures
        wf(merged_from(acc, vs, deep)),
    decreases vs.len(),
{
    if vs.len() > 0 {
        assert(wf(vs[0]));
        let stepped = merge_step(acc, vs[0], deep);
        if deep {
            lemma_deep_merged_wf(acc, vs[0]);
        } else if acc is Object && vs[0] is Object {
            lemma_shallow_fields_wf(acc->Object_0, vs[0]->Object_0);
        }
        assert forall|i: int| 0 <= i < vs.drop_first().len() implies wf(
            #[trigger] vs.drop_first()[i],
        ) by {
            assert(wf(vs[i + 1]));
        }
        lemma_merged_from_wf(stepped, vs.drop_first(), deep);
    }
}

/// When no key of `src` occurs in `acc`, a shallow merge appends the fields.
proof fn lemma_shallow_absent(
    acc: Seq<(Seq<char>, ValueModel)>,
    src: Seq<(Seq<char>, ValueModel)>,
)
    requires
        forall|i: int, j: int|
            0 <= i < src.len() && 0 <= j < acc.len() ==> acc[j].0 != src[i].0,
        keys_unique(src),
    ensures
        shallow_fields(acc, src) == acc + src,
    decreases src.len(),
{
    if src.len() == 0 {
        assert(acc + src =~= acc);
    } else {
        assert forall|j: int| 0 <= j < acc.len() implies acc[j].0 != src[0].0 by {}
        lemma_upsert_absent(acc, src[0].0, src[0].1);
        let acc2 = acc.push(src[0]);
        let src2 = src.drop_first();
        assert forall|i: int, j: int| 0 <= i < j < src2.len() implies src2[i].0 != src2[j].0 by {
            assert(src[i + 1].0 != src[j + 1].0);
        }
        assert forall|i: int, j: int|
            0 <= i < src2.len() && 0 <= j < acc2.len() implies acc2[j].0 != src2[i].0 by {
            if j < acc.len() {
                assert(acc[j].0 != src[i + 1].0);
            } else {
                assert(acc2[j] == src[0]);
                assert(src[0].0 != src[i + 1].0);
            }
        }
        lemma_shallow_absent(acc2, src2);
        assert(acc2 + src2 =~= acc + src);
    }
}

/// When no key of `src` occurs in `acc`, a deep merge appends the fields.
proof fn lemma_deep_absent(acc: Seq<(Seq<char>, ValueModel)>, src: Seq<(Seq<char>, ValueModel)>)
    requires
        forall|i: int, j: int|
            0 <= i < src.len() && 0 <= j < acc.len() ==> acc[j].0 != src[i].0,
        keys_unique(src),
    ensures
        deep_fields(acc, src) == acc + src,
    decreases src.len(),
{
    if src.len() == 0 {
        assert(acc + src =~= acc);
    } else {
        assert forall|j: int| 0 <= j < acc.len() implies acc[j].0 != src[0].0 by {}
        lemma_lookup_none(acc, src[0].0);
        let acc2 = acc.push(src[0]);
        let src2 = src.drop_first();
        assert forall|i: int, j: int| 0 <= i < j < src2.len() implies src2[i].0 != src2[j].0 by {
            assert(src[i + 1].0 != src[j + 1].0);
        }
        assert forall|i: int, j: int|
            0 <= i < src2.len() && 0 <= j < acc2.len() implies acc2[j].0 != src2[i].0 by {
            if j < acc.len() {
                assert(acc[j].0 != src[i + 1].0);
            } else {
                assert(acc2[j] == src[0]);
                assert(src[0].0 != src[i + 1].0);
            }
        }
        lemma_deep_absent(acc2, src2);
        assert(acc2 + src2 =~= acc + src);
    }
}

/// Merging an object's fields into an empty accumulator reproduces them.
proof fn lemma_merge_identity(fs: Seq<(Seq<char>, ValueModel)>)
    requires
        keys_unique(fs),
    ensures
        shallow_fields(Seq::empty(), fs) == fs,
        deep_fields(Seq::empty(), fs) == fs,
{
    lemma_shallow_absent(Seq::empty(), fs);
    lemma_deep_absent(Seq::empty(), fs);
    assert(Seq::empty() + fs =~= fs);
}

/// Every lookup in a shallow merge: keys of `src` hold `src`'s value —
/// the later document always wins — and every other key keeps the
/// accumulator's value.
pub proof fn lemma_shallow_lookup(
    acc: Seq<(Seq<char>, ValueModel)>,
    src: Seq<(Seq<char>, ValueModel)>,
    probe: Seq<char>,
)
    requires
        keys_unique(src),
    ensures
        obj_lookup(shallow_fields(acc, src), probe) == if obj_has_key(src, probe) {
            obj_lookup(src, probe)
        } else {
            obj_lookup(acc, probe)
        },
    decreases src.len(),
{
    if src.len() > 0 {
        let src2 = src.drop_first();
        assert forall|i: int, j: int| 0 <= i < j < src2.len() implies src2[i].0 != src2[j].0 by {
            assert(src[i + 1].0 != src[j + 1].0);
        }
        lemma_shallow_lookup(upsert(acc, src[0].0, src[0].1), src2, probe);
        lemma_upsert_lookup(acc, src[0].0, src[0].1, probe);
        if probe == src[0].0 {
            assert forall|j: int| 0 <= j < src2.len() implies src2[j].0 != probe by {
                assert(src[0].0 != src[j + 1].0);
            }
            lemma_lookup_none(src2, probe);
        }
    }
}

/// Every lookup in a deep merge: a key in both sides holds the deep merge
/// of the two values — so a wholesale-replaced key takes the later
/// document's value — and a key in one side holds that side's value.
pub proof fn lemma_deep_lookup(
    acc: Seq<(Seq<char>, ValueModel)>,
    src: Seq<(Seq<char>, ValueModel)>,
    probe: Seq<char>,
)
    requires
        keys_unique(src),
    ensures
        obj_lookup(deep_fields(acc, src), probe) == match (obj_lookup(acc, probe), obj_lookup(
            src,
            probe,
        )) {
            (x, None) => x,
            (None, Some(v)) => Some(v),
            (Some(u), Some(v)) => Some(deep_merged(u, v)),
        },
    decreases src.len(),
{
    if src.len() > 0 {
        let src2 = src.drop_first();
        assert forall|i: int, j: int| 0 <= i < j < src2.len() implies src2[i].0 != src2[j].0 by {
            assert(src[i + 1].0 != src[j + 1].0);
        }
        let stepped = match obj_lookup(acc, src[0].0) {
            Some(old) => upsert(acc, src[0].0, deep_merged(old, src[0].1)),
            None => acc.push(src[0]),
        };
        lemma_deep_lookup(stepped, src2, probe);
        match obj_lookup(acc, src[0].0) {
            Some(old) => {
                lemma_upsert_lookup(acc, src[0].0, deep_merged(old, src[0].1), probe);
            },
            None => {
                lemma_lookup_push(acc, src[0], probe);
            },
        }
        if probe == src[0].0 {
            assert forall|j: int| 0 <= j < src2.len() implies src2[j].0 != probe by {
                assert(src[0].0 != src[j + 1].0);
            }
            lemma_lookup_none(src2, probe);
        }
    }
}

/// Unfolding of a two-document merge down to the pairwise merge.
proof fn lemma_merged_two(a: ValueModel, b: ValueModel, deep: bool)
    ensures
        merged_all(seq![a, b], deep) == merge_step(
            merge_step(ValueModel::Object(Seq::empty()), a, deep),
            b,
            deep,
        ),
{
    let vs = seq![a, b];
    assert(vs[0] == a);
    assert(vs.drop_first() =~= seq![b]);
    assert(seq![b][0] == b);
    assert(seq![b].drop_first() =~= Seq::<ValueModel>::empty());
    assert(merged_from(ValueModel::Object(Seq::empty()), vs, deep) == merged_from(
        merge_step(ValueModel::Object(Seq::empty()), a, deep),
        seq![b],
        deep,
    ));
    assert(merged_from(merge_step(merge_step(ValueModel::Object(Seq::empty()), a, deep), b, deep),
        Seq::<ValueModel>::empty(), deep) == merge_step(merge_step(ValueModel::Object(Seq::empty()), a, deep), b, deep));
}

/// Merging one well-formed document alone reproduces it: under the deep
/// policy for any value, under the shallow policy for any object.
pub proof fn lemma_merge_singleton(a: ValueModel, deep: bool)
    requires
        wf(a),
        deep || a is Object,
    ensures
        merged_all(seq![a], deep) == a,
{
    let vs = seq![a];
    assert(vs.drop_first() =~= Seq::<ValueModel>::empty());
    let step = merge_step(ValueModel::Object(Seq::empty()), a, deep);
    assert(merged_from(step, Seq::<ValueModel>::empty(), deep) == step);
    if a is Object {
        lemma_merge_identity(a->Object_0);
    }
}

/// Shallow merge of two documents: `b` wins on every key of `b`, `a` keeps
/// every key only it holds, and no other key exists; no recursion happens.
pub proof fn lemma_shallow_merge_two(a: ValueModel, b: ValueModel, probe: Seq<char>)
    requires
        a is Object,
        b is Object,
        wf(a),
        wf(b),
    ensures
        merged_all(seq![a, b], false) is Object,
        obj_lookup(merged_all(seq![a, b], false)->Object_0, probe) == if obj_has_key(
            b->Object_0,
            probe,
        ) {
            obj_lookup(b->Object_0, probe)
        } else {
            obj_lookup(a->Object_0, probe)
        },
{
    lemma_merged_two(a, b, false);
    lemma_merge_identity(a->Object_0);
    lemma_shallow_lookup(a->Object_0, b->Object_0, probe);
}

/// Deep merge recursive self-similarity: for two objects sharing an
/// object-valued key, the merged document's value at that key is the deep
/// merge of the two nested objects.
pub proof fn lemma_deep_merge_nested(a: ValueModel, b: ValueModel, key: Seq<char>)
    requires
        a is Object,
        b is Object,
        wf(a),
        wf(b),
        obj_lookup(a->Object_0, key) is Some,
        obj_lookup(b->Object_0, key) is Some,
        obj_lookup(a->Object_0, key)->Some_0 is Object,
        obj_lookup(b->Object_0, key)->Some_0 is Object,
    ensures
        merged_all(seq![a, b], true) is Object,
        obj_lookup(merged_all(seq![a, b], true)->Object_0, key) == Some(
            merged_all(
                seq![obj_lookup(a->Object_0, key)->Some_0, obj_lookup(b->Object_0, key)->Some_0],
                true,
            ),
        ),
{
    let ak = obj_lookup(a->Object_0, key)->Some_0;
    let bk = obj_lookup(b->Object_0, key)->Some_0;
    lemma_merged_two(a, b, true);
    lemma_merge_identity(a->Object_0);
    lemma_deep_lookup(a->Object_0, b->Object_0, key);
    lemma_merged_two(ak, bk, true);
    lemma_lookup_wf(a->Object_0, key);
    lemma_merge_identity(ak->Object_0);
}

/// Merge is order-sensitive: when two documents disagree on a key that is
/// replaced wholesale, swapping the documents changes the result.
pub proof fn lemma_merge_order_sensitive(a: ValueModel, b: ValueModel, key: Seq<char>, deep: bool)
    requires
        a is Object,
        b is Object,
        wf(a),
        wf(b),
        obj_lookup(a->Object_0, key) is Some,
        obj_lookup(b->Object_0, key) is Some,
        obj_lookup(a->Object_0, key) != obj_lookup(b->Object_0, key),
        deep ==> !(obj_lookup(a->Object_0, key)->Some_0 is Object && obj_lookup(
            b->Object_0,
            key,
        )->Some_0 is Object),
    ensures
        merged_all(seq![a, b], deep) != merged_all(seq![b, a], deep),
{
    lemma_merged_two(a, b, deep);
    lemma_merged_two(b, a, deep);
    lemma_merge_identity(a->Object_0);
    lemma_merge_identity(b->Object_0);
    if deep {
        lemma_deep_lookup(a->Object_0, b->Object_0, key);
        lemma_deep_lookup(b->Object_0, a->Object_0, key);
    } else {
        lemma_shallow_lookup(a->Object_0, b->Object_0, key);
        lemma_shallow_lookup(b->Object_0, a->Object_0, key);
    }
}

/// Overwrite the first field holding this key, or append a new one.
fn upsert_field(acc: &mut Vec<(String, JsonValue)>, k: String, v: JsonValue)
    ensures
        fields_model(final(acc)@) == upsert(fields_model(old(acc)@), k@, value_model(v)),
{
    let ghost fs0 = fields_model(acc@);
    let ghost key_model = k@;
    let ghost val_model = value_model(v);
    match find_key(acc, &k) {
        Some(i) => {
            acc.set(i, (k, v));
            proof {
                assert forall|j: int| 0 <= j < i implies fs0[j].0 != key_model by {
                    lemma_fields_model_index(old(acc)@, j);
                }
                lemma_fields_model_index(old(acc)@, i as int);
                lemma_upsert_at(fs0, key_model, val_model, i as int);
                assert(fields_model(acc@) =~= fs0.update(i as int, (key_model, val_model)));
            }
        },
        None => {
            acc.push((k, v));
            proof {
                assert forall|j: int| 0 <= j < fs0.len() implies fs0[j].0 != key_model by {
                    lemma_fields_model_index(old(acc)@, j);
                }
                lemma_upsert_absent(fs0, key_model, val_model);
                assert(fields_model(acc@) =~= fs0.push((key_model, val_model)));
            }
        },
    }
}

/// Deep merge of one document over another. Takes ownership of both trees;
/// nested objects combine field-wise, everything else is replaced by `source`.
#[verifier::loop_isolation(false)]
pub fn deep_merge_value(target: JsonValue, source: JsonValue) -> (r: JsonValue)
    ensures
        r@ == deep_merged(target@, source@),
    decreases value_size(source),
{
    match (target, source) {
        (JsonValue::Object(tf), JsonValue::Object(sf)) => {
            let mut tf = tf;
            let mut sf = sf;
            let ghost t0 = fields_model(tf@);
            let ghost s0 = fields_model(sf@);
            let ghost size0 = fields_size(sf@);
            while sf.len() > 0
                invariant
                    deep_fields(fields_model(tf@), fields_model(sf@)) == deep_fields(t0, s0),
                    fields_size(sf@) <= size0,
                decreases sf@.len(),
            {
                let ghost tf_pre = fields_model(tf@);
                let ghost sf_pre = fields_model(sf@);
                let ghost sf_pre_exec = sf@;
                let kv = sf.remove(0);
                proof {
                    assert(sf@ =~= sf_pre_exec.drop_first());
                    lemma_fields_model_index(sf_pre_exec, 0);
                    assert forall|j: int| 0 <= j < sf@.len() implies #[trigger] fields_model(
                        sf@,
                    )[j] == sf_pre.drop_first()[j] by {
                        lemma_fields_model_index(sf@, j);
                        lemma_fields_model_index(sf_pre_exec, j + 1);
                    }
                    assert(fields_model(sf@) =~= sf_pre.drop_first());
                    lemma_field_size(sf_pre_exec, 0);
                }
                let ghost key_model = kv.0@;
                let ghost val_model = value_model(kv.1);
                match find_key(&tf, &kv.0) {
                    Some(i) => {
                        proof {
                            assert forall|j: int| 0 <= j < i implies tf_pre[j].0 != key_model by {
                                lemma_fields_model_index(tf@, j);
                            }
                            lemma_fields_model_index(tf@, i as int);
                            lemma_lookup_at(tf_pre, key_model, i as int);
                        }
                        let old_val = tf[i].1.deep_clone();
                        let merged = deep_merge_value(old_val, kv.1);
                        tf.set(i, (kv.0, merged));
                        proof {
                            lemma_upsert_at(tf_pre, key_model, deep_merged(tf_pre[i as int].1, val_model), i as int);
                            assert(fields_model(tf@) =~= tf_pre.update(
                                i as int,
                                (key_model, deep_merged(tf_pre[i as int].1, val_model)),
                            ));
                        }
                    },
                    None => {
                        proof {
                            assert forall|j: int| 0 <= j < tf_pre.len() implies tf_pre[j].0
                                != key_model by {
                                lemma_fields_model_index(tf@, j);
                            }
                            lemma_lookup_none(tf_pre, key_model);
                        }
                        tf.push((kv.0, kv.1));
                        proof {
                            assert(fields_model(tf@) =~= tf_pre.push((key_model, val_model)));
                        }
                    },
                }
            }
            JsonValue::Object(tf)
        },
        (t, s) => {
            proof {
                assert(!(t@ is Object && s@ is Object) ==> deep_merged(t@, s@) == s@);
            }
            s
        },
    }
}

/// Merge an ordered sequence of documents, starting from an empty object.
/// Under the shallow policy every document must itself be an object:
/// `Err(i)` reports the first one that is not. The deep policy always
/// succeeds. Later documents win for every key that is replaced wholesale.
#[verifier::loop_isolation(false)]
pub fn merge_values(values: Vec<JsonValue>, deep: bool) -> (r: Result<JsonValue, usize>)
    ensures
        match r {
            Ok(v) => v@ == merged_all(elems_model(values@), deep) && (!deep ==> forall|i: int|
                0 <= i < values@.len() ==> elems_model(values@)[i] is Object),
            Err(i) => !deep && i < values@.len() && !(elems_model(values@)[i as int] is Object)
                && forall|j: int| 0 <= j < i ==> elems_model(values@)[j] is Object,
        },
        deep ==> r is Ok,
        r is Ok && (forall|i: int|
            0 <= i < values@.len() ==> wf(#[trigger] elems_model(values@)[i])) ==> wf(
            r->Ok_0@,
        ),
{
    let ghost vs0 = elems_model(values@);
    let mut vals = values;
    let total: usize = vals.len();
    let mut acc = JsonValue::Object(Vec::new());
    let mut idx: usize = 0;
    proof {
        assert(fields_model(Seq::<(String, JsonValue)>::empty()) =~= Seq::<(
            Seq<char>,
            ValueModel,
        )>::empty());
        assert(elems_model(vals@) =~= vs0.skip(0));
    }
    while vals.len() > 0
        invariant
            idx + vals@.len() == total,
            vs0.len() == total,
            elems_model(vals@) == vs0.skip(idx as int),
            merged_from(acc@, elems_model(vals@), deep) == merged_all(vs0, deep),
            !deep ==> acc@ is Object,
            forall|j: int| 0 <= j < idx ==> vs0[j] is Object || deep,
        decreases vals@.len(),
    {
        let ghost rest_pre = elems_model(vals@);
        let ghost vals_pre_exec = vals@;
        let ghost acc_pre = acc@;
        let v = vals.remove(0);
        proof {
            assert(vals@ =~= vals_pre_exec.drop_first());
            lemma_elems_model_index(vals_pre_exec, 0);
            assert forall|j: int| 0 <= j < vals@.len() implies #[trigger] elems_model(vals@)[j]
                == rest_pre.drop_first()[j] by {
                lemma_elems_model_index(vals@, j);
                lemma_elems_model_index(vals_pre_exec, j + 1);
            }
            assert(elems_model(vals@) =~= rest_pre.drop_first());
            assert(rest_pre.drop_first() =~= vs0.skip(idx as int + 1));
        }
        if deep {
            acc = deep_merge_value(acc, v);
        } else {
            match (acc, v) {
                (JsonValue::Object(af), JsonValue::Object(vf)) => {
                    let mut af = af;
                    let mut vf = vf;
                    let ghost a0 = fields_model(af@);
                    let ghost f0 = fields_model(vf@);
                    while vf.len() > 0
                        invariant
                            shallow_fields(fields_model(af@), fields_model(vf@))
                                == shallow_fields(a0, f0),
                        decreases vf@.len(),
                    {
                        let ghost src_pre = fields_model(vf@);
                        let ghost vf_pre_exec = vf@;
                        let kv = vf.remove(0);
                        proof {
                            assert(vf@ =~= vf_pre_exec.drop_first());
                            lemma_fields_model_index(vf_pre_exec, 0);
                            assert forall|j: int| 0 <= j < vf@.len() implies #[trigger] fields_model(
                                vf@,
                            )[j] == src_pre.drop_first()[j] by {
                                lemma_fields_model_index(vf@, j);
                                lemma_fields_model_index(vf_pre_exec, j + 1);
                            }
                            assert(fields_model(vf@) =~= src_pre.drop_first());
                        }
                        upsert_field(&mut af, kv.0, kv.1);
                    }
                    acc = JsonValue::Object(af);
                    proof {
                        assert(acc@ == merge_step(acc_pre, rest_pre[0], false));
                    }
                },
                _ => {
                    return Err(idx);
                },
            }
        }
        idx += 1;
    }
    proof {
        assert(merged_from(acc@, elems_model(vals@), deep) == acc@);
        if forall|i: int| 0 <= i < vs0.len() ==> wf(#[trigger] vs0[i]) {
            assert(wf(ValueModel::Object(Seq::empty())));
            lemma_merged_from_wf(ValueModel::Object(Seq::empty()), vs0, deep);
        }
    }
    Ok(acc)
}

} // verus!
