//! The path projector: resolves a dotted path into a sub-value of a
//! document, or reports precisely where resolution stopped — the key that
//! is missing together with the keys available there, or the segment that
//! was applied to a non-object node.
use vstd::prelude::*;
use vstd::string::StringExecFns;

use crate::text::chars_to_string;
use crate::text::join_with;
use crate::text::str_to_chars;
use crate::text::strings_model;
use crate::value::JsonValue;
use crate::value::ValueModel;
use crate::value::fields_model;
use crate::value::find_key;
use crate::value::lemma_fields_model_index;
use crate::value::lemma_fields_model_len;
use crate::value::lemma_lookup_at;
use crate::value::lemma_lookup_none;
use crate::value::obj_keys;
use crate::value::obj_lookup;

verus! {

broadcast use {
    crate::value::lemma_fields_model_len,
    crate::value::lemma_fields_model_index,
};

/// A left-to-right scan splitting on dots: `done` holds the finished
/// segments, `cur` the one being read.
pub open spec fn split_acc(s: Seq<char>, done: Seq<Seq<char>>, cur: Seq<char>) -> Seq<Seq<char>>
    decreases s.len(),
{
    if s.len() == 0 {
        done.push(cur)
    } else if s[0] == '.' {
        split_acc(s.drop_first(), done.push(cur), Seq::empty())
    } else {
        split_acc(s.drop_first(), done, cur.push(s[0]))
    }
}

/// The dot-separated segments of a path. An empty path has one empty
/// segment; callers treat the empty path as the identity projection.
pub open spec fn split_dots(s: Seq<char>) -> Seq<Seq<char>> {
    split_acc(s, Seq::empty(), Seq::empty())
}

/// Where a walk of the segments ends up.
pub enum WalkOutcome {
    /// Every segment resolved; this is the value reached.
    Found(ValueModel),
    /// The node at segment `at` is an object without that key; `keys` is
    /// what it offers instead.
    KeyMissing { at: int, keys: Seq<Seq<char>> },
    /// The node at segment `at` is not an object, so no key applies.
    NotObject { at: int },
}

/// Walk the segments from index `i` downward from `m`.
pub open spec fn walk(m: ValueModel, segs: Seq<Seq<char>>, i: int) -> WalkOutcome
    decreases segs.len() - i,
{
    if i < 0 || i >= segs.len() {
        WalkOutcome::Found(m)
    } else {
        match m {
            ValueModel::Object(fs) => match obj_lookup(fs, segs[i]) {
                Some(x) => walk(x, segs, i + 1),
                None => WalkOutcome::KeyMissing { at: i, keys: obj_keys(fs) },
            },
            _ => WalkOutcome::NotObject { at: i },
        }
    }
}

/// Scanning dot-free text only grows the current segment.
proof fn lemma_split_acc_nodot(
    a: Seq<char>,
    rest: Seq<char>,
    done: Seq<Seq<char>>,
    cur: Seq<char>,
)
    requires
        forall|i: int| 0 <= i < a.len() ==> a[i] != '.',
    ensures
        split_acc(a + rest, done, cur) == split_acc(rest, done, cur + a),
    decreases a.len(),
{
    if a.len() == 0 {
        assert(a + rest =~= rest);
        assert(cur + a =~= cur);
    } else {
        assert((a + rest)[0] == a[0]);
        assert((a + rest).drop_first() =~= a.drop_first() + rest);
        assert forall|i: int| 0 <= i < a.drop_first().len() implies a.drop_first()[i] != '.' by {
            assert(a[i + 1] != '.');
        }
        lemma_split_acc_nodot(a.drop_first(), rest, done, cur.push(a[0]));
        assert(cur.push(a[0]) + a.drop_first() =~= cur + a);
    }
}

/// A path of two dot-free segments splits into exactly those segments.
pub proof fn lemma_split_two(a: Seq<char>, b: Seq<char>)
    requires
        forall|i: int| 0 <= i < a.len() ==> a[i] != '.',
        forall|i: int| 0 <= i < b.len() ==> b[i] != '.',
    ensures
        split_dots(a + seq!['.'] + b) == seq![a, b],
{
    let s = a + seq!['.'] + b;
    let dotted = seq!['.'] + b;
    assert(s =~= a + dotted);
    lemma_split_acc_nodot(a, dotted, Seq::empty(), Seq::empty());
    assert(Seq::<char>::empty() + a =~= a);
    assert(dotted[0] == '.');
    assert(dotted.drop_first() =~= b);
    let done1 = Seq::<Seq<char>>::empty().push(a);
    assert(split_acc(dotted, Seq::empty(), a) == split_acc(b, done1, Seq::empty()));
    lemma_split_acc_nodot(b, Seq::empty(), done1, Seq::empty());
    assert(b + Seq::<char>::empty() =~= b);
    assert(Seq::<char>::empty() + b =~= b);
    assert(split_acc(Seq::empty(), done1, b) == done1.push(b));
    assert(done1.push(b) =~= seq![a, b]);
}

/// Projection of a two-segment path: where the nested value exists the walk
/// finds exactly it; where the first step reaches a non-object the walk
/// stops there, naming the first segment alone as resolved; where the first
/// step reaches an object without the second key the walk stops naming both
/// segments and listing the keys available. The join clauses give the
/// resolved sub-paths those outcomes produce.
pub proof fn lemma_project_two_segments(root: ValueModel, a: Seq<char>, b: Seq<char>)
    requires
        root is Object,
    ensures
        obj_lookup(root->Object_0, a) is None ==> walk(root, seq![a, b], 0)
            == (WalkOutcome::KeyMissing { at: 0, keys: obj_keys(root->Object_0) }),
        obj_lookup(root->Object_0, a) is Some && !(obj_lookup(root->Object_0, a)->Some_0
            is Object) ==> walk(root, seq![a, b], 0) == (WalkOutcome::NotObject { at: 1 }),
        obj_lookup(root->Object_0, a) is Some && obj_lookup(root->Object_0, a)->Some_0 is Object
            ==> walk(root, seq![a, b], 0) == match obj_lookup(
            obj_lookup(root->Object_0, a)->Some_0->Object_0,
            b,
        ) {
            Some(w) => WalkOutcome::Found(w),
            None => WalkOutcome::KeyMissing {
                at: 1,
                keys: obj_keys(obj_lookup(root->Object_0, a)->Some_0->Object_0),
            },
        },
        join_with(seq![a, b].take(1), "."@) == a,
        join_with(seq![a, b].take(2), "."@) == a + "."@ + b,
{
    let segs = seq![a, b];
    assert(segs[0] == a);
    assert(segs[1] == b);
    if obj_lookup(root->Object_0, a) is Some {
        let v = obj_lookup(root->Object_0, a)->Some_0;
        assert(walk(root, segs, 0) == walk(v, segs, 1));
        if v is Object {
            match obj_lookup(v->Object_0, b) {
                Some(w) => {
                    assert(walk(v, segs, 1) == walk(w, segs, 2));
                    assert(walk(w, segs, 2) == WalkOutcome::Found(w));
                },
                None => {},
            }
        }
    }
    assert(segs.take(1) =~= seq![a]);
    assert(seq![a].drop_first() =~= Seq::<Seq<char>>::empty());
    assert(join_with(seq![a], "."@) == a + crate::text::join_tail(Seq::empty(), "."@));
    assert(a + Seq::<char>::empty() =~= a);
    assert(segs.take(2) =~= segs);
    assert(segs.drop_first() =~= seq![b]);
    assert(seq![b].drop_first() =~= Seq::<Seq<char>>::empty());
    assert(crate::text::join_tail(seq![b], "."@) == "."@ + b + crate::text::join_tail(
        Seq::empty(),
        "."@,
    ));
    assert("."@ + b + Seq::<char>::empty() =~= "."@ + b);
    assert(a + ("."@ + b) =~= a + "."@ + b);
}

/// Why a projection failed, with everything needed to diagnose it: the full
/// requested path, the sub-path resolved when resolution stopped, and for a
/// missing key the keys available at that point.
#[derive(Debug)]
pub enum ProjectionError {
    KeyNotFound { path: String, resolved: String, available: Vec<String> },
    NotAnObject { segment: String, resolved: String },
}

impl ProjectionError {
    /// The diagnostic line for this failure.
    pub fn message(&self) -> (r: String)
        ensures
            match self {
                ProjectionError::KeyNotFound { path, resolved, available } => r@ == "Property '"@
                    + path@ + "' not found at '"@ + resolved@ + "' (available properties: "@
                    + join_with(strings_model(available@), ", "@) + ")"@,
                ProjectionError::NotAnObject { segment, resolved } => r@
                    == "Cannot access property '"@ + segment@ + "' on non-object at path '"@
                    + resolved@ + "'"@,
            },
    {
        match self {
            ProjectionError::KeyNotFound { path, resolved, available } => {
                let keys = crate::text::join_strings(available, ", ");
                let mut m = String::new();
                m.append("Property '");
                m.append(path.as_str());
                m.append("' not found at '");
                m.append(resolved.as_str());
                m.append("' (available properties: ");
                m.append(keys.as_str());
                m.append(")");
                m
            },
            ProjectionError::NotAnObject { segment, resolved } => {
                let mut m = String::new();
                m.append("Cannot access property '");
                m.append(segment.as_str());
                m.append("' on non-object at path '");
                m.append(resolved.as_str());
                m.append("'");
                m
            },
        }
    }
}

/// Split a path into its dot-separated segments.
#[verifier::loop_isolation(false)]
fn split_path(path: &str) -> (r: Vec<String>)
    ensures
        strings_model(r@) == split_dots(path@),
        r@.len() > 0,
{
    let cs = str_to_chars(path);
    let mut done: Vec<String> = Vec::new();
    let mut cur: Vec<char> = Vec::new();
    let mut i: usize = 0;
    proof {
        assert(cs@.skip(0) =~= cs@);
        assert(strings_model(done@) =~= Seq::<Seq<char>>::empty());
    }
    while i < cs.len()
        invariant
            i <= cs@.len(),
            split_acc(cs@.skip(i as int), strings_model(done@), cur@) == split_dots(cs@),
        decreases cs@.len() - i,
    {
        proof {
            assert(cs@.skip(i as int)[0] == cs@[i as int]);
            assert(cs@.skip(i as int).drop_first() =~= cs@.skip(i as int + 1));
        }
        let ghost done_pre = strings_model(done@);
        let ghost cur_pre = cur@;
        if cs[i] == '.' {
            done.push(chars_to_string(&cur));
            cur = Vec::new();
            proof {
                assert(strings_model(done@) =~= done_pre.push(cur_pre));
                assert(cur@ =~= Seq::<char>::empty());
            }
        } else {
            cur.push(cs[i]);
        }
        i += 1;
    }
    let ghost done_end = strings_model(done@);
    let ghost cur_end = cur@;
    done.push(chars_to_string(&cur));
    proof {
        assert(cs@.skip(cs@.len() as int) =~= Seq::<char>::empty());
        assert(strings_model(done@) =~= done_end.push(cur_end));
    }
    done
}

/// The first `n` strings, as independent copies.
fn take_strings(v: &Vec<String>, n: usize) -> (r: Vec<String>)
    requires
        n <= v@.len(),
    ensures
        strings_model(r@) == strings_model(v@).take(n as int),
{
    let mut r: Vec<String> = Vec::new();
    let mut i: usize = 0;
    while i < n
        invariant
            i <= n <= v@.len(),
            r@.len() == i,
            forall|k: int| 0 <= k < i ==> r@[k]@ == v@[k]@,
        decreases n - i,
    {
        r.push(v[i].clone());
        i += 1;
    }
    proof {
        assert(strings_model(r@) =~= strings_model(v@).take(n as int));
    }
    r
}

/// The keys of an object's fields, as independent copies, in field order.
fn object_keys(fields: &Vec<(String, JsonValue)>) -> (r: Vec<String>)
    ensures
        strings_model(r@) == obj_keys(fields_model(fields@)),
{
    let mut r: Vec<String> = Vec::new();
    let mut i: usize = 0;
    while i < fields.len()
        invariant
            i <= fields@.len(),
            r@.len() == i,
            forall|k: int| 0 <= k < i ==> r@[k]@ == fields@[k].0@,
        decreases fields@.len() - i,
    {
        r.push(fields[i].0.clone());
        i += 1;
    }
    proof {
        assert(strings_model(r@) =~= obj_keys(fields_model(fields@)));
    }
    r
}

/// Resolve a dotted path against a document. The empty path is the identity
/// projection. Each segment must name a key of the object reached so far;
/// the result is an independent copy of the value reached. A failure
/// reports the full path, the sub-path at which resolution stopped, and —
/// for a missing key — the keys available at that point.
#[verifier::loop_isolation(false)]
pub fn project(root: &JsonValue, path: &str) -> (r: Result<JsonValue, ProjectionError>)
    ensures
        crate::value::wf(root@) && r is Ok ==> crate::value::wf(r->Ok_0@),
        path@.len() == 0 ==> r is Ok && r->Ok_0@ == root@,
        path@.len() > 0 ==> match walk(root@, split_dots(path@), 0) {
            WalkOutcome::Found(m) => r is Ok && r->Ok_0@ == m,
            WalkOutcome::KeyMissing { at, keys } => r matches Err(
                ProjectionError::KeyNotFound { path: p, resolved, available },
            ) && p@ == path@ && resolved@ == join_with(
                split_dots(path@).take(at + 1),
                "."@,
            ) && strings_model(available@) == keys,
            WalkOutcome::NotObject { at } => r matches Err(
                ProjectionError::NotAnObject { segment, resolved },
            ) && segment@ == split_dots(path@)[at] && resolved@ == join_with(
                split_dots(path@).take(at),
                "."@,
            ),
        },
{
    if path.is_empty() {
        return Ok(root.deep_clone());
    }
    let segs = split_path(path);
    let ghost sm = split_dots(path@);
    let mut cur: &JsonValue = root;
    let mut i: usize = 0;
    while i < segs.len()
        invariant
            i <= segs@.len(),
            walk(root@, sm, 0) == walk(cur@, sm, i as int),
            crate::value::wf(root@) ==> crate::value::wf(cur@),
        decreases segs@.len() - i,
    {
        let ghost cur_model = cur@;
        match cur {
            JsonValue::Object(fields) => {
                let ghost fm = fields_model(fields@);
                match find_key(fields, &segs[i]) {
                    Some(j) => {
                        proof {
                            assert forall|k: int| 0 <= k < j implies fm[k].0 != sm[i as int] by {
                                lemma_fields_model_index(fields@, k);
                            }
                            lemma_fields_model_index(fields@, j as int);
                            lemma_lookup_at(fm, sm[i as int], j as int);
                            if crate::value::wf(cur@) {
                                crate::merge::lemma_lookup_wf(fm, sm[i as int]);
                            }
                        }
                        cur = &fields[j].1;
                        i += 1;
                    },
                    None => {
                        proof {
                            assert forall|k: int| 0 <= k < fm.len() implies fm[k].0
                                != sm[i as int] by {
                                lemma_fields_model_index(fields@, k);
                            }
                            lemma_lookup_none(fm, sm[i as int]);
                        }
                        let upto = take_strings(&segs, i + 1);
                        let resolved = crate::text::join_strings(&upto, ".");
                        let available = object_keys(fields);
                        return Err(ProjectionError::KeyNotFound {
                            path: String::from_str(path),
                            resolved,
                            available,
                        });
                    },
                }
            },
            _ => {
                let upto = take_strings(&segs, i);
                let resolved = crate::text::join_strings(&upto, ".");
                return Err(ProjectionError::NotAnObject {
                    segment: segs[i].clone(),
                    resolved,
                });
            },
        }
    }
    Ok(cur.deep_clone())
}

} // verus!
