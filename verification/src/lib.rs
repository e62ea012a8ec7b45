//! Conversion engine for structured-configuration documents: a canonical
//! tagged value model, shallow and deep merge of many documents, projection
//! of a dotted path into a sub-value, and rendering back to text with
//! configurable indentation and quote style. Reading inputs, expanding file
//! patterns and writing output belong to the surrounding program; this
//! library works on named document texts and plain values.
use vstd::prelude::*;
use vstd::string::StringExecFns;

pub mod merge;
pub mod outside;
pub mod parse;
pub mod project;
pub mod ser;
pub mod text;
pub mod validate;
pub mod value;

pub use merge::merge_values;
pub use parse::parse_document;
pub use project::ProjectionError;
pub use project::project;
pub use ser::serialize;
pub use validate::ValidationEntry;
pub use validate::render_report;
pub use validate::validate;
pub use value::Number;
pub use value::JsonValue;
pub use value::ValueModel;
pub use value::NumberModel;

use crate::merge::merged_all;
use crate::parse::parsed_doc;
use crate::project::WalkOutcome;
use crate::project::split_dots;
use crate::project::walk;
use crate::ser::rendered;
use crate::text::chars_to_string;
use crate::text::count_lines;
use crate::text::dec_digits;
use crate::text::join_with;
use crate::text::line_count;
use crate::text::push_u64;
use crate::text::strings_model;
use crate::validate::entries_lines;
use crate::validate::entry_model;
use crate::validate::verdict_line;
use crate::validate::views_report;
use crate::value::elems_model;
use crate::value::lemma_elems_model_index;
use crate::value::lemma_elems_model_len;
use crate::value::value_model;

verus! {

/// How one invocation behaves: validation only, or merge (shallow unless
/// `deep_merge`), optional projection of `property`, and rendering under
/// `pretty`, `indent` and `single_quotes`.
pub struct Config {
    pub pretty: bool,
    pub indent: usize,
    pub validate: bool,
    pub single_quotes: bool,
    pub deep_merge: bool,
    pub property: Option<String>,
}

/// One named input: the name is used in every diagnostic about it.
pub struct Document {
    pub name: String,
    pub text: String,
}

/// Everything that can go wrong in one invocation.
#[derive(Debug)]
pub enum Error {
    /// No documents and no alternate input text were supplied.
    NoInput,
    /// Validation mode was asked to run on nothing.
    NoValidationInput,
    /// A document did not parse; `detail` is the terse diagnostic.
    Parse { name: String, detail: String },
    /// A document that was to take part in a shallow merge is not an object.
    Merge { name: String },
    /// The requested property path did not resolve.
    Projection(ProjectionError),
    /// Validation found at least one invalid input; the full per-input
    /// report is kept alongside.
    Validation { report: String },
}

impl Error {
    /// The diagnostic line for this failure.
    pub fn message(&self) -> (r: String)
        ensures
            match self {
                Error::NoInput => r@ == "No input provided"@,
                Error::NoValidationInput => r@ == "No files or input provided for validation"@,
                Error::Parse { name, detail } => r@ == "Failed to parse HCL in "@ + name@ + ": "@
                    + detail@,
                Error::Merge { name } => r@ == "Cannot merge non-object HCL content from: "@
                    + name@,
                Error::Projection(e) => r@ == match e {
                    ProjectionError::KeyNotFound { path, resolved, available } => "Property '"@
                        + path@ + "' not found at '"@ + resolved@ + "' (available properties: "@
                        + crate::text::join_with(crate::text::strings_model(available@), ", "@)
                        + ")"@,
                    ProjectionError::NotAnObject { segment, resolved } => "Cannot access property '"@
                        + segment@ + "' on non-object at path '"@ + resolved@ + "'"@,
                },
                Error::Validation { report } => r@
                    == "Validation failed: one or more files contain invalid HCL"@,
            },
    {
        match self {
            Error::NoInput => String::from_str("No input provided"),
            Error::NoValidationInput => String::from_str(
                "No files or input provided for validation",
            ),
            Error::Parse { name, detail } => {
                let mut m = String::new();
                m.append("Failed to parse HCL in ");
                m.append(name.as_str());
                m.append(": ");
                m.append(detail.as_str());
                m
            },
            Error::Merge { name } => {
                let mut m = String::new();
                m.append("Cannot merge non-object HCL content from: ");
                m.append(name.as_str());
                m
            },
            Error::Projection(e) => e.message(),
            Error::Validation { report: _ } => String::from_str(
                "Validation failed: one or more files contain invalid HCL",
            ),
        }
    }
}

/// A terse parse diagnostic: how many lines the offending text has.
pub fn format_hcl_error_simple(content: &str) -> (r: String)
    ensures
        r@ == parse_detail(content@),
{
    let n = count_lines(content);
    let mut digits: Vec<char> = Vec::new();
    push_u64(n as u64, &mut digits);
    let rendered = chars_to_string(&digits);
    let mut m = String::new();
    m.append("syntax error (file has ");
    m.append(rendered.as_str());
    m.append(" lines)");
    m
}

/// The (name, text) views of the documents, in order.
pub open spec fn doc_views(docs: Seq<Document>) -> Seq<(Seq<char>, Seq<char>)> {
    Seq::new(docs.len(), |i: int| (docs[i].name@, docs[i].text@))
}

/// What one invocation works on: the named documents, or the alternate
/// input text standing in as the single document named "stdin".
pub open spec fn effective_views(documents: Seq<Document>, input: Option<String>) -> Seq<
    (Seq<char>, Seq<char>),
> {
    if documents.len() > 0 {
        doc_views(documents)
    } else {
        match input {
            Some(t) => seq![("stdin"@, t@)],
            None => Seq::<(Seq<char>, Seq<char>)>::empty(),
        }
    }
}

/// Every document text parses.
pub open spec fn all_documents_parse(views: Seq<(Seq<char>, Seq<char>)>) -> bool {
    forall|i: int| 0 <= i < views.len() ==> parsed_doc((#[trigger] views[i]).1) is Some
}

/// The parsed documents, in order.
pub open spec fn parsed_values(views: Seq<(Seq<char>, Seq<char>)>) -> Seq<ValueModel> {
    Seq::new(views.len(), |i: int| parsed_doc(views[i].1)->Some_0)
}

/// The position of the first document whose text does not parse.
pub open spec fn first_unparsed(views: Seq<(Seq<char>, Seq<char>)>) -> int
    decreases views.len(),
{
    if views.len() == 0 {
        0
    } else if parsed_doc(views[0].1) is None {
        0
    } else {
        1 + first_unparsed(views.drop_first())
    }
}

/// The position of the first value that is not an object.
pub open spec fn first_non_object(vals: Seq<ValueModel>) -> int
    decreases vals.len(),
{
    if vals.len() == 0 {
        0
    } else if !(vals[0] is Object) {
        0
    } else {
        1 + first_non_object(vals.drop_first())
    }
}

/// The one combined document: a single input is kept unchanged, several
/// inputs are merged under the policy.
pub open spec fn combined_value(views: Seq<(Seq<char>, Seq<char>)>, deep: bool) -> ValueModel {
    if views.len() == 1 {
        parsed_values(views)[0]
    } else {
        merged_all(parsed_values(views), deep)
    }
}

/// The terse parse diagnostic the pipeline reports for a failing text.
pub open spec fn parse_detail(text: Seq<char>) -> Seq<char> {
    "syntax error (file has "@ + dec_digits(line_count(text)) + " lines)"@
}

proof fn lemma_first_unparsed_at(views: Seq<(Seq<char>, Seq<char>)>, i: int)
    requires
        0 <= i < views.len(),
        forall|j: int| 0 <= j < i ==> parsed_doc((#[trigger] views[j]).1) is Some,
        parsed_doc(views[i].1) is None,
    ensures
        first_unparsed(views) == i,
    decreases i,
{
    if i > 0 {
        assert(parsed_doc(views[0].1) is Some);
        assert forall|j: int| 0 <= j < i - 1 implies parsed_doc(
            (#[trigger] views.drop_first()[j]).1,
        ) is Some by {
            assert(parsed_doc(views[j + 1].1) is Some);
        }
        lemma_first_unparsed_at(views.drop_first(), i - 1);
    }
}

proof fn lemma_first_non_object_at(vals: Seq<ValueModel>, i: int)
    requires
        0 <= i < vals.len(),
        forall|j: int| 0 <= j < i ==> (#[trigger] vals[j]) is Object,
        !(vals[i] is Object),
    ensures
        first_non_object(vals) == i,
    decreases i,
{
    if i > 0 {
        assert(vals[0] is Object);
        assert forall|j: int| 0 <= j < i - 1 implies (#[trigger] vals.drop_first()[j])
            is Object by {
            assert(vals[j + 1] is Object);
        }
        lemma_first_non_object_at(vals.drop_first(), i - 1);
    }
}

/// One full invocation over named document texts (`input` standing in for
/// the documents when none are given, as text read from elsewhere, named
/// "stdin"). Validation mode reports every input's verdict, in order, and
/// fails exactly when some input is invalid. Otherwise the documents are
/// parsed — the first failing one is reported with its line-count
/// diagnostic — merged (one document is kept unchanged; under the shallow
/// policy the first non-object document is an error), the optional
/// property path is projected with its exact failure diagnostics, and the
/// value reached is rendered under the configuration's formatting options.
#[verifier::loop_isolation(false)]
pub fn process_hcl(config: Config, documents: Vec<Document>, input: Option<String>) -> (r: Result<
    String,
    Error,
>)
    ensures
        ({
            let vs = effective_views(documents@, input);
            &&& (vs.len() == 0 && config.validate ==> r matches Err(Error::NoValidationInput))
            &&& (vs.len() == 0 && !config.validate ==> r matches Err(Error::NoInput))
            &&& (vs.len() > 0 && config.validate ==> (if all_documents_parse(vs) {
                r matches Ok(s) && s@ == views_report(vs)
            } else {
                r matches Err(Error::Validation { report }) && report@ == views_report(vs)
            }))
            &&& (vs.len() > 0 && !config.validate && !all_documents_parse(vs) ==> (r matches Err(
                Error::Parse { name, detail },
            ) && name@ == vs[first_unparsed(vs)].0 && detail@ == parse_detail(
                vs[first_unparsed(vs)].1,
            )))
            &&& (vs.len() > 0 && !config.validate && all_documents_parse(vs) ==> (if vs.len() > 1
                && !config.deep_merge && !(forall|i: int|
                0 <= i < vs.len() ==> (#[trigger] parsed_values(vs)[i]) is Object) {
                r matches Err(Error::Merge { name }) && name@ == vs[first_non_object(
                    parsed_values(vs),
                )].0
            } else {
                let m = combined_value(vs, config.deep_merge);
                match config.property {
                    None => r matches Ok(s) && s@ == rendered(
                        m,
                        config.pretty,
                        config.indent as nat,
                        config.single_quotes,
                    ),
                    Some(p) => if p@.len() == 0 {
                        r matches Ok(s) && s@ == rendered(
                            m,
                            config.pretty,
                            config.indent as nat,
                            config.single_quotes,
                        )
                    } else {
                        match walk(m, split_dots(p@), 0) {
                            WalkOutcome::Found(sub) => r matches Ok(s) && s@ == rendered(
                                sub,
                                config.pretty,
                                config.indent as nat,
                                config.single_quotes,
                            ),
                            WalkOutcome::KeyMissing { at, keys } => r matches Err(
                                Error::Projection(
                                    ProjectionError::KeyNotFound { path, resolved, available },
                                ),
                            ) && path@ == p@ && resolved@ == join_with(
                                split_dots(p@).take(at + 1),
                                "."@,
                            ) && strings_model(available@) == keys,
                            WalkOutcome::NotObject { at } => r matches Err(
                                Error::Projection(
                                    ProjectionError::NotAnObject { segment, resolved },
                                ),
                            ) && segment@ == split_dots(p@)[at] && resolved@ == join_with(
                                split_dots(p@).take(at),
                                "."@,
                            ),
                        }
                    },
                }
            }))
        }),
{
    let ghost vs = effective_views(documents@, input);
    let docs: Vec<Document> = if documents.len() == 0 {
        match input {
            Some(text) => {
                let mut one: Vec<Document> = Vec::new();
                one.push(Document { name: String::from_str("stdin"), text });
                proof {
                    assert(doc_views(one@) =~= vs);
                }
                one
            },
            None => {
                if config.validate {
                    return Err(Error::NoValidationInput);
                } else {
                    return Err(Error::NoInput);
                }
            },
        }
    } else {
        proof {
            assert(doc_views(documents@) =~= vs);
        }
        documents
    };
    proof {
        assert(doc_views(docs@) == vs);
        assert(vs.len() == docs@.len());
        assert forall|k: int| 0 <= k < docs@.len() implies #[trigger] docs@[k].name@ == vs[k].0
            && docs@[k].text@ == vs[k].1 by {
            assert(doc_views(docs@)[k] == (docs@[k].name@, docs@[k].text@));
        }
    }

    if config.validate {
        let (entries, all_valid) = validate(&docs);
        let report = render_report(&entries);
        proof {
            assert forall|k: int| 0 <= k < entries@.len() implies #[trigger] entries_lines(
                entries@,
            )[k] == verdict_line(vs[k].0, vs[k].1) by {
                assert(entry_model(entries@[k]) == verdict_line(vs[k].0, vs[k].1));
            }
            assert(entries_lines(entries@) =~= Seq::new(
                vs.len(),
                |i: int| verdict_line(vs[i].0, vs[i].1),
            ));
            if all_valid {
                assert forall|k: int| 0 <= k < vs.len() implies parsed_doc(
                    (#[trigger] vs[k]).1,
                ) is Some by {
                    assert(entries@[k].error is None);
                }
            } else {
                assert(!all_documents_parse(vs)) by {
                    if all_documents_parse(vs) {
                        assert forall|k: int|
                            0 <= k < entries@.len() implies (#[trigger] entries@[k].error)
                            is None by {
                            assert(parsed_doc(vs[k].1) is Some);
                        }
                    }
                }
            }
        }
        if all_valid {
            return Ok(report);
        } else {
            return Err(Error::Validation { report });
        }
    }

    let mut values: Vec<JsonValue> = Vec::new();
    let mut i: usize = 0;
    while i < docs.len()
        invariant
            i <= docs@.len(),
            values@.len() == i,
            forall|j: int| 0 <= j < i ==> parsed_doc((#[trigger] docs@[j].text)@) is Some,
            forall|j: int|
                0 <= j < i ==> value_model(#[trigger] values@[j]) == parsed_doc(
                    docs@[j].text@,
                )->Some_0,
        decreases docs@.len() - i,
    {
        let doc = &docs[i];
        match parse_document(doc.text.as_str()) {
            Ok(v) => {
                values.push(v);
            },
            Err(_raw) => {
                let detail = format_hcl_error_simple(doc.text.as_str());
                proof {
                    assert forall|j: int| 0 <= j < i implies parsed_doc(
                        (#[trigger] vs[j]).1,
                    ) is Some by {
                        assert(parsed_doc(docs@[j].text@) is Some);
                    }
                    lemma_first_unparsed_at(vs, i as int);
                    assert(!all_documents_parse(vs)) by {
                        if all_documents_parse(vs) {
                            assert(parsed_doc(vs[i as int].1) is Some);
                        }
                    }
                }
                return Err(Error::Parse { name: doc.name.clone(), detail });
            },
        }
        i += 1;
    }
    proof {
        assert forall|k: int| 0 <= k < values@.len() implies #[trigger] elems_model(values@)[k]
            == parsed_values(vs)[k] by {
            lemma_elems_model_index(values@, k);
        }
        lemma_elems_model_len(values@);
        assert(elems_model(values@) =~= parsed_values(vs));
        assert(all_documents_parse(vs));
    }

    let merged: JsonValue = if values.len() == 1 {
        let mut values = values;
        values.remove(0)
    } else {
        match merge_values(values, config.deep_merge) {
            Ok(v) => v,
            Err(j) => {
                proof {
                    lemma_first_non_object_at(parsed_values(vs), j as int);
                    assert(!(forall|i2: int|
                        0 <= i2 < vs.len() ==> (#[trigger] parsed_values(vs)[i2]) is Object)) by {
                        if forall|i2: int|
                            0 <= i2 < vs.len() ==> (#[trigger] parsed_values(vs)[i2]) is Object {
                            assert(parsed_values(vs)[j as int] is Object);
                        }
                    }
                }
                return Err(Error::Merge { name: docs[j].name.clone() });
            },
        }
    };
    let ghost m = combined_value(vs, config.deep_merge);
    proof {
        assert(merged@ == m);
    }

    let result: JsonValue = match &config.property {
        Some(p) => match project(&merged, p.as_str()) {
            Ok(v) => v,
            Err(e) => {
                return Err(Error::Projection(e));
            },
        },
        None => merged,
    };

    Ok(serialize(&result, config.pretty, config.indent, config.single_quotes))
}

} // verus!
