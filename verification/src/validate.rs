//! Validation mode: parse every named input, record a verdict for each —
//! none skipped, in input order — and report them all, one line per input.
use vstd::prelude::*;
use vstd::string::StringExecFns;

use crate::Document;
use crate::parse::parse_diag;
use crate::parse::parse_document;
use crate::parse::parsed_doc;
use crate::text::join_with;
use crate::text::strings_model;

verus! {

/// The verdict for one named input: the parser's diagnostic, or none when
/// the input is valid.
pub struct ValidationEntry {
    pub name: String,
    pub error: Option<String>,
}

/// The report line for one verdict.
pub open spec fn entry_line(name: Seq<char>, error: Option<Seq<char>>) -> Seq<char> {
    match error {
        None => "VALID: "@ + name,
        Some(e) => "INVALID: "@ + name + " - "@ + e,
    }
}

pub open spec fn entry_model(e: ValidationEntry) -> Seq<char> {
    entry_line(
        e.name@,
        match e.error {
            Some(s) => Some(s@),
            None => None,
        },
    )
}

/// The report lines of all verdicts, in order.
pub open spec fn entries_lines(entries: Seq<ValidationEntry>) -> Seq<Seq<char>> {
    Seq::new(entries.len(), |i: int| entry_model(entries[i]))
}

/// The verdict line one named text earns: valid when it parses, otherwise
/// invalid with the parser's diagnostic.
pub open spec fn verdict_line(name: Seq<char>, text: Seq<char>) -> Seq<char> {
    if parsed_doc(text) is Some {
        entry_line(name, None)
    } else {
        entry_line(name, Some(parse_diag(text)))
    }
}

/// The whole report a sequence of named texts earns: one verdict line per
/// input, in input order.
pub open spec fn views_report(views: Seq<(Seq<char>, Seq<char>)>) -> Seq<char> {
    join_with(Seq::new(views.len(), |i: int| verdict_line(views[i].0, views[i].1)), "\n"@)
}

/// Parse every input and record one verdict per input, in input order,
/// never stopping early: an input is recorded valid exactly when its text
/// parses, and an invalid one carries the parser's diagnostic. The flag is
/// true exactly when every input parsed.
#[verifier::loop_isolation(false)]
pub fn validate(docs: &Vec<Document>) -> (r: (Vec<ValidationEntry>, bool))
    ensures
        r.0@.len() == docs@.len(),
        forall|i: int| 0 <= i < docs@.len() ==> r.0@[i].name@ == docs@[i].name@,
        forall|i: int|
            0 <= i < docs@.len() ==> ((#[trigger] r.0@[i].error) is None <==> parsed_doc(
                docs@[i].text@,
            ) is Some),
        forall|i: int|
            0 <= i < docs@.len() ==> ((#[trigger] r.0@[i].error) is Some ==> r.0@[i].error->0@
                == parse_diag(docs@[i].text@)),
        r.1 <==> forall|i: int| 0 <= i < r.0@.len() ==> r.0@[i].error is None,
{
    let mut entries: Vec<ValidationEntry> = Vec::new();
    let mut all_valid = true;
    let mut i: usize = 0;
    while i < docs.len()
        invariant
            i <= docs@.len(),
            entries@.len() == i,
            forall|j: int| 0 <= j < i ==> entries@[j].name@ == docs@[j].name@,
            forall|j: int|
                0 <= j < i ==> ((#[trigger] entries@[j].error) is None <==> parsed_doc(
                    docs@[j].text@,
                ) is Some),
            forall|j: int|
                0 <= j < i ==> ((#[trigger] entries@[j].error) is Some ==> entries@[j].error->0@
                    == parse_diag(docs@[j].text@)),
            all_valid ==> forall|j: int| 0 <= j < i ==> entries@[j].error is None,
            !all_valid ==> exists|j: int| 0 <= j < i && (#[trigger] entries@[j].error) is Some,
        decreases docs@.len() - i,
    {
        let doc = &docs[i];
        let ghost pre = entries@;
        let was_valid = all_valid;
        match parse_document(doc.text.as_str()) {
            Ok(_parsed) => {
                entries.push(ValidationEntry { name: doc.name.clone(), error: None });
            },
            Err(detail) => {
                entries.push(ValidationEntry { name: doc.name.clone(), error: Some(detail) });
                all_valid = false;
            },
        }
        proof {
            if !all_valid {
                if !was_valid {
                    let j0 = choose|j: int| 0 <= j < pre.len() && (#[trigger] pre[j].error)
                        is Some;
                    assert(entries@[j0] == pre[j0]);
                    assert(0 <= j0 < i + 1 && (entries@[j0].error) is Some);
                } else {
                    assert((entries@[i as int].error) is Some);
                }
            }
        }
        i += 1;
    }
    proof {
        if !all_valid {
            let j0 = choose|j: int| 0 <= j < i && (#[trigger] entries@[j].error) is Some;
            assert(!(entries@[j0].error is None));
        }
    }
    (entries, all_valid)
}

/// The report line for one verdict.
fn entry_line_string(e: &ValidationEntry) -> (r: String)
    ensures
        r@ == entry_model(*e),
{
    match &e.error {
        None => {
            let mut m = String::new();
            m.append("VALID: ");
            m.append(e.name.as_str());
            m
        },
        Some(detail) => {
            let mut m = String::new();
            m.append("INVALID: ");
            m.append(e.name.as_str());
            m.append(" - ");
            m.append(detail.as_str());
            m
        },
    }
}

/// The whole report: one line per verdict, in input order.
pub fn render_report(entries: &Vec<ValidationEntry>) -> (r: String)
    ensures
        r@ == join_with(entries_lines(entries@), "\n"@),
{
    let mut lines: Vec<String> = Vec::new();
    let mut i: usize = 0;
    while i < entries.len()
        invariant
            i <= entries@.len(),
            lines@.len() == i,
            forall|j: int| 0 <= j < i ==> lines@[j]@ == entry_model(entries@[j]),
        decreases entries@.len() - i,
    {
        lines.push(entry_line_string(&entries[i]));
        i += 1;
    }
    proof {
        assert(strings_model(lines@) =~= entries_lines(entries@));
    }
    crate::text::join_strings(&lines, "\n")
}

} // verus!
