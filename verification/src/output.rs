//! Report rendering.
//!
//! Each report entry is rendered as the line `[<label>] (<url>)`, where the
//! label is the title of a successful fetch or the HTTP failure reason.  The
//! report text is the concatenation of one such line per entry, in entry
//! order.  Writing the text to its destination is the caller's business.

use crate::request::RequestResponse;
use vstd::prelude::*;
use vstd::string::{StrSliceExecFns, StringExecFns};

verus! {

/// One report line, newline included.
pub open spec fn line_spec(label: Seq<char>, url: Seq<char>) -> Seq<char> {
    "["@ + label + "] ("@ + url + ")\n"@
}

/// The full report text: one line per entry, in entry order.
pub open spec fn report_text_spec(entries: Seq<(String, RequestResponse)>) -> Seq<char>
    decreases entries.len(),
{
    if entries.len() == 0 {
        Seq::empty()
    } else {
        report_text_spec(entries.drop_last()) + line_spec(
            entries.last().1.label_view(),
            entries.last().0@,
        )
    }
}

/// Renders one report line `[<label>] (<url>)`, newline included.
pub fn render_report_line(url: &str, outcome: &RequestResponse) -> (r: String)
    ensures
        r@ == line_spec(outcome.label_view(), url@),
{
    let mut s = "[".to_owned();
    let label = outcome.text();
    s.append(label.as_str());
    s.append("] (");
    s.append(url);
    s.append(")\n");
    s
}

/// Renders the whole report: one line per entry, in entry order.
pub fn render_report(entries: &Vec<(String, RequestResponse)>) -> (r: String)
    ensures
        r@ == report_text_spec(entries@),
{
    let mut s = String::new();
    let mut i: usize = 0;
    while i < entries.len()
        invariant
            i <= entries@.len(),
            s@ == report_text_spec(entries@.take(i as int)),
        decreases entries@.len() - i,
    {
        let e = &entries[i];
        let line = render_report_line(e.0.as_str(), &e.1);
        s.append(line.as_str());
        i = i + 1;
        assert(entries@.take(i as int).drop_last() =~= entries@.take(i - 1));
        assert(entries@.take(i as int).last() == entries@[i - 1]);
    }
    assert(entries@.take(entries@.len() as int) =~= entries@);
    s
}

} // verus!
