//! Wrapping of normalized text between the fixed header and footer
//! marker lines of the output format.

use vstd::prelude::*;
use vstd::string::StringExecFns;
use crate::normalize::{normalized_text, normalize_whitespace};

verus! {

/// The fixed lines written before the content region, ending with the
/// blank line that separates the markers from the content.
pub open spec fn header_text() -> Seq<char> {
    "=== PDF TEXT EXTRACTION ===\nThis text was extracted from a PDF file for AI processing.\nSome formatting and layout information may be lost.\n=== CONTENT BEGINS ===\n\n"@
}

/// The fixed lines written after the content region.
pub open spec fn footer_text() -> Seq<char> {
    "\n\n=== CONTENT ENDS ===\n"@
}

/// The full output for a given content region: header, content, footer.
pub open spec fn wrapped(content: Seq<char>) -> Seq<char> {
    header_text() + content + footer_text()
}

/// Clean up text extracted from a PDF: normalize its whitespace and wrap
/// the result between the fixed header and footer markers.
pub fn process_extracted_text(raw_text: &str) -> (result: String)
    ensures
        result@ == wrapped(normalized_text(raw_text@)),
{
    let content = normalize_whitespace(raw_text);
    let mut result = String::from_str(
        "=== PDF TEXT EXTRACTION ===\nThis text was extracted from a PDF file for AI processing.\nSome formatting and layout information may be lost.\n=== CONTENT BEGINS ===\n\n",
    );
    result.append(content.as_str());
    result.append("\n\n=== CONTENT ENDS ===\n");
    result
}

/// Every output begins with the exact header marker lines, ends with the
/// exact footer marker lines, and holds exactly the content region
/// between them, whatever that region holds.
pub proof fn lemma_wrapped_markers(content: Seq<char>)
    ensures
        wrapped(content).len() == header_text().len() + content.len() + footer_text().len(),
        wrapped(content).subrange(0, header_text().len() as int) == header_text(),
        wrapped(content).subrange(
            wrapped(content).len() - footer_text().len(),
            wrapped(content).len() as int,
        ) == footer_text(),
        wrapped(content).subrange(
            header_text().len() as int,
            wrapped(content).len() - footer_text().len(),
        ) == content,
{
    assert(wrapped(content).subrange(0, header_text().len() as int) =~= header_text());
    assert(wrapped(content).subrange(
        wrapped(content).len() - footer_text().len(),
        wrapped(content).len() as int,
    ) =~= footer_text());
    assert(wrapped(content).subrange(
        header_text().len() as int,
        wrapped(content).len() - footer_text().len(),
    ) =~= content);
}

/// Empty input yields an empty content region: the output is the header
/// immediately followed by the footer.
pub proof fn lemma_empty_input()
    ensures
        normalized_text(Seq::<char>::empty()) == Seq::<char>::empty(),
        wrapped(normalized_text(Seq::<char>::empty())) == header_text() + footer_text(),
{
    assert(wrapped(Seq::<char>::empty()) =~= header_text() + footer_text());
}

} // verus!
