use pdf2text::{normalize_whitespace, process_extracted_text};

#[test]
fn test_text_processing() {
    let raw_text = "This is a test\n   \n\nwith multiple    spaces\nand line breaks";
    let processed = process_extracted_text(raw_text);

    assert!(processed.contains("This is a test with multiple spaces and line breaks"));
    assert!(processed.contains("=== PDF TEXT EXTRACTION ==="));
}

#[test]
fn scenario_content_region_exact() {
    let content =
        normalize_whitespace("This is a test\n   \n\nwith multiple    spaces\nand line breaks");
    assert_eq!(content, "This is a test with multiple spaces and line breaks");
}

#[test]
fn empty_input_header_footer_only() {
    assert_eq!(normalize_whitespace(""), "");
    let out = process_extracted_text("");
    assert_eq!(
        out,
        "=== PDF TEXT EXTRACTION ===\nThis text was extracted from a PDF file for AI processing.\nSome formatting and layout information may be lost.\n=== CONTENT BEGINS ===\n\n\n\n=== CONTENT ENDS ===\n"
    );
}

#[test]
fn markers_wrap_every_output() {
    let out = process_extracted_text("hello");
    assert!(out.starts_with(
        "=== PDF TEXT EXTRACTION ===\nThis text was extracted from a PDF file for AI processing.\nSome formatting and layout information may be lost.\n=== CONTENT BEGINS ===\n\n"
    ));
    assert!(out.ends_with("\n\n=== CONTENT ENDS ===\n"));
    assert_eq!(
        out,
        "=== PDF TEXT EXTRACTION ===\nThis text was extracted from a PDF file for AI processing.\nSome formatting and layout information may be lost.\n=== CONTENT BEGINS ===\n\nhello\n\n=== CONTENT ENDS ===\n"
    );
}

#[test]
fn content_single_spaced() {
    let content = normalize_whitespace("  a\t\tb\r\nc  d \u{00A0} e\u{3000}f  ");
    assert_eq!(content, "a b c d e f");
    assert!(!content.contains("  "));
    assert!(!content.contains('\n'));
}

#[test]
fn normalize_idempotent_samples() {
    let once =
        normalize_whitespace("This is a test\n   \n\nwith multiple    spaces\nand line breaks");
    assert_eq!(normalize_whitespace(&once), once);

    let trimmed = normalize_whitespace("  x \t y  ");
    assert_eq!(trimmed, "x y");
    assert_eq!(normalize_whitespace(&trimmed), trimmed);
}

#[test]
fn all_whitespace_input() {
    assert_eq!(normalize_whitespace(" \n\t\r  \n"), "");
    let out = process_extracted_text(" \n\t\r  \n");
    assert!(out.contains("=== CONTENT BEGINS ===\n\n\n\n=== CONTENT ENDS ==="));
}

#[test]
fn single_word_untouched() {
    assert_eq!(normalize_whitespace("word"), "word");
}
