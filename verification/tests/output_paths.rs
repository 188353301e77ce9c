use pdf2text::default_output_path;

#[test]
fn default_output_simple() {
    assert_eq!(default_output_path("document.pdf"), "document.txt");
}

#[test]
fn default_output_with_directories() {
    assert_eq!(default_output_path("/path/to/report.pdf"), "report.txt");
}

#[test]
fn default_output_no_extension() {
    assert_eq!(default_output_path("notes"), "notes.txt");
}

#[test]
fn default_output_hidden_file() {
    assert_eq!(default_output_path(".bashrc"), ".bashrc.txt");
}

#[test]
fn default_output_two_extensions() {
    assert_eq!(default_output_path("bundle.tar.gz"), "bundle.tar.txt");
}

#[test]
fn default_output_trailing_slash() {
    assert_eq!(default_output_path("dir/sub/"), "sub.txt");
}

#[test]
fn default_output_dot_at_end() {
    assert_eq!(default_output_path("odd."), "odd.txt");
}
