use csweep::is_source_or_header_file;

#[test]
fn plain_c_and_h_files_are_accepted() {
    assert!(is_source_or_header_file("foo.c"));
    assert!(is_source_or_header_file("foo.h"));
    assert!(is_source_or_header_file("dir/sub/foo.c"));
    assert!(is_source_or_header_file("dir/sub/foo.h"));
    assert!(is_source_or_header_file("a.b/x.c"));
    assert!(is_source_or_header_file("name.with.dots.h"));
}

#[test]
fn other_extensions_are_rejected() {
    assert!(!is_source_or_header_file("foo.cpp"));
    assert!(!is_source_or_header_file("foo.hh"));
    assert!(!is_source_or_header_file("foo.rs"));
    assert!(!is_source_or_header_file("foo.C"));
}

#[test]
fn files_without_an_extension_are_rejected() {
    assert!(!is_source_or_header_file("foo"));
    assert!(!is_source_or_header_file("dir/foo"));
    assert!(!is_source_or_header_file(""));
    assert!(!is_source_or_header_file("foo."));
}

#[test]
fn hidden_files_have_no_extension() {
    assert!(!is_source_or_header_file(".c"));
    assert!(!is_source_or_header_file("dir/.h"));
    assert!(is_source_or_header_file(".hidden.c"));
    assert!(is_source_or_header_file("..c"));
    assert!(!is_source_or_header_file("..."));
}

#[test]
fn the_dot_must_lie_in_the_file_name_part() {
    assert!(!is_source_or_header_file("a.c/b"));
    assert!(!is_source_or_header_file("a.c/bc"));
}

#[test]
fn trailing_separators_are_ignored() {
    assert!(is_source_or_header_file("dir.c/"));
    assert!(is_source_or_header_file("foo.c//"));
    assert!(is_source_or_header_file("foo.h/."));
    assert!(is_source_or_header_file("a/b.c/./"));
}

#[test]
fn dot_and_parent_components_yield_no_extension() {
    assert!(!is_source_or_header_file("."));
    assert!(!is_source_or_header_file("./"));
    assert!(!is_source_or_header_file(".."));
    assert!(!is_source_or_header_file("a.c/.."));
    assert!(!is_source_or_header_file("a.c/../"));
    assert!(is_source_or_header_file("./a.c"));
}
