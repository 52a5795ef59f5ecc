use python_proto_importer::paths::{compute_relative_import_prefix, path_from_module, split_module_qualname};
use python_proto_importer::rewrite::{apply_rewrites_in_tree, rewrite_lines_in_content};
use python_proto_importer::scan::count_import_candidates;

#[test]
fn compute_prefix_basic() {
    let from = "/a/b";
    let to = "/a/c/d";
    let (ups, rem) = compute_relative_import_prefix(from, to).unwrap();
    assert_eq!(ups, 1);
    assert_eq!(rem, "c.d");
}

#[test]
fn compute_prefix_same_dir() {
    let (ups, rem) = compute_relative_import_prefix("/a/b", "/a/b").unwrap();
    assert_eq!(ups, 0);
    assert_eq!(rem, "");
}

#[test]
fn path_from_module_joins_segments() {
    assert_eq!(path_from_module("/r", "pkg.sub", "a_pb2"), "/r/pkg/sub/a_pb2.py");
    assert_eq!(path_from_module("/r", "", "a_pb2"), "/r/a_pb2.py");
}

#[test]
fn split_qualname_cases() {
    assert_eq!(split_module_qualname("pkg.sub.a_pb2"), ("pkg.sub".to_string(), "a_pb2".to_string()));
    assert_eq!(split_module_qualname("a_pb2"), ("".to_string(), "a_pb2".to_string()));
}

#[test]
fn rewrite_import_alias() {
    let root = "/r";
    let sub = "/r/sub";
    let existing = vec!["/r/a_pb2.py".to_string()];
    let content = "import a_pb2 as a__pb2\n";
    let (out, changed) = rewrite_lines_in_content(content, sub, root, false, &existing);
    assert!(changed);
    assert_eq!(out, "from .. import a_pb2 as a__pb2\n");
}

#[test]
fn rewrite_pyi_simple_import() {
    let root = "/r";
    let sub = "/r/pkg";
    let existing = vec!["/r/a_pb2.py".to_string()];
    let content = "import a_pb2\n";
    let (out, changed) = rewrite_lines_in_content(content, sub, root, false, &existing);
    assert!(changed);
    assert_eq!(out, "from .. import a_pb2\n");
}

#[test]
fn skip_google_protobuf() {
    let root = "/r";
    let content = "import google.protobuf.timestamp_pb2 as timestamp__pb2\n";
    let existing: Vec<String> = vec![];
    let (out, changed) = rewrite_lines_in_content(content, root, root, true, &existing);
    assert!(!changed);
    assert_eq!(out, content);
}

#[test]
fn scenario_wellknown_left_byte_identical() {
    // the exclusion wins even when a same-named file exists at the
    // computed target path
    let root = "/r";
    let content = "from google.protobuf import timestamp_pb2 as timestamp__pb2\n";
    let existing = vec!["/r/google/protobuf/timestamp_pb2.py".to_string()];
    let (out, changed) = rewrite_lines_in_content(content, "/r/google/protobuf", root, true, &existing);
    assert!(!changed);
    assert_eq!(out, content);
}

#[test]
fn wellknown_rewritten_without_exclusion() {
    let root = "/r";
    let content = "from google.protobuf import timestamp_pb2 as timestamp__pb2\n";
    let existing = vec!["/r/google/protobuf/timestamp_pb2.py".to_string()];
    let (out, changed) = rewrite_lines_in_content(content, "/r/google/protobuf", root, false, &existing);
    assert!(changed);
    assert_eq!(out, "from . import timestamp_pb2 as timestamp__pb2\n");
}

#[test]
fn from_import_same_directory_single_dot() {
    let root = "/r";
    let content = "from pkg import a_pb2\n";
    let existing = vec!["/r/pkg/a_pb2.py".to_string()];
    let (out, changed) = rewrite_lines_in_content(content, "/r/pkg", root, false, &existing);
    assert!(changed);
    assert_eq!(out, "from . import a_pb2\n");
}

#[test]
fn unresolved_target_left_untouched() {
    let root = "/r";
    let content = "import missing_pb2\n";
    let existing = vec!["/r/other_pb2.py".to_string()];
    let (out, changed) = rewrite_lines_in_content(content, "/r", root, false, &existing);
    assert!(!changed);
    assert_eq!(out, content);
}

#[test]
fn non_binding_import_left_untouched() {
    let root = "/r";
    let content = "import os\nimport sys\n";
    let existing = vec!["/r/os.py".to_string()];
    let (out, changed) = rewrite_lines_in_content(content, "/r", root, false, &existing);
    assert!(!changed);
    assert_eq!(out, content);
}

#[test]
fn annotation_references_substituted() {
    let root = "/r";
    let content = "import pkg.a_pb2\ny = pkg.a_pb2.Msg()\n";
    let existing = vec!["/r/pkg/a_pb2.py".to_string()];
    let (out, changed) = rewrite_lines_in_content(content, "/r", root, false, &existing);
    assert!(changed);
    assert_eq!(out, "from .pkg import a_pb2\ny = a_pb2.Msg()\n");
}

#[test]
fn rewrite_is_idempotent_on_rewritten_content() {
    let root = "/r";
    let existing = vec!["/r/a_pb2.py".to_string(), "/r/sub/b_pb2.py".to_string()];
    let content = "import a_pb2 as a__pb2\nx = a__pb2.M()\n";
    let (out1, changed1) = rewrite_lines_in_content(content, "/r/sub", root, false, &existing);
    assert!(changed1);
    let (out2, changed2) = rewrite_lines_in_content(&out1, "/r/sub", root, false, &existing);
    assert!(!changed2);
    assert_eq!(out1, out2);
}

#[test]
fn scenario_nested_import_rewrite() {
    // the output root holds a_pb2.py and sub/b_pb2.py; the deeper file
    // imports the shallower one and gains one extra leading dot
    let root = "/t/pkg";
    let files = vec![
        ("a_pb2.py".to_string(), "# a\n".to_string()),
        ("sub/b_pb2.py".to_string(), "import a_pb2 as a__pb2\n".to_string()),
    ];
    let existing = vec!["/t/pkg/a_pb2.py".to_string(), "/t/pkg/sub/b_pb2.py".to_string()];
    let suffixes = vec!["_pb2.py".to_string()];
    let planned = apply_rewrites_in_tree(root, false, &suffixes, None, &files, &existing);
    assert_eq!(planned.len(), 1);
    assert_eq!(planned[0].0, 1);
    assert_eq!(planned[0].1, "from .. import a_pb2 as a__pb2\n");
}

#[test]
fn apply_rewrites_suffix_filter() {
    let root = "/r";
    let files = vec![
        ("a_pb2.py".to_string(), "# a\n".to_string()),
        ("x/b_pb2.py".to_string(), "import a_pb2 as a__pb2\n".to_string()),
        ("c.py".to_string(), "import a_pb2 as a__pb2\n".to_string()),
    ];
    let existing = vec![
        "/r/a_pb2.py".to_string(),
        "/r/x/b_pb2.py".to_string(),
        "/r/c.py".to_string(),
    ];
    let suffixes = vec!["_pb2.py".to_string()];
    let modified = apply_rewrites_in_tree(root, false, &suffixes, None, &files, &existing);
    // only x/b_pb2.py is modified; c.py does not match the suffix
    assert_eq!(modified.len(), 1);
    assert_eq!(modified[0].0, 1);
    assert_eq!(modified[0].1, "from .. import a_pb2 as a__pb2\n");
}

#[test]
fn apply_rewrites_second_run_modifies_nothing() {
    let root = "/r";
    let suffixes = vec!["_pb2.py".to_string()];
    let existing = vec!["/r/a_pb2.py".to_string(), "/r/x/b_pb2.py".to_string()];
    let files = vec![
        ("a_pb2.py".to_string(), "# a\n".to_string()),
        ("x/b_pb2.py".to_string(), "import a_pb2 as a__pb2\n".to_string()),
    ];
    let first = apply_rewrites_in_tree(root, false, &suffixes, None, &files, &existing);
    assert_eq!(first.len(), 1);
    let files2 = vec![
        ("a_pb2.py".to_string(), "# a\n".to_string()),
        ("x/b_pb2.py".to_string(), first[0].1.clone()),
    ];
    let second = apply_rewrites_in_tree(root, false, &suffixes, None, &files2, &existing);
    assert_eq!(second.len(), 0);
}

#[test]
fn basename_prefilter_skips_unrelated_files() {
    let root = "/r";
    let suffixes = vec!["_pb2.py".to_string()];
    let existing = vec!["/r/a_pb2.py".to_string(), "/r/x/b_pb2.py".to_string()];
    let files = vec![("x/b_pb2.py".to_string(), "import a_pb2 as a__pb2\n".to_string())];
    let allowed = vec!["z_pb2".to_string()];
    let none = apply_rewrites_in_tree(root, false, &suffixes, Some(&allowed), &files, &existing);
    assert_eq!(none.len(), 0);
    let allowed2 = vec!["a_pb2".to_string()];
    let one = apply_rewrites_in_tree(root, false, &suffixes, Some(&allowed2), &files, &existing);
    assert_eq!(one.len(), 1);
}

#[test]
fn from_import_one_level_deeper() {
    // importing file one level deeper than the common ancestor: two dots
    let root = "/r";
    let content = "from pkg import x_pb2\n";
    let existing = vec!["/r/pkg/x_pb2.py".to_string()];
    let (out, changed) = rewrite_lines_in_content(content, "/r/sub", root, false, &existing);
    assert!(changed);
    assert_eq!(out, "from ..pkg import x_pb2\n");
}

#[test]
fn indentation_kept_and_comment_dropped() {
    let root = "/r";
    let existing = vec!["/r/a_pb2.py".to_string()];
    let (out, changed) =
        rewrite_lines_in_content("    import a_pb2  # generated\n", "/r", root, false, &existing);
    assert!(changed);
    assert_eq!(out, "    from . import a_pb2\n");
}

#[test]
fn crlf_line_rewritten_with_plain_ending() {
    let root = "/r";
    let existing = vec!["/r/a_pb2.py".to_string()];
    let (out, changed) =
        rewrite_lines_in_content("import a_pb2 as a__pb2\r\n", "/r/sub", root, false, &existing);
    assert!(changed);
    assert_eq!(out, "from .. import a_pb2 as a__pb2\n");
}

#[test]
fn already_relative_line_never_touched() {
    let root = "/r";
    let existing = vec!["/r/a_pb2.py".to_string()];
    let content = "from . import a_pb2\n";
    let (out, changed) = rewrite_lines_in_content(content, "/r", root, false, &existing);
    assert!(!changed);
    assert_eq!(out, content);
}

#[test]
fn count_candidates_in_content() {
    let content = "import a_pb2\nfrom pkg import b_pb2_grpc\nimport os\n# import c_pb2\n";
    assert_eq!(count_import_candidates(content), 2);
    assert_eq!(count_import_candidates("x = 1\n"), 0);
    // a dotted module counts when some dot-delimited prefix carries the suffix
    assert_eq!(count_import_candidates("import pkg.a_pb2.extras\n"), 1);
    // indented lines are not at the margin and do not count
    assert_eq!(count_import_candidates("    import a_pb2\n"), 0);
    // a name that merely continues past the suffix does not count
    assert_eq!(count_import_candidates("import a_pb2x\n"), 0);
}
