use python_proto_importer::package_structure::{
    determine_package_structure, determine_package_structure_legacy, DirProbe,
};

fn probe(parent: bool, marker: bool, grand: bool) -> DirProbe {
    DirProbe { parent_exists: parent, parent_has_marker: marker, grandparent_exists: grand }
}

#[test]
fn determine_package_structure_with_parent() {
    let (parent_path, package_name) =
        determine_package_structure("/work/generated", probe(true, false, false));
    assert_eq!(parent_path, "/work");
    assert_eq!(package_name, "generated");
}

#[test]
fn determine_package_structure_no_parent() {
    // the parent directory exists, so it becomes the search root and the
    // directory's own name the package name
    let (parent_path, package_name) = determine_package_structure("/d1/d2", probe(true, false, false));
    assert_eq!(parent_path, "/d1");
    assert_eq!(package_name, "d2");

    // without an existing parent, fall back to the directory itself
    let (p2, n2) = determine_package_structure("/d1/d2", probe(false, false, false));
    assert_eq!(p2, "/d1/d2");
    assert_eq!(n2, "");
}

#[test]
fn determine_package_structure_root_directory() {
    let (parent_path, package_name) = determine_package_structure("/", probe(true, true, true));
    assert_eq!(parent_path, "/");
    assert_eq!(package_name, "");
}

#[test]
fn nested_package_uses_grandparent() {
    let (root, pkg) = determine_package_structure("/a/b/c", probe(true, true, true));
    assert_eq!(root, "/a");
    assert_eq!(pkg, "b.c");
}

#[test]
fn marker_without_grandparent_falls_back() {
    let (root, pkg) = determine_package_structure("/a/c", probe(true, true, false));
    assert_eq!(root, "/a");
    assert_eq!(pkg, "c");
}

#[test]
fn legacy_ignores_markers() {
    let (root, pkg) = determine_package_structure_legacy("/a/b/c", true);
    assert_eq!(root, "/a/b");
    assert_eq!(pkg, "c");
    let (root2, pkg2) = determine_package_structure_legacy("/a/b/c", false);
    assert_eq!(root2, "/a/b/c");
    assert_eq!(pkg2, "");
}
