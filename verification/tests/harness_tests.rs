use python_proto_importer::harness::{
    classify_batch_line, collect_candidate_modules, dry_run_failure_message,
    evaluate_import_results, filter_py_suffixes, module_name_from_rel_path, parse_fallback_error,
    plan_import_check, BatchMarker, ImportCheckPlan, ModuleFailure, VerifyOutcome,
};
use python_proto_importer::chars::{dec_of_i32, dec_of_usize};

fn default_suffixes() -> Vec<String> {
    vec![
        "_pb2.py".to_string(),
        "_pb2.pyi".to_string(),
        "_pb2_grpc.py".to_string(),
        "_pb2_grpc.pyi".to_string(),
    ]
}

#[test]
fn candidate_modules_sorted_and_filtered() {
    let rels = vec![
        "b_pb2.py".to_string(),
        "a_pb2.py".to_string(),
        "__init__.py".to_string(),
        "notes.txt".to_string(),
        "sub/c_pb2_grpc.py".to_string(),
        "helper.py".to_string(),
        "typed_pb2.pyi".to_string(),
    ];
    let modules = collect_candidate_modules(&rels, &default_suffixes());
    assert_eq!(modules, vec!["a_pb2".to_string(), "b_pb2".to_string(), "sub.c_pb2_grpc".to_string()]);
}

#[test]
fn scenario_ordering_deterministic() {
    // P: for a fixed generated module set the ordering is identical
    // across runs, whatever order the walk produced
    let one = vec!["x/b_pb2.py".to_string(), "a_pb2.py".to_string(), "m_pb2.py".to_string()];
    let two = vec!["m_pb2.py".to_string(), "x/b_pb2.py".to_string(), "a_pb2.py".to_string()];
    let sufs = default_suffixes();
    assert_eq!(collect_candidate_modules(&one, &sufs), collect_candidate_modules(&two, &sufs));
}

#[test]
fn empty_suffix_list_accepts_all_python_files() {
    let rels = vec!["tool.py".to_string(), "sub/helper.py".to_string()];
    let none: Vec<String> = vec![];
    let modules = collect_candidate_modules(&rels, &none);
    assert_eq!(modules, vec!["sub.helper".to_string(), "tool".to_string()]);
}

#[test]
fn module_name_rules() {
    let sufs = filter_py_suffixes(&default_suffixes());
    assert_eq!(sufs, vec!["_pb2.py".to_string(), "_pb2_grpc.py".to_string()]);
    assert_eq!(module_name_from_rel_path("pkg/a_pb2.py", &sufs), Some("pkg.a_pb2".to_string()));
    assert_eq!(module_name_from_rel_path("pkg/__init__.py", &sufs), None);
    assert_eq!(module_name_from_rel_path("pkg/a_pb2.pyi", &sufs), None);
    assert_eq!(module_name_from_rel_path("pkg/readme.md", &sufs), None);
    assert_eq!(module_name_from_rel_path("pkg/other.py", &sufs), None);
}

#[test]
fn scenario_empty_module_list_passes_trivially() {
    // P: empty candidate-module list means success with zero test
    // processes: the plan holds no program to run
    let modules: Vec<String> = vec![];
    match plan_import_check("generated", &modules) {
        ImportCheckPlan::TrivialPass => {},
        ImportCheckPlan::RunBatch(_) => panic!("no test process may run for an empty list"),
    }
}

#[test]
fn plan_carries_batch_script() {
    let modules = vec!["a_pb2".to_string()];
    match plan_import_check("gen", &modules) {
        ImportCheckPlan::TrivialPass => panic!("modules exist, the batch must run"),
        ImportCheckPlan::RunBatch(script) => {
            assert!(script.contains("importlib.import_module('gen.a_pb2')"));
        },
    }
}

#[test]
fn classify_marker_lines() {
    match classify_batch_line("IMPORT_TEST_SUMMARY:succeeded=2,failed=0,total=2") {
        BatchMarker::Summary(rest) => assert_eq!(rest, "succeeded=2,failed=0,total=2"),
        _ => panic!("summary marker expected"),
    }
    match classify_batch_line("IMPORT_TEST_SUCCESS:all_modules_imported_successfully") {
        BatchMarker::Success(rest) => assert_eq!(rest, "all_modules_imported_successfully"),
        _ => panic!("success marker expected"),
    }
    match classify_batch_line("IMPORT_ERROR:a_pb2:ImportError: boom") {
        BatchMarker::Error(rest) => assert_eq!(rest, "a_pb2:ImportError: boom"),
        _ => panic!("error marker expected"),
    }
    match classify_batch_line("unrelated output") {
        BatchMarker::Other => {},
        _ => panic!("no marker expected"),
    }
}

#[test]
fn fallback_error_selection() {
    let lines = vec![
        "noise".to_string(),
        "RELATIVE_IMPORT_ERROR:a_pb2:attempted relative import".to_string(),
        "IMPORT_ERROR:a_pb2:other".to_string(),
    ];
    assert_eq!(
        parse_fallback_error(&lines, 1),
        "Relative import issue: a_pb2:attempted relative import"
    );
    let lines2 = vec!["MODULE_NOT_FOUND_ERROR:b_pb2:No module named 'b_pb2'".to_string()];
    assert_eq!(parse_fallback_error(&lines2, 1), "Module not found: b_pb2:No module named 'b_pb2'");
    let lines3 = vec!["SYNTAX_ERROR:c_pb2:line 3: bad".to_string()];
    assert_eq!(parse_fallback_error(&lines3, 1), "Syntax error: c_pb2:line 3: bad");
    let lines4 = vec!["GENERAL_ERROR:d_pb2:TypeError: x".to_string()];
    assert_eq!(parse_fallback_error(&lines4, 1), "General error: d_pb2:TypeError: x");
    let empty: Vec<String> = vec![];
    assert_eq!(parse_fallback_error(&empty, -1), "Unknown error (exit code: -1)");
}

#[test]
fn scenario_batch_failure_confirmed_by_fallback() {
    // P: the batch run reports one failing module; the fallback isolates
    // and confirms it; the overall result is failure with one entry
    let failures = vec![ModuleFailure {
        module: "b_pb2".to_string(),
        message: "Module not found: b_pb2:No module named 'b_pb2'".to_string(),
    }];
    match evaluate_import_results(false, Some(&failures)) {
        VerifyOutcome::Failed => {},
        _ => panic!("confirmed failures must fail the run"),
    }
    assert_eq!(failures.len(), 1);
    assert_eq!(
        dry_run_failure_message(failures.len(), 3),
        "import dry-run failed for 1 modules (out of 3). Use -v for more details."
    );
}

#[test]
fn batch_pass_and_inconsistent_fallback() {
    match evaluate_import_results(true, None) {
        VerifyOutcome::Passed => {},
        _ => panic!("a successful batch run passes"),
    }
    let empty: Vec<ModuleFailure> = vec![];
    match evaluate_import_results(false, Some(&empty)) {
        VerifyOutcome::PassedWithWarning => {},
        _ => panic!("a failed batch with no confirmed failures is only a warning"),
    }
}

#[test]
fn decimal_renderings() {
    assert_eq!(dec_of_usize(0), "0");
    assert_eq!(dec_of_usize(907), "907");
    assert_eq!(dec_of_i32(-12), "-12");
    assert_eq!(dec_of_i32(2147483647), "2147483647");
    assert_eq!(dec_of_i32(-2147483648), "-2147483648");
}
