use python_proto_importer::script::{
    create_import_test_script, create_individual_test_script, qualified_module_name,
};

#[test]
fn create_import_test_script_empty_package() {
    let modules = vec!["service_pb2".to_string(), "api_pb2_grpc".to_string()];
    let script = create_import_test_script("", &modules);

    assert!(script.contains("import sys"));
    assert!(script.contains("import importlib"));
    assert!(script.contains("importlib.import_module('service_pb2')"));
    assert!(script.contains("importlib.import_module('api_pb2_grpc')"));
    assert!(script.contains("IMPORT_TEST_SUMMARY"));
}

#[test]
fn create_import_test_script_with_package() {
    let modules = vec!["service_pb2".to_string()];
    let script = create_import_test_script("generated", &modules);

    assert!(script.contains("importlib.import_module('generated.service_pb2')"));
    assert!(script.contains("succeeded.append('service_pb2')"));
    assert!(script.contains("# Test module: service_pb2 -> generated.service_pb2"));
}

#[test]
fn create_import_test_script_empty_modules() {
    let modules: Vec<String> = vec![];
    let script = create_import_test_script("generated", &modules);

    assert!(script.contains("import sys"));
    assert!(script.contains("failed = []"));
    assert!(script.contains("succeeded = []"));
    // Should not contain any import attempts
    assert!(!script.contains("importlib.import_module"));
}

#[test]
fn create_import_test_script_error_handling() {
    let modules = vec!["test_pb2".to_string()];
    let script = create_import_test_script("pkg", &modules);

    assert!(script.contains("except ImportError as e:"));
    assert!(script.contains("except ModuleNotFoundError as e:"));
    assert!(script.contains("except SyntaxError as e:"));
    assert!(script.contains("except Exception as e:"));
    assert!(script.contains("relative import"));
}

#[test]
fn create_import_test_script_output_format() {
    let modules = vec!["service_pb2".to_string()];
    let script = create_import_test_script("generated", &modules);

    assert!(
        script.contains("IMPORT_TEST_SUMMARY:succeeded={len(succeeded)},failed={len(failed)}")
    );
    assert!(script.contains("IMPORT_ERROR:{module}:{error}"));
    assert!(script.contains("IMPORT_TEST_SUCCESS:all_modules_imported_successfully"));
    assert!(script.contains("sys.exit(1)"));
}

#[test]
fn individual_script_imports_full_module() {
    let script = create_individual_test_script("service_pb2", "generated.service_pb2");
    assert!(script.contains("module_name = 'service_pb2'"));
    assert!(script.contains("full_module_name = 'generated.service_pb2'"));
    assert!(script.contains("importlib.import_module(full_module_name)"));
    assert!(script.contains("RELATIVE_IMPORT_ERROR:"));
    assert!(script.contains("MODULE_NOT_FOUND_ERROR:"));
    assert!(script.contains("SYNTAX_ERROR:"));
    assert!(script.contains("GENERAL_ERROR:"));
}

#[test]
fn qualification_prefixes_package() {
    assert_eq!(qualified_module_name("generated", "a_pb2"), "generated.a_pb2");
    assert_eq!(qualified_module_name("", "a_pb2"), "a_pb2");
}
