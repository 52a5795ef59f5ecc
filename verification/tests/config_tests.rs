use python_proto_importer::config::{
    parse_backend, AppConfig, Backend, RawConfig, RawPostProcess, RawVerify,
};
use python_proto_importer::protoc::ProtocRunner;

fn empty_raw() -> RawConfig {
    RawConfig {
        backend: None,
        python_exe: None,
        includes: None,
        inputs: None,
        out: None,
        mypy: None,
        mypy_grpc: None,
        postprocess: None,
        verify: None,
    }
}

#[test]
fn resolve_fills_defaults() {
    let cfg = AppConfig::resolve(empty_raw()).unwrap();
    assert!(matches!(cfg.backend, Backend::Protoc));
    assert_eq!(cfg.python_exe, "python3");
    assert_eq!(cfg.includes, vec![".".to_string()]);
    assert!(cfg.inputs.is_empty());
    assert_eq!(cfg.out, "generated/python");
    assert!(!cfg.generate_mypy);
    assert!(!cfg.generate_mypy_grpc);
    assert!(cfg.postprocess.protoletariat);
    assert!(cfg.postprocess.fix_pyi);
    assert!(cfg.postprocess.create_package);
    assert!(cfg.postprocess.exclude_google);
    assert!(!cfg.postprocess.pyright_header);
    assert_eq!(
        cfg.postprocess.module_suffixes,
        vec![
            "_pb2.py".to_string(),
            "_pb2.pyi".to_string(),
            "_pb2_grpc.py".to_string(),
            "_pb2_grpc.pyi".to_string()
        ]
    );
    assert!(cfg.verify.is_none());
}

#[test]
fn resolve_keeps_given_values() {
    let mut raw = empty_raw();
    raw.backend = Some("BUF".to_string());
    raw.python_exe = Some("uv".to_string());
    raw.includes = Some(vec!["proto".to_string()]);
    raw.out = Some("gen".to_string());
    raw.mypy = Some(true);
    raw.postprocess = Some(RawPostProcess {
        protoletariat: Some(false),
        fix_pyi: None,
        create_package: Some(false),
        exclude_google: None,
        pyright_header: Some(true),
        module_suffixes: Some(vec!["_pb2.py".to_string()]),
    });
    raw.verify = Some(RawVerify { mypy_cmd: Some(vec!["mypy".to_string()]), pyright_cmd: None });
    let cfg = AppConfig::resolve(raw).unwrap();
    assert!(matches!(cfg.backend, Backend::Buf));
    assert_eq!(cfg.python_exe, "uv");
    assert_eq!(cfg.includes, vec!["proto".to_string()]);
    assert_eq!(cfg.out, "gen");
    assert!(cfg.generate_mypy);
    assert!(!cfg.postprocess.protoletariat);
    assert!(cfg.postprocess.fix_pyi);
    assert!(!cfg.postprocess.create_package);
    assert!(cfg.postprocess.exclude_google);
    assert!(cfg.postprocess.pyright_header);
    assert_eq!(cfg.postprocess.module_suffixes, vec!["_pb2.py".to_string()]);
    let verify = cfg.verify.unwrap();
    assert_eq!(verify.mypy_cmd, Some(vec!["mypy".to_string()]));
    assert_eq!(verify.pyright_cmd, None);
}

#[test]
fn resolve_rejects_unknown_backend() {
    let mut raw = empty_raw();
    raw.backend = Some("bazel".to_string());
    let err = AppConfig::resolve(raw).unwrap_err();
    assert_eq!(err, "unsupported backend: bazel");
}

#[test]
fn backend_names_fold_case() {
    assert!(matches!(parse_backend("Protoc"), Ok(Backend::Protoc)));
    assert!(matches!(parse_backend("buf"), Ok(Backend::Buf)));
    assert!(parse_backend("make").is_err());
}

#[test]
fn empty_includes_fall_back_to_current_directory() {
    let mut raw = empty_raw();
    raw.includes = Some(vec![]);
    let cfg = AppConfig::resolve(raw).unwrap();
    assert_eq!(cfg.includes, vec![".".to_string()]);
}

#[test]
fn protoc_argument_list() {
    let mut raw = empty_raw();
    raw.includes = Some(vec!["proto".to_string(), "vendor".to_string()]);
    raw.out = Some("gen".to_string());
    raw.mypy = Some(true);
    let cfg = AppConfig::resolve(raw).unwrap();
    let runner = ProtocRunner::new(&cfg);
    let args = runner.args("/tmp/fds.bin");
    assert_eq!(
        args,
        vec![
            "-m".to_string(),
            "grpc_tools.protoc".to_string(),
            "--python_out=gen".to_string(),
            "--grpc_python_out=gen".to_string(),
            "--mypy_out=gen".to_string(),
            "--include_imports".to_string(),
            "--descriptor_set_out=/tmp/fds.bin".to_string(),
            "--proto_path=proto".to_string(),
            "--proto_path=vendor".to_string(),
        ]
    );
}
