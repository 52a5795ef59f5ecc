use prost::Message;
use prost_types::{FileDescriptorProto, FileDescriptorSet};
use python_proto_importer::fds::{
    collect_generated_basenames_from_bytes, is_proto_generated_module, load_fds_from_bytes,
};

fn sample_fds() -> FileDescriptorSet {
    let mut file = FileDescriptorProto::default();
    file.name = Some("things/thing1.proto".to_string());
    let mut file2 = FileDescriptorProto::default();
    file2.name = Some("thing2.proto".to_string());
    let mut fds = FileDescriptorSet::default();
    fds.file = vec![file, file2];
    fds
}

#[test]
fn basenames_derived_from_file_stems() {
    let bytes = sample_fds().encode_to_vec();
    let names = collect_generated_basenames_from_bytes(&bytes).unwrap();
    assert_eq!(
        names,
        vec![
            "thing1_pb2".to_string(),
            "thing1_pb2_grpc".to_string(),
            "thing2_pb2".to_string(),
            "thing2_pb2_grpc".to_string(),
        ]
    );
}

#[test]
fn malformed_descriptor_set_is_fatal() {
    let bad = vec![0xffu8, 0xff, 0xff];
    assert!(collect_generated_basenames_from_bytes(&bad).is_err());
    assert!(load_fds_from_bytes(&bad).is_err());
}

#[test]
fn pool_decodes_valid_descriptor_set() {
    let bytes = sample_fds().encode_to_vec();
    let pool = load_fds_from_bytes(&bytes);
    assert!(pool.is_ok());
}

#[test]
fn generated_module_suffixes() {
    assert!(is_proto_generated_module("a_pb2"));
    assert!(is_proto_generated_module("pkg.a_pb2_grpc"));
    assert!(!is_proto_generated_module("a_pb3"));
    assert!(!is_proto_generated_module("helper"));
}
