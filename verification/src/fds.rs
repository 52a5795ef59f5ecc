//! The descriptor reader: which module basenames did this compiler run
//! actually generate?
//!
//! A descriptor set aggregates every file descriptor touched by one
//! compilation.  Decoding it is delegated to the protobuf crates; from the
//! decoded file names the reader derives, per file, the data-structure
//! binding basename and the service binding basename.

use vstd::prelude::*;
use crate::chars::{chars_of, push_str_chars, string_from_chars, subvec};
use crate::harness::base_name;
use crate::paths::last_index_of;
use crate::rewrite::{has_binding_suffix, views_of_strings};

verus! {

/// What decoding a file descriptor set from the given bytes yields, when
/// it succeeds: the optional path name of each file descriptor, in order.
/// The result depends on the bytes alone.
pub uninterp spec fn fds_file_names(bytes: Seq<u8>) -> Option<Seq<Option<Seq<char>>>>;

/// Whether the given bytes decode and resolve into a descriptor pool.
pub uninterp spec fn fds_pool_decodes(bytes: Seq<u8>) -> bool;

/// Relies on prost's `FileDescriptorSet::decode` (via prost-types):
/// decoding consumes the entire buffer and either fails or yields the
/// message, whose `file` entries each carry an optional `name`; the result
/// is a function of the bytes alone.
#[verifier::external_body]
fn decode_fds_file_names(bytes: &[u8]) -> (r: Result<Vec<Option<String>>, String>)
    ensures
        match r {
            Ok(names) => fds_file_names(bytes@) == Some(names.deep_view()),
            Err(m) => fds_file_names(bytes@) is None,
        },
{
    match <prost_types::FileDescriptorSet as prost::Message>::decode(bytes) {
        Ok(fds) => Ok(fds.file.into_iter().map(|f| f.name).collect()),
        Err(e) => Err(e.to_string()),
    }
}

#[verifier::external_type_specification]
#[verifier::external_body]
pub struct ExDescriptorPool(prost_reflect::DescriptorPool);

/// Relies on prost-reflect's `DescriptorPool::decode`: it succeeds exactly
/// when the bytes are a valid encoded file descriptor set whose
/// descriptors resolve into a pool, which depends on the bytes alone.
#[verifier::external_body]
pub fn load_fds_from_bytes(bytes: &[u8]) -> (r: Result<prost_reflect::DescriptorPool, String>)
    ensures
        r is Ok <==> fds_pool_decodes(bytes@),
{
    prost_reflect::DescriptorPool::decode(bytes).map_err(|e| e.to_string())
}

/// The file stem of a path: its file name without the final extension; a
/// leading dot alone marks no extension.
pub open spec fn spec_file_stem(p: Seq<char>) -> Seq<char> {
    let name = base_name(p);
    let d = last_index_of(name, '.', name.len() - 1);
    if d >= 1 {
        name.subrange(0, d)
    } else {
        name
    }
}

/// Executable form of [`spec_file_stem`].
pub fn file_stem_vec(p: &Vec<char>) -> (r: Vec<char>)
    ensures
        r@ == spec_file_stem(p@),
{
    let mut j: usize = p.len();
    while j > 0
        invariant
            0 <= j <= p@.len(),
            last_index_of(p@, '/', p@.len() - 1) == last_index_of(p@, '/', j - 1),
        decreases j,
    {
        if p[j - 1] == '/' {
            proof {
                assert(last_index_of(p@, '/', j - 1) == j - 1);
            }
            return stem_of_name(p, j);
        }
        j -= 1;
    }
    proof {
        assert(last_index_of(p@, '/', p@.len() - 1) == -1);
    }
    stem_of_name(p, 0)
}

fn stem_of_name(p: &Vec<char>, start: usize) -> (r: Vec<char>)
    requires
        start <= p@.len(),
        base_name(p@) == p@.subrange(start as int, p@.len() as int),
    ensures
        r@ == spec_file_stem(p@),
{
    let ghost name = base_name(p@);
    let mut j: usize = p.len();
    while j > start
        invariant
            start <= j <= p@.len(),
            name == base_name(p@),
            name == p@.subrange(start as int, p@.len() as int),
            last_index_of(name, '.', name.len() - 1) == last_index_of(name, '.', j - start - 1),
        decreases j,
    {
        if p[j - 1] == '.' {
            proof {
                assert(name[j - start - 1] == p@[j - 1]);
                assert(last_index_of(name, '.', j - start - 1) == j - start - 1);
            }
            if j - 1 - start >= 1 {
                let r = subvec(p, start, j - 1);
                proof {
                    assert(r@ =~= name.subrange(0, j - start - 1));
                }
                return r;
            }
            let r = subvec(p, start, p.len());
            proof {
                assert(r@ =~= name);
            }
            return r;
        }
        proof {
            assert(name[j - start - 1] == p@[j - 1]);
        }
        j -= 1;
    }
    proof {
        assert(last_index_of(name, '.', name.len() - 1) == last_index_of(name, '.', -1));
    }
    let r = subvec(p, start, p.len());
    proof {
        assert(r@ =~= name);
    }
    r
}

/// The leaf name identifies a generated binding module.
pub fn is_proto_generated_module(module: &str) -> (r: bool)
    ensures
        r == has_binding_suffix(module@),
{
    let v = chars_of(module);
    crate::rewrite::binding_suffix(&v)
}

/// The two generated basenames registered for each named file of
/// `names[i..]`: the data-structure binding and the service binding.
pub open spec fn basenames_of(names: Seq<Option<Seq<char>>>, i: int) -> Seq<Seq<char>>
    decreases names.len() - i,
{
    if i < 0 || i >= names.len() {
        Seq::empty()
    } else {
        (match names[i] {
            None => Seq::<Seq<char>>::empty(),
            Some(n) => seq![
                spec_file_stem(n) + "_pb2"@,
                spec_file_stem(n) + "_pb2_grpc"@,
            ],
        }) + basenames_of(names, i + 1)
    }
}

/// Decode a descriptor set and collect the generated module basenames, two
/// per named file descriptor, in order.  Fails exactly when the bytes do
/// not decode; without that the rewrite engine could not tell generated
/// from user-authored modules.
pub fn collect_generated_basenames_from_bytes(bytes: &[u8]) -> (r: Result<Vec<String>, String>)
    ensures
        match r {
            Ok(v) => fds_file_names(bytes@) is Some && views_of_strings(v@) == basenames_of(
                fds_file_names(bytes@)->0,
                0,
            ),
            Err(m) => fds_file_names(bytes@) is None,
        },
{
    let names = match decode_fds_file_names(bytes) {
        Ok(ns) => ns,
        Err(m) => {
            return Err(m);
        },
    };
    let ghost nv = names.deep_view();
    let mut r: Vec<String> = Vec::new();
    let mut i: usize = 0;
    proof {
        assert(views_of_strings(r@) =~= Seq::<Seq<char>>::empty());
        assert(nv == fds_file_names(bytes@)->0);
    }
    while i < names.len()
        invariant
            0 <= i <= names@.len(),
            nv == names.deep_view(),
            nv.len() == names@.len(),
            forall|j: int| 0 <= j < names@.len() ==> nv[j] == #[trigger] names@[j].deep_view(),
            views_of_strings(r@) + basenames_of(nv, i as int) == basenames_of(nv, 0),
        decreases names@.len() - i,
    {
        let ghost pre = views_of_strings(r@);
        match &names[i] {
            None => {
                proof {
                    assert(nv[i as int] is None);
                    assert(Seq::<Seq<char>>::empty() + basenames_of(nv, i + 1) =~= basenames_of(
                        nv,
                        i + 1,
                    ));
                }
            },
            Some(name) => {
                let pv = chars_of(name.as_str());
                let stem = file_stem_vec(&pv);
                let mut b1 = subvec(&stem, 0, stem.len());
                push_str_chars(&mut b1, "_pb2");
                let mut b2 = subvec(&stem, 0, stem.len());
                push_str_chars(&mut b2, "_pb2_grpc");
                proof {
                    assert(nv[i as int] == Some(name@));
                    assert(b1@ =~= spec_file_stem(name@) + "_pb2"@);
                    assert(b2@ =~= spec_file_stem(name@) + "_pb2_grpc"@);
                }
                r.push(string_from_chars(&b1));
                r.push(string_from_chars(&b2));
                proof {
                    assert(views_of_strings(r@) =~= pre.push(spec_file_stem(name@) + "_pb2"@).push(
                        spec_file_stem(name@) + "_pb2_grpc"@,
                    ));
                    assert(pre.push(spec_file_stem(name@) + "_pb2"@).push(
                        spec_file_stem(name@) + "_pb2_grpc"@,
                    ) + basenames_of(nv, i + 1) =~= pre + (seq![
                        spec_file_stem(name@) + "_pb2"@,
                        spec_file_stem(name@) + "_pb2_grpc"@,
                    ] + basenames_of(nv, i + 1)));
                }
            },
        }
        i += 1;
    }
    proof {
        assert(views_of_strings(r@) + Seq::<Seq<char>>::empty() =~= views_of_strings(r@));
    }
    Ok(r)
}

} // verus!
