//! The argument list handed to the binding compiler.
//!
//! Running the compiler is process work and belongs to the surrounding
//! binary; the exact argument list it must pass — outputs, optional stub
//! outputs, the descriptor-set request, and the search paths — is computed
//! and specified here.

use vstd::prelude::*;
use crate::chars::{push_str_chars, string_from_chars};
use crate::config::AppConfig;
use crate::rewrite::views_of_strings;

verus! {

/// One `--proto_path=` argument per configured search path, in order.
pub open spec fn proto_path_args(incs: Seq<Seq<char>>, i: int) -> Seq<Seq<char>>
    decreases incs.len() - i,
{
    if i < 0 || i >= incs.len() {
        Seq::empty()
    } else {
        seq!["--proto_path="@ + incs[i]] + proto_path_args(incs, i + 1)
    }
}

/// The full argument list for the binding compiler invoked as a Python
/// module: the module switch, the binding outputs, the optional stub
/// outputs, the descriptor-set request with transitive imports included,
/// and the search paths.  The input files follow these, expanded by the
/// caller.
pub open spec fn spec_protoc_args(cfg: AppConfig, fds_path: Seq<char>) -> Seq<Seq<char>> {
    seq!["-m"@, "grpc_tools.protoc"@, "--python_out="@ + cfg.out@, "--grpc_python_out="@ + cfg.out@]
        + (if cfg.generate_mypy {
        seq!["--mypy_out="@ + cfg.out@]
    } else {
        Seq::<Seq<char>>::empty()
    }) + (if cfg.generate_mypy_grpc {
        seq!["--mypy_grpc_out="@ + cfg.out@]
    } else {
        Seq::<Seq<char>>::empty()
    }) + seq!["--include_imports"@, "--descriptor_set_out="@ + fds_path] + proto_path_args(
        views_of_strings(cfg.includes@),
        0,
    )
}

fn prefixed_arg(prefix: &str, value: &str) -> (r: String)
    ensures
        r@ == prefix@ + value@,
{
    let mut s: Vec<char> = Vec::new();
    push_str_chars(&mut s, prefix);
    push_str_chars(&mut s, value);
    string_from_chars(&s)
}

fn lit_arg(lit: &str) -> (r: String)
    ensures
        r@ == lit@,
{
    let mut s: Vec<char> = Vec::new();
    push_str_chars(&mut s, lit);
    proof {
        assert(s@ =~= lit@);
    }
    string_from_chars(&s)
}

/// Runs the binding compiler over one configuration; building the
/// argument list is its verified part.
pub struct ProtocRunner<'a> {
    pub cfg: &'a AppConfig,
}

impl<'a> ProtocRunner<'a> {
    /// A runner for the given configuration.
    pub fn new(cfg: &'a AppConfig) -> (r: Self)
        ensures
            r.cfg == cfg,
    {
        ProtocRunner { cfg }
    }

    /// The compiler argument list, with the descriptor set directed to
    /// `fds_path`.
    pub fn args(&self, fds_path: &str) -> (r: Vec<String>)
        ensures
            views_of_strings(r@) == spec_protoc_args(*self.cfg, fds_path@),
    {
        let mut r: Vec<String> = Vec::new();
        r.push(lit_arg("-m"));
        r.push(lit_arg("grpc_tools.protoc"));
        r.push(prefixed_arg("--python_out=", self.cfg.out.as_str()));
        r.push(prefixed_arg("--grpc_python_out=", self.cfg.out.as_str()));
        if self.cfg.generate_mypy {
            r.push(prefixed_arg("--mypy_out=", self.cfg.out.as_str()));
        }
        if self.cfg.generate_mypy_grpc {
            r.push(prefixed_arg("--mypy_grpc_out=", self.cfg.out.as_str()));
        }
        r.push(lit_arg("--include_imports"));
        r.push(prefixed_arg("--descriptor_set_out=", fds_path));
        let ghost head = views_of_strings(r@);
        let ghost incs = views_of_strings(self.cfg.includes@);
        let mut i: usize = 0;
        while i < self.cfg.includes.len()
            invariant
                0 <= i <= self.cfg.includes@.len(),
                incs == views_of_strings(self.cfg.includes@),
                head.len() <= views_of_strings(r@).len(),
                views_of_strings(r@) + proto_path_args(incs, i as int) == head + proto_path_args(
                    incs,
                    0,
                ),
            decreases self.cfg.includes@.len() - i,
        {
            let ghost pre = views_of_strings(r@);
            r.push(prefixed_arg("--proto_path=", self.cfg.includes[i].as_str()));
            proof {
                assert(views_of_strings(r@) =~= pre.push("--proto_path="@ + incs[i as int]));
                assert(pre.push("--proto_path="@ + incs[i as int]) + proto_path_args(incs, i + 1)
                    =~= pre + (seq!["--proto_path="@ + incs[i as int]] + proto_path_args(
                    incs,
                    i + 1,
                )));
            }
            i += 1;
        }
        proof {
            assert(views_of_strings(r@) + Seq::<Seq<char>>::empty() =~= views_of_strings(r@));
            assert(head =~= spec_protoc_args(*self.cfg, fds_path@).take(head.len() as int));
            assert(head + proto_path_args(incs, 0) =~= spec_protoc_args(*self.cfg, fds_path@));
        }
        r
    }
}

} // verus!
