//! Configuration of one build run.
//!
//! Reading and deserializing the configuration file belongs to the
//! surrounding binary; it hands the raw optional values in here, and the
//! resolution into a complete configuration — every default, and the
//! backend-name check — is carried out and specified in this module.

use vstd::prelude::*;
use crate::chars::{chars_of, match_lit, occurs_at, push_all, push_str_chars, string_from_chars};
use crate::rewrite::views_of_strings;

verus! {

/// Which code generator produces the binding tree.
#[derive(Debug, Clone, Copy, PartialEq, Eq, Structural)]
pub enum Backend {
    Protoc,
    Buf,
}

/// Postprocessing switches and the module suffixes that select generated
/// files.
#[derive(Debug, Clone)]
pub struct PostProcess {
    pub protoletariat: bool,
    pub fix_pyi: bool,
    pub create_package: bool,
    pub exclude_google: bool,
    pub pyright_header: bool,
    pub module_suffixes: Vec<String>,
}

/// Optional type-checker command lines, run verbatim after the import
/// pass.
#[derive(Debug, Clone)]
pub struct Verify {
    pub mypy_cmd: Option<Vec<String>>,
    pub pyright_cmd: Option<Vec<String>>,
}

/// A complete build configuration.
#[derive(Debug, Clone)]
pub struct AppConfig {
    pub backend: Backend,
    pub python_exe: String,
    pub includes: Vec<String>,
    pub inputs: Vec<String>,
    pub out: String,
    pub generate_mypy: bool,
    pub generate_mypy_grpc: bool,
    pub postprocess: PostProcess,
    pub verify: Option<Verify>,
}

/// The raw postprocessing table, each entry optional.
pub struct RawPostProcess {
    pub protoletariat: Option<bool>,
    pub fix_pyi: Option<bool>,
    pub create_package: Option<bool>,
    pub exclude_google: Option<bool>,
    pub pyright_header: Option<bool>,
    pub module_suffixes: Option<Vec<String>>,
}

/// The raw verification table.
pub struct RawVerify {
    pub mypy_cmd: Option<Vec<String>>,
    pub pyright_cmd: Option<Vec<String>>,
}

/// The raw configuration as deserialized, each entry optional.
pub struct RawConfig {
    pub backend: Option<String>,
    pub python_exe: Option<String>,
    pub includes: Option<Vec<String>>,
    pub inputs: Option<Vec<String>>,
    pub out: Option<String>,
    pub mypy: Option<bool>,
    pub mypy_grpc: Option<bool>,
    pub postprocess: Option<RawPostProcess>,
    pub verify: Option<RawVerify>,
}

/// What the case-folded characters of a backend name are; folding is
/// delegated to the standard library.
pub uninterp spec fn lower_of(s: Seq<char>) -> Seq<char>;

/// Relies on `str::to_lowercase`: the result depends on the characters
/// alone.
#[verifier::external_body]
fn lowercase(s: &str) -> (r: String)
    ensures
        r@ == lower_of(s@),
{
    s.to_lowercase()
}

/// The backend selected by a name, when its case-folded form is a known
/// one.
pub open spec fn spec_backend(name: Seq<char>) -> Option<Backend> {
    if lower_of(name) == "protoc"@ {
        Some(Backend::Protoc)
    } else if lower_of(name) == "buf"@ {
        Some(Backend::Buf)
    } else {
        None
    }
}

/// Select the backend by its case-folded name; an unknown name is
/// rejected, carrying the folded name in the message.
pub fn parse_backend(name: &str) -> (r: Result<Backend, String>)
    ensures
        match r {
            Ok(b) => spec_backend(name@) == Some(b),
            Err(m) => spec_backend(name@) is None && m@ == "unsupported backend: "@ + lower_of(
                name@,
            ),
        },
{
    let low = lowercase(name);
    let lv = chars_of(low.as_str());
    proof {
        reveal_strlit("protoc");
        reveal_strlit("buf");
    }
    if lv.len() == 6 && match_lit(&lv, 0, "protoc") {
        proof {
            assert(lv@ =~= "protoc"@);
        }
        Ok(Backend::Protoc)
    } else if lv.len() == 3 && match_lit(&lv, 0, "buf") {
        proof {
            assert(lv@ =~= "buf"@);
        }
        Ok(Backend::Buf)
    } else {
        proof {
            if lv@ == "protoc"@ {
                assert(lv@.subrange(0, 6) =~= lv@);
                assert(occurs_at(lv@, "protoc"@, 0));
            }
            if lv@ == "buf"@ {
                assert(lv@.subrange(0, 3) =~= lv@);
                assert(occurs_at(lv@, "buf"@, 0));
            }
        }
        let mut m: Vec<char> = Vec::new();
        push_str_chars(&mut m, "unsupported backend: ");
        push_all(&mut m, &lv);
        proof {
            assert(m@ =~= "unsupported backend: "@ + lower_of(name@));
        }
        Err(string_from_chars(&m))
    }
}

/// The backend name that resolution examines: the given one, or the
/// default.
pub open spec fn backend_name_of(raw: RawConfig) -> Seq<char> {
    match raw.backend {
        Some(s) => s@,
        None => "protoc"@,
    }
}

/// The module suffixes recognized by default: the data-structure and
/// service bindings and their type-stub variants.
pub open spec fn default_module_suffixes() -> Seq<Seq<char>> {
    seq!["_pb2.py"@, "_pb2.pyi"@, "_pb2_grpc.py"@, "_pb2_grpc.pyi"@]
}

fn default_suffixes_vec() -> (r: Vec<String>)
    ensures
        views_of_strings(r@) == default_module_suffixes(),
{
    let mut r: Vec<String> = Vec::new();
    let mut s: Vec<char> = Vec::new();
    push_str_chars(&mut s, "_pb2.py");
    r.push(string_from_chars(&s));
    let mut s2: Vec<char> = Vec::new();
    push_str_chars(&mut s2, "_pb2.pyi");
    r.push(string_from_chars(&s2));
    let mut s3: Vec<char> = Vec::new();
    push_str_chars(&mut s3, "_pb2_grpc.py");
    r.push(string_from_chars(&s3));
    let mut s4: Vec<char> = Vec::new();
    push_str_chars(&mut s4, "_pb2_grpc.pyi");
    r.push(string_from_chars(&s4));
    proof {
        assert(views_of_strings(r@) =~= default_module_suffixes());
    }
    r
}

fn str_of(lit: &str) -> (r: String)
    ensures
        r@ == lit@,
{
    let mut s: Vec<char> = Vec::new();
    push_str_chars(&mut s, lit);
    proof {
        assert(s@ =~= lit@);
    }
    string_from_chars(&s)
}

impl AppConfig {
    /// Resolve a raw configuration: fill in every default and check the
    /// backend name.  Fails exactly when the backend name is unknown.
    pub fn resolve(raw: RawConfig) -> (r: Result<AppConfig, String>)
        ensures
            match r {
                Ok(cfg) => {
                    &&& spec_backend(backend_name_of(raw)) == Some(cfg.backend)
                    &&& cfg.python_exe@ == (match raw.python_exe {
                        Some(s) => s@,
                        None => "python3"@,
                    })
                    &&& views_of_strings(cfg.includes@) == (match raw.includes {
                        Some(v) => if v@.len() == 0 {
                            seq!["."@]
                        } else {
                            views_of_strings(v@)
                        },
                        None => seq!["."@],
                    })
                    &&& views_of_strings(cfg.inputs@) == (match raw.inputs {
                        Some(v) => views_of_strings(v@),
                        None => Seq::<Seq<char>>::empty(),
                    })
                    &&& cfg.out@ == (match raw.out {
                        Some(s) => s@,
                        None => "generated/python"@,
                    })
                    &&& cfg.generate_mypy == (match raw.mypy {
                        Some(b) => b,
                        None => false,
                    })
                    &&& cfg.generate_mypy_grpc == (match raw.mypy_grpc {
                        Some(b) => b,
                        None => false,
                    })
                    &&& match raw.postprocess {
                        None => {
                            &&& cfg.postprocess.protoletariat == true
                            &&& cfg.postprocess.fix_pyi == true
                            &&& cfg.postprocess.create_package == true
                            &&& cfg.postprocess.exclude_google == true
                            &&& cfg.postprocess.pyright_header == false
                            &&& views_of_strings(cfg.postprocess.module_suffixes@)
                                == default_module_suffixes()
                        },
                        Some(pp) => {
                            &&& cfg.postprocess.protoletariat == (match pp.protoletariat {
                                Some(b) => b,
                                None => true,
                            })
                            &&& cfg.postprocess.fix_pyi == (match pp.fix_pyi {
                                Some(b) => b,
                                None => true,
                            })
                            &&& cfg.postprocess.create_package == (match pp.create_package {
                                Some(b) => b,
                                None => true,
                            })
                            &&& cfg.postprocess.exclude_google == (match pp.exclude_google {
                                Some(b) => b,
                                None => true,
                            })
                            &&& cfg.postprocess.pyright_header == (match pp.pyright_header {
                                Some(b) => b,
                                None => false,
                            })
                            &&& views_of_strings(cfg.postprocess.module_suffixes@) == (
                            match pp.module_suffixes {
                                Some(v) => views_of_strings(v@),
                                None => default_module_suffixes(),
                            })
                        },
                    }
                    &&& match raw.verify {
                        None => cfg.verify is None,
                        Some(v) => cfg.verify is Some && cfg.verify->0.mypy_cmd == v.mypy_cmd
                            && cfg.verify->0.pyright_cmd == v.pyright_cmd,
                    }
                },
                Err(m) => spec_backend(backend_name_of(raw)) is None && m@
                    == "unsupported backend: "@ + lower_of(backend_name_of(raw)),
            },
    {
        let backend = match &raw.backend {
            Some(s) => {
                match parse_backend(s.as_str()) {
                    Ok(b) => b,
                    Err(m) => {
                        return Err(m);
                    },
                }
            },
            None => {
                match parse_backend("protoc") {
                    Ok(b) => b,
                    Err(m) => {
                        return Err(m);
                    },
                }
            },
        };
        let python_exe = match raw.python_exe {
            Some(s) => s,
            None => str_of("python3"),
        };
        let includes = match raw.includes {
            Some(v) => {
                if v.len() == 0 {
                    let mut d: Vec<String> = Vec::new();
                    d.push(str_of("."));
                    proof {
                        assert(views_of_strings(d@) =~= seq!["."@]);
                    }
                    d
                } else {
                    v
                }
            },
            None => {
                let mut d: Vec<String> = Vec::new();
                d.push(str_of("."));
                proof {
                    assert(views_of_strings(d@) =~= seq!["."@]);
                }
                d
            },
        };
        let inputs = match raw.inputs {
            Some(v) => v,
            None => Vec::new(),
        };
        proof {
            assert(views_of_strings(Seq::<String>::empty()) =~= Seq::<Seq<char>>::empty());
        }
        let out = match raw.out {
            Some(s) => s,
            None => str_of("generated/python"),
        };
        let generate_mypy = match raw.mypy {
            Some(b) => b,
            None => false,
        };
        let generate_mypy_grpc = match raw.mypy_grpc {
            Some(b) => b,
            None => false,
        };
        let postprocess = match raw.postprocess {
            None => PostProcess {
                protoletariat: true,
                fix_pyi: true,
                create_package: true,
                exclude_google: true,
                pyright_header: false,
                module_suffixes: default_suffixes_vec(),
            },
            Some(pp) => PostProcess {
                protoletariat: match pp.protoletariat {
                    Some(b) => b,
                    None => true,
                },
                fix_pyi: match pp.fix_pyi {
                    Some(b) => b,
                    None => true,
                },
                create_package: match pp.create_package {
                    Some(b) => b,
                    None => true,
                },
                exclude_google: match pp.exclude_google {
                    Some(b) => b,
                    None => true,
                },
                pyright_header: match pp.pyright_header {
                    Some(b) => b,
                    None => false,
                },
                module_suffixes: match pp.module_suffixes {
                    Some(v) => v,
                    None => default_suffixes_vec(),
                },
            },
        };
        let verify = match raw.verify {
            None => None,
            Some(v) => Some(Verify { mypy_cmd: v.mypy_cmd, pyright_cmd: v.pyright_cmd }),
        };
        Ok(
            AppConfig {
                backend,
                python_exe,
                includes,
                inputs,
                out,
                generate_mypy,
                generate_mypy_grpc,
                postprocess,
                verify,
            },
        )
    }
}

} // verus!
