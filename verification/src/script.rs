//! Generation of the throwaway Python programs that prove the rewritten
//! modules import.
//!
//! The batch program imports every candidate module, catching import errors,
//! missing modules, syntax errors and any other failure per module without
//! stopping, and reports machine-parseable summary and error markers on its
//! error stream, exiting non-zero exactly when some module failed.  The
//! individual program does the same for one module, printing a single
//! categorized marker.

use vstd::prelude::*;
use crate::chars::{chars_of, push_all, push_str_chars, string_from_chars};
use crate::rewrite::views_of_strings;

verus! {

/// A module name qualified with the package prefix, unless the prefix is
/// empty.
pub open spec fn qualified_module(pkg: Seq<char>, m: Seq<char>) -> Seq<char> {
    if pkg.len() == 0 {
        m
    } else {
        pkg + seq!['.'] + m
    }
}

/// Executable form of [`qualified_module`].
pub fn qualify_module(pkg: &Vec<char>, m: &Vec<char>) -> (r: Vec<char>)
    ensures
        r@ == qualified_module(pkg@, m@),
{
    if pkg.len() == 0 {
        let r = crate::chars::subvec(m, 0, m.len());
        proof {
            assert(r@ =~= m@);
        }
        r
    } else {
        let mut r = crate::chars::subvec(pkg, 0, pkg.len());
        proof {
            assert(r@ =~= pkg@);
        }
        r.push('.');
        push_all(&mut r, m);
        proof {
            assert(r@ =~= pkg@ + seq!['.'] + m@);
        }
        r
    }
}

/// A module name qualified with the package prefix, on strings.
pub fn qualified_module_name(package_name: &str, module: &str) -> (r: String)
    ensures
        r@ == qualified_module(package_name@, module@),
{
    let pkgv = chars_of(package_name);
    let mv = chars_of(module);
    let q = qualify_module(&pkgv, &mv);
    string_from_chars(&q)
}

/// Leading part of the batch test program.
pub open spec fn script_header() -> Seq<char> {
    "import sys\n"@ + "import importlib\n"@ + "import traceback\n"@ + "\n"@ + "failed = []\n"@
        + "succeeded = []\n"@ + "\n"@
}

/// One per-module section of the batch test program.
pub open spec fn spec_module_block(m: Seq<char>, full: Seq<char>) -> Seq<char> {
    "\n# Test module: "@ + m + " -> "@ + full + "\ntry:\n    mod = importlib.import_module('"@
        + full + "')\n    succeeded.append('"@ + m
        + "')\nexcept ImportError as e:\n    import_error = str(e)\n    if \"relative import\" in import_error.lower():\n        import_error += \" (relative import context issue)\"\n    failed.append(('"@
        + m + "', 'ImportError: ' + import_error))\nexcept ModuleNotFoundError as e:\n    failed.append(('"@
        + m + "', 'ModuleNotFoundError: ' + str(e)))\nexcept SyntaxError as e:\n    failed.append(('"@
        + m
        + "', 'SyntaxError: ' + str(e) + ' at line ' + str(e.lineno or 'unknown')))\nexcept Exception as e:\n    tb = traceback.format_exc()\n    failed.append(('"@
        + m + "', 'Exception: ' + type(e).__name__ + ': ' + str(e)))\n"@
}

/// The per-module sections for `ms[i..]`.
pub open spec fn blocks_from(pkg: Seq<char>, ms: Seq<Seq<char>>, i: int) -> Seq<char>
    decreases ms.len() - i,
{
    if i < 0 || i >= ms.len() {
        Seq::empty()
    } else {
        spec_module_block(ms[i], qualified_module(pkg, ms[i])) + blocks_from(pkg, ms, i + 1)
    }
}

/// Trailing part of the batch test program: the summary marker, the
/// per-failure error markers, and the exit status.
pub open spec fn script_footer() -> Seq<char> {
    "\n"@
        + "print(f'IMPORT_TEST_SUMMARY:succeeded={len(succeeded)},failed={len(failed)},total={len(succeeded)+len(failed)}', file=sys.stderr)\n"@
        + "\n"@ + "if failed:\n"@ + "    for module, error in failed:\n"@
        + "        print(f'IMPORT_ERROR:{module}:{error}', file=sys.stderr)\n"@
        + "    sys.exit(1)\n"@ + "else:\n"@
        + "    print('IMPORT_TEST_SUCCESS:all_modules_imported_successfully', file=sys.stderr)\n"@
}

/// The whole batch test program for the given package name and modules.
pub open spec fn spec_import_test_script(pkg: Seq<char>, ms: Seq<Seq<char>>) -> Seq<char> {
    script_header() + blocks_from(pkg, ms, 0) + script_footer()
}

fn append_module_block(s: &mut Vec<char>, m: &Vec<char>, full: &Vec<char>)
    ensures
        final(s)@ == old(s)@ + spec_module_block(m@, full@),
{
    push_str_chars(s, "\n# Test module: ");
    push_all(s, m);
    push_str_chars(s, " -> ");
    push_all(s, full);
    push_str_chars(s, "\ntry:\n    mod = importlib.import_module('");
    push_all(s, full);
    push_str_chars(s, "')\n    succeeded.append('");
    push_all(s, m);
    push_str_chars(
        s,
        "')\nexcept ImportError as e:\n    import_error = str(e)\n    if \"relative import\" in import_error.lower():\n        import_error += \" (relative import context issue)\"\n    failed.append(('",
    );
    push_all(s, m);
    push_str_chars(
        s,
        "', 'ImportError: ' + import_error))\nexcept ModuleNotFoundError as e:\n    failed.append(('",
    );
    push_all(s, m);
    push_str_chars(
        s,
        "', 'ModuleNotFoundError: ' + str(e)))\nexcept SyntaxError as e:\n    failed.append(('",
    );
    push_all(s, m);
    push_str_chars(
        s,
        "', 'SyntaxError: ' + str(e) + ' at line ' + str(e.lineno or 'unknown')))\nexcept Exception as e:\n    tb = traceback.format_exc()\n    failed.append(('",
    );
    push_all(s, m);
    push_str_chars(s, "', 'Exception: ' + type(e).__name__ + ': ' + str(e)))\n");
    proof {
        assert(s@ =~= old(s)@ + spec_module_block(m@, full@));
    }
}

/// Generate the batch test program: a header, one guarded import per
/// module in the given order, and the marker-emitting footer.
pub fn create_import_test_script(package_name: &str, modules: &Vec<String>) -> (r: String)
    ensures
        r@ == spec_import_test_script(package_name@, views_of_strings(modules@)),
{
    let pkgv = chars_of(package_name);
    let ghost ms = views_of_strings(modules@);
    let mut s: Vec<char> = Vec::new();
    push_str_chars(&mut s, "import sys\n");
    push_str_chars(&mut s, "import importlib\n");
    push_str_chars(&mut s, "import traceback\n");
    push_str_chars(&mut s, "\n");
    push_str_chars(&mut s, "failed = []\n");
    push_str_chars(&mut s, "succeeded = []\n");
    push_str_chars(&mut s, "\n");
    proof {
        assert(s@ =~= script_header());
    }
    let mut i: usize = 0;
    while i < modules.len()
        invariant
            0 <= i <= modules@.len(),
            ms == views_of_strings(modules@),
            pkgv@ == package_name@,
            s@ + blocks_from(pkgv@, ms, i as int) == script_header() + blocks_from(pkgv@, ms, 0),
        decreases modules@.len() - i,
    {
        let ghost pre = s@;
        let mv = chars_of(modules[i].as_str());
        let full = qualify_module(&pkgv, &mv);
        append_module_block(&mut s, &mv, &full);
        proof {
            assert(ms[i as int] == mv@);
            assert(pre + (spec_module_block(mv@, full@) + blocks_from(pkgv@, ms, i + 1)) =~= (pre
                + spec_module_block(mv@, full@)) + blocks_from(pkgv@, ms, i + 1));
        }
        i += 1;
    }
    proof {
        assert(s@ + Seq::<char>::empty() =~= s@);
    }
    push_str_chars(&mut s, "\n");
    push_str_chars(
        &mut s,
        "print(f'IMPORT_TEST_SUMMARY:succeeded={len(succeeded)},failed={len(failed)},total={len(succeeded)+len(failed)}', file=sys.stderr)\n",
    );
    push_str_chars(&mut s, "\n");
    push_str_chars(&mut s, "if failed:\n");
    push_str_chars(&mut s, "    for module, error in failed:\n");
    push_str_chars(&mut s, "        print(f'IMPORT_ERROR:{module}:{error}', file=sys.stderr)\n");
    push_str_chars(&mut s, "    sys.exit(1)\n");
    push_str_chars(&mut s, "else:\n");
    push_str_chars(
        &mut s,
        "    print('IMPORT_TEST_SUCCESS:all_modules_imported_successfully', file=sys.stderr)\n",
    );
    proof {
        assert(s@ =~= spec_import_test_script(package_name@, ms));
    }
    string_from_chars(&s)
}

/// The isolated test program for one module.
pub open spec fn spec_individual_test_script(m: Seq<char>, full: Seq<char>) -> Seq<char> {
    "\nimport sys\nimport importlib\nimport traceback\n\nmodule_name = '"@ + m
        + "'\nfull_module_name = '"@ + full
        + "'\n\ntry:\n    mod = importlib.import_module(full_module_name)\n    print('SUCCESS:' + module_name, file=sys.stderr)\nexcept ImportError as e:\n    error_msg = str(e)\n    if \"relative import\" in error_msg.lower():\n        print('RELATIVE_IMPORT_ERROR:' + module_name + ':' + error_msg, file=sys.stderr)\n    else:\n        print('IMPORT_ERROR:' + module_name + ':' + error_msg, file=sys.stderr)\nexcept ModuleNotFoundError as e:\n    print('MODULE_NOT_FOUND_ERROR:' + module_name + ':' + str(e), file=sys.stderr)\nexcept SyntaxError as e:\n    print('SYNTAX_ERROR:' + module_name + ':line ' + str(e.lineno or '?') + ': ' + str(e), file=sys.stderr)\nexcept Exception as e:\n    print('GENERAL_ERROR:' + module_name + ':' + type(e).__name__ + ': ' + str(e), file=sys.stderr)\n    traceback.print_exc(file=sys.stderr)\n"@
}

/// Generate the isolated test program for one module: it imports the fully
/// qualified module and prints exactly one categorized marker on its error
/// stream.
pub fn create_individual_test_script(module: &str, full_module: &str) -> (r: String)
    ensures
        r@ == spec_individual_test_script(module@, full_module@),
{
    let mv = chars_of(module);
    let fv = chars_of(full_module);
    let mut s: Vec<char> = Vec::new();
    push_str_chars(&mut s, "\nimport sys\nimport importlib\nimport traceback\n\nmodule_name = '");
    push_all(&mut s, &mv);
    push_str_chars(&mut s, "'\nfull_module_name = '");
    push_all(&mut s, &fv);
    push_str_chars(
        &mut s,
        "'\n\ntry:\n    mod = importlib.import_module(full_module_name)\n    print('SUCCESS:' + module_name, file=sys.stderr)\nexcept ImportError as e:\n    error_msg = str(e)\n    if \"relative import\" in error_msg.lower():\n        print('RELATIVE_IMPORT_ERROR:' + module_name + ':' + error_msg, file=sys.stderr)\n    else:\n        print('IMPORT_ERROR:' + module_name + ':' + error_msg, file=sys.stderr)\nexcept ModuleNotFoundError as e:\n    print('MODULE_NOT_FOUND_ERROR:' + module_name + ':' + str(e), file=sys.stderr)\nexcept SyntaxError as e:\n    print('SYNTAX_ERROR:' + module_name + ':line ' + str(e.lineno or '?') + ': ' + str(e), file=sys.stderr)\nexcept Exception as e:\n    print('GENERAL_ERROR:' + module_name + ':' + type(e).__name__ + ': ' + str(e), file=sys.stderr)\n    traceback.print_exc(file=sys.stderr)\n",
    );
    proof {
        assert(s@ =~= spec_individual_test_script(module@, full_module@));
    }
    string_from_chars(&s)
}

} // verus!
