//! Which Go files are analysed: generated code and tests are skipped.
use vstd::prelude::*;

use crate::text::{chars_eq, chars_of, ends_with, ends_with_exec, split_char, split_char_exec};

verus! {

/// The named components of a `/`-separated path: the pieces between
/// separators, without empty pieces and without `.`.
pub open spec fn components(parts: Seq<Seq<char>>) -> Seq<Seq<char>>
    decreases parts.len(),
{
    if parts.len() == 0 {
        Seq::empty()
    } else {
        let rest = components(parts.drop_last());
        let p = parts.last();
        if p.len() > 0 && p != "."@ {
            rest.push(p)
        } else {
            rest
        }
    }
}

/// The last component of a path, unless that is `..` (empty then, as an
/// absent file name is read).
pub open spec fn file_name(path: Seq<char>) -> Seq<char> {
    let c = components(split_char(path, '/'));
    if c.len() > 0 && c.last() != ".."@ {
        c.last()
    } else {
        Seq::empty()
    }
}

/// A directory name under which Go sources are generated or are tests.
pub open spec fn is_skipped_directory(name: Seq<char>) -> bool {
    name == "thriftgo"@ || name == "test"@ || name == "tests"@ || name == "testfixture"@
        || name == "testfixtures"@
}

/// Generated protobuf/gRPC code, Go test files, and files under generated or
/// test directories.
pub open spec fn is_generated(path: Seq<char>) -> bool {
    let name = file_name(path);
    ||| ends_with(name, ".pb.go"@)
    ||| ends_with(name, "_grpc.pb.go"@)
    ||| ends_with(name, "_test.go"@)
    ||| exists|k: int|
        0 <= k < components(split_char(path, '/')).len() && is_skipped_directory(
            #[trigger] components(split_char(path, '/'))[k],
        )
}

fn is_skipped_directory_exec(name: &[char]) -> (r: bool)
    ensures
        r == is_skipped_directory(name@),
{
    chars_eq(name, &chars_of("thriftgo")) || chars_eq(name, &chars_of("test")) || chars_eq(
        name,
        &chars_of("tests"),
    ) || chars_eq(name, &chars_of("testfixture")) || chars_eq(name, &chars_of("testfixtures"))
}

pub fn is_generated_exec(path: &str) -> (r: bool)
    ensures
        r == is_generated(path@),
{
    let parts = split_char_exec(&chars_of(path), '/');
    let ghost views = parts@.map_values(|v: Vec<char>| v@);
    let dot = chars_of(".");
    let mut comps: Vec<Vec<char>> = Vec::new();
    let mut i: usize = 0;
    while i < parts.len()
        invariant
            i <= parts.len(),
            views == parts@.map_values(|v: Vec<char>| v@),
            dot@ == "."@,
            comps@.map_values(|v: Vec<char>| v@) == components(views.take(i as int)),
        decreases parts.len() - i,
    {
        assert(views.take(i + 1).drop_last() =~= views.take(i as int));
        let p = &parts[i];
        if p.len() > 0 && !chars_eq(p, &dot) {
            comps.push(vstd::slice::slice_to_vec(p.as_slice()));
            assert(comps@.map_values(|v: Vec<char>| v@) =~= components(views.take(i as int)).push(views[i as int]));
        }
        i = i + 1;
    }
    assert(views.take(parts.len() as int) =~= views);
    let ghost cviews = comps@.map_values(|v: Vec<char>| v@);
    let name: Vec<char> = if comps.len() > 0 && !chars_eq(&comps[comps.len() - 1], &chars_of("..")) {
        vstd::slice::slice_to_vec(comps[comps.len() - 1].as_slice())
    } else {
        Vec::new()
    };
    if ends_with_exec(&name, &chars_of(".pb.go")) || ends_with_exec(&name, &chars_of("_grpc.pb.go"))
        || ends_with_exec(&name, &chars_of("_test.go")) {
        return true;
    }
    let mut k: usize = 0;
    while k < comps.len()
        invariant
            k <= comps.len(),
            cviews == comps@.map_values(|v: Vec<char>| v@),
            cviews == components(split_char(path@, '/')),
            forall|j: int| 0 <= j < k ==> !is_skipped_directory(#[trigger] cviews[j]),
        decreases comps.len() - k,
    {
        if is_skipped_directory_exec(&comps[k]) {
            assert(cviews[k as int] == comps@[k as int]@);
            assert(is_skipped_directory(components(split_char(path@, '/'))[k as int]));
            return true;
        }
        k = k + 1;
    }
    false
}

/// Whether a Go file is analysed: everything but generated code and tests.
pub fn should_extract_file(path: &str) -> (r: bool)
    ensures
        r == !is_generated(path@),
{
    !is_generated_exec(path)
}

} // verus!
