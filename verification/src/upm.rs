//! The names of the members of the written archive.

use vstd::prelude::*;

verus! {

/// The name of the member that holds `path` in an archive with the prefix `prefix`:
/// `<prefix>/<path>`.
pub open spec fn member_name_spec(prefix: Seq<char>, path: Seq<char>) -> Seq<char> {
    prefix + seq!['/'] + path
}

/// The name under which an output with the path `path` is written to an archive with the
/// prefix `prefix`.
pub fn member_name(prefix: &str, path: &str) -> (name: String)
    ensures
        name@ == member_name_spec(prefix@, path@),
{
    let mut name = prefix.to_owned();
    proof {
        reveal_strlit("/");
    }
    name.append("/");
    name.append(path);
    assert("/"@ =~= seq!['/']);
    name
}

} // verus!
