//! The descriptor of the package that is written: its name and its version.

use vstd::prelude::*;

verus! {

/// The descriptor of a package: the two fields that name the written package.
pub struct Manifest<'a> {
    pub name: &'a str,
    pub version: &'a str,
}

/// The prefix of a package with the given name and version: `<name>@<version>`.
pub open spec fn prefix_spec(name: Seq<char>, version: Seq<char>) -> Seq<char> {
    name + seq!['@'] + version
}

impl<'a> Manifest<'a> {
    /// The prefix under which the members of the package are written: its name, an `@`, and
    /// its version.
    pub fn prefix(&self) -> (prefix: String)
        ensures
            prefix@ == prefix_spec(self.name@, self.version@),
    {
        let mut prefix = self.name.to_owned();
        proof {
            reveal_strlit("@");
        }
        prefix.append("@");
        prefix.append(self.version);
        assert("@"@ =~= seq!['@']);
        prefix
    }
}

} // verus!
