//! Building and comparing the string keys that identify lock entries.

use vstd::prelude::*;
use vstd::string::StringExecFns;

verus! {

/// The lock key of a module: its name and version joined by a single space.
pub open spec fn key_of(name: Seq<char>, version: Seq<char>) -> Seq<char> {
    name + seq![' '] + version
}

/// Builds the lock key `"<name> <version>"` for a module.
pub fn make_key(name: &str, version: &str) -> (r: String)
    ensures
        r@ == key_of(name@, version@),
{
    let mut s = name.to_owned();
    s.append(" ");
    s.append(version);
    proof {
        reveal_strlit(" ");
        assert(s@ =~= key_of(name@, version@));
    }
    s
}

/// True exactly when the two string slices hold the same characters.
pub fn str_eq(a: &str, b: &str) -> (r: bool)
    ensures
        r == (a@ == b@),
{
    let sa = a.to_owned();
    let sb = b.to_owned();
    sa == sb
}

} // verus!
