//! Paths as text.

use vstd::prelude::*;
use vstd::string::*;

verus! {

/// `dir` with the relative path `name` below it.
pub open spec fn path_join(dir: Seq<char>, name: Seq<char>) -> Seq<char> {
    if dir.len() == 0 {
        name
    } else if dir.last() == '/' {
        dir + name
    } else {
        dir + "/"@ + name
    }
}

/// `dir` with the relative path `name` below it.
pub fn join_path(dir: &str, name: &str) -> (r: String)
    ensures
        r@ == path_join(dir@, name@),
{
    let n: usize = dir.unicode_len();
    let mut out = dir.to_owned();
    if n > 0 && dir.get_char(n - 1) != '/' {
        out.append("/");
    }
    out.append(name);
    assert(out@ =~= path_join(dir@, name@));
    out
}

/// A path ends in what was joined to it and starts with the directory, with one
/// slash between: a directory that ends in one gets no other.
pub proof fn law_paths_are_joined_by_one_slash(dir: Seq<char>, name: Seq<char>)
    requires
        dir.len() > 0,
        dir.last() != '/',
    ensures
        path_join(dir, name) == dir + seq!['/'] + name,
        path_join(dir.push('/'), name) == path_join(dir, name),
        path_join(seq![], name) == name,
{
    reveal_strlit("/");
    assert("/"@ =~= seq!['/']);
    assert(dir.push('/') + name =~= dir + seq!['/'] + name);
}

} // verus!
