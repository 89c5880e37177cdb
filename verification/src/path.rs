//! Dotted paths: the names of nodes, each made of the names above it.

use vstd::prelude::*;
use vstd::string::StringExecFns;

verus! {

/// What an optional string holds.
pub open spec fn opt_text(s: Option<String>) -> Option<Seq<char>> {
    match s {
        None => None,
        Some(t) => Some(t@),
    }
}

/// The path of `name` under `prefix`: `name` itself at the root, else the
/// prefix, a dot and `name`.
pub open spec fn join(prefix: Option<Seq<char>>, name: Seq<char>) -> Seq<char> {
    match prefix {
        None => name,
        Some(p) => p + seq!['.'] + name,
    }
}

/// The prefix as it is written in an error: empty at the root.
pub open spec fn text_of(prefix: Option<Seq<char>>) -> Seq<char> {
    match prefix {
        None => Seq::empty(),
        Some(p) => p,
    }
}

/// The path of `name` under `parent`.
pub fn join_path(parent: &Option<String>, name: &String) -> (s: String)
    ensures
        s@ == join(opt_text(*parent), name@),
{
    match parent {
        None => name.clone(),
        Some(p) => {
            let mut s = p.clone();
            proof {
                reveal_strlit(".");
            }
            s.append(".");
            s.append(name.as_str());
            assert(s@ =~= p@ + seq!['.'] + name@);
            s
        },
    }
}

/// The parent as it is written in an error.
pub fn parent_text(parent: &Option<String>) -> (s: String)
    ensures
        s@ == text_of(opt_text(*parent)),
{
    match parent {
        None => String::new(),
        Some(p) => p.clone(),
    }
}

/// A copy of an optional string.
pub fn clone_opt(s: &Option<String>) -> (r: Option<String>)
    ensures
        opt_text(r) == opt_text(*s),
{
    match s {
        None => None,
        Some(t) => Some(t.clone()),
    }
}

} // verus!
