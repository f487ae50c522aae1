//! File paths as text, with `/` between their parts.
use crate::text;
use crate::text::starts;
use vstd::prelude::*;

verus! {

/// `b` below `a`; an absolute `b` stands for itself.
pub open spec fn joined_path(a: Seq<char>, b: Seq<char>) -> Seq<char> {
    if a.len() == 0 || starts(b, "/"@) {
        b
    } else if a.last() == '/' {
        a + b
    } else {
        a + "/"@ + b
    }
}

/// `b` below `a`; an absolute `b` stands for itself.
pub fn join_path(a: &str, b: &str) -> (r: String)
    ensures
        r@ == joined_path(a@, b@),
{
    proof {
        reveal_strlit("/");
    }
    let ac = text::chars_of(a);
    let bc = text::chars_of(b);
    assert(starts(b@, "/"@) == (b@.len() > 0 && b@[0] == '/')) by {
        if starts(b@, "/"@) {
            assert(b@.take(1)[0] == '/');
        }
        if b@.len() > 0 && b@[0] == '/' {
            assert(b@.take(1) =~= "/"@);
        }
    }
    if ac.len() == 0 || (bc.len() > 0 && bc[0] == '/') {
        b.to_owned()
    } else {
        let mut s = a.to_owned();
        if ac[ac.len() - 1] != '/' {
            s.append("/");
        }
        s.append(b);
        s
    }
}

/// Where the last `/` of `s` stands; -1 if it has none.
pub open spec fn last_slash(s: Seq<char>) -> int
    decreases s.len(),
{
    if s.len() == 0 {
        -1
    } else if s.last() == '/' {
        s.len() - 1
    } else {
        last_slash(s.drop_last())
    }
}

/// Whether a path is read alike everywhere: no back slash, no colon, no
/// double slash at its start.
pub open spec fn portable(s: Seq<char>) -> bool {
    &&& forall|i: int| 0 <= i < s.len() ==> #[trigger] s[i] != '\\' && s[i] != ':'
    &&& !(s.len() >= 2 && s[0] == '/' && s[1] == '/')
}

/// The directory and the name that a plain path states: a name that is
/// neither `.` nor `..`, alone, in the root, or in a directory that ends in
/// neither `/` nor a lone `.`.
pub open spec fn plain_split(path: Seq<char>) -> Option<(Seq<char>, Seq<char>)> {
    let k = last_slash(path);
    let name = path.skip(k + 1);
    let dir = path.take(k);
    if !portable(path) || name.len() == 0 || name == seq!['.'] || name == seq!['.', '.'] {
        None
    } else if k < 0 {
        Some((Seq::empty(), name))
    } else if k == 0 {
        Some((seq!['/'], name))
    } else if dir.last() == '/' || dir.skip(last_slash(dir) + 1) == seq!['.'] {
        None
    } else {
        Some((dir, name))
    }
}

/// Whether `r` is the directory of `path`, if that is plain.
pub open spec fn is_dir_of(r: Option<String>, path: Seq<char>) -> bool {
    plain_split(path) matches Some((dir, _)) ==> (r matches Some(d) && d@ == dir)
}

/// Whether `r` is the name in `path`, if that is plain.
pub open spec fn is_name_of(r: Option<String>, path: Seq<char>) -> bool {
    plain_split(path) matches Some((_, name)) ==> (r matches Some(n) && n@ == name)
}

/// The directory of a path, by `std::path::Path::parent`: the path without
/// its last part, if it has one. Stated for plain paths alone, because what
/// separates the parts of other paths depends on the machine.
#[verifier::external_body]
pub(crate) fn parent_of(path: &str) -> (r: Option<String>)
    ensures
        is_dir_of(r, path@),
{
    match std::path::Path::new(path).parent() {
        Some(p) => Some(p.to_string_lossy().into_owned()),
        None => None,
    }
}

/// The last part of a path, by `std::path::Path::file_name`. Stated for plain
/// paths alone, because what separates the parts of other paths depends on
/// the machine.
#[verifier::external_body]
pub(crate) fn file_name_of(path: &str) -> (r: Option<String>)
    ensures
        is_name_of(r, path@),
{
    match std::path::Path::new(path).file_name() {
        Some(n) => Some(n.to_string_lossy().into_owned()),
        None => None,
    }
}

} // verus!
