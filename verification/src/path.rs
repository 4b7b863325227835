//! Paths as text, with `/` between their parts.
use vstd::prelude::*;

verus! {

/// `path` seen from `dir`: a path that starts with `/` stands for itself,
/// any other is put behind `dir`.
pub open spec fn joined(dir: Seq<char>, path: Seq<char>) -> Seq<char> {
    if path.len() > 0 && path[0] == '/' {
        path
    } else if dir.len() == 0 || dir.last() == '/' {
        dir + path
    } else {
        dir + "/"@ + path
    }
}

/// `path` seen from `dir`.
pub fn join_path(dir: &str, path: &str) -> (res: String)
    ensures
        res@ == joined(dir@, path@),
{
    if !path.is_empty() && path.get_char(0) == '/' {
        return path.to_string();
    }
    let mut res: String = dir.to_string();
    if !dir.is_empty() && dir.get_char(dir.unicode_len() - 1) != '/' {
        res.append("/");
    }
    res.append(path);
    res
}

/// A path that starts with `/` is the same from everywhere. Any other starts with the directory
/// and ends with the path, and exactly one `/` parts the two, unless the directory is empty.
pub proof fn law_joined_paths(dir: Seq<char>, path: Seq<char>)
    ensures
        path.len() > 0 && path[0] == '/' ==> joined(dir, path) == path,
        path.len() == 0 || path[0] != '/' ==> {
            let whole = joined(dir, path);
            &&& dir.is_prefix_of(whole)
            &&& path.is_suffix_of(whole)
            &&& dir.len() == 0 ==> whole == path
            &&& dir.len() > 0 && dir.last() == '/' ==> whole.len() == dir.len() + path.len()
            &&& dir.len() > 0 && dir.last() != '/' ==> whole.len() == dir.len() + 1 + path.len()
                && whole[dir.len() as int] == '/'
        },
{
    reveal_strlit("/");
    assert("/"@.len() == 1);
    let whole = joined(dir, path);
    if path.len() == 0 || path[0] != '/' {
        assert(whole.subrange(0, dir.len() as int) =~= dir);
        assert(whole.subrange(whole.len() - path.len(), whole.len() as int) =~= path);
        if dir.len() == 0 {
            assert(whole =~= path);
        }
    }
}

} // verus!
