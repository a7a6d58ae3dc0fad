//! Resolving the batch file's path: the target filename placed in the same
//! directory as the running executable.

use vstd::prelude::*;
use vstd::string::StringExecFns;
use crate::errors::PathError;
use crate::text::str_to_chars;

verus! {

/// Index of the last path separator, or `-1` when there is none.
pub open spec fn last_sep(p: Seq<char>) -> int
    decreases p.len(),
{
    if p.len() == 0 {
        -1
    } else if p[p.len() - 1] == '/' {
        p.len() - 1
    } else {
        last_sep(p.drop_last())
    }
}

/// The path names a parent directory to place a sibling file in: it holds a
/// separator and is not the bare root.
pub open spec fn has_parent(p: Seq<char>) -> bool {
    (exists|i: int| 0 <= i < p.len() && p[i] == '/') && p != seq!['/']
}

/// What the resolver returns on success.
pub open spec fn spec_resolve(p: Seq<char>, f: Seq<char>) -> Seq<char> {
    p.take(last_sep(p) + 1) + f
}

pub proof fn lemma_last_sep_props(p: Seq<char>)
    ensures
        -1 <= last_sep(p) < p.len(),
        last_sep(p) >= 0 ==> p[last_sep(p)] == '/',
        (last_sep(p) >= 0) == (exists|i: int| 0 <= i < p.len() && p[i] == '/'),
        forall|i: int| last_sep(p) < i < p.len() ==> p[i] != '/',
    decreases p.len(),
{
    if p.len() > 0 && p[p.len() - 1] != '/' {
        lemma_last_sep_props(p.drop_last());
        assert forall|i: int| 0 <= i < p.len() - 1 implies p.drop_last()[i] == p[i] by {}
        if exists|i: int| 0 <= i < p.len() && p[i] == '/' {
            let w = choose|i: int| 0 <= i < p.len() && p[i] == '/';
            assert(w < p.len() - 1);
            assert(p.drop_last()[w] == '/');
        }
    }
}

/// Appending one character either sets or keeps the last separator.
proof fn lemma_last_sep_snoc(p: Seq<char>, c: char)
    ensures
        c == '/' ==> last_sep(p.push(c)) == p.len(),
        c != '/' ==> last_sep(p.push(c)) == last_sep(p),
{
    assert(p.push(c)[p.len() as int] == c);
    assert(p.push(c).drop_last() =~= p);
}

/// The target filename placed in the executable's directory.  Fails when the
/// executable path has no parent directory: a bare filename, an empty path,
/// or the bare root.
pub fn resolve_batch_path(exe_path: &str, filename: &str) -> (r: Result<String, PathError>)
    ensures
        match r {
            Ok(s) => has_parent(exe_path@) && s@ == spec_resolve(exe_path@, filename@),
            Err(e) => !has_parent(exe_path@) && e == PathError::NoParentDirectory,
        },
{
    let chars = str_to_chars(exe_path);
    let n = chars.len();
    let mut last: usize = 0;
    let mut found = false;
    let mut i: usize = 0;
    while i < n
        invariant
            0 <= i <= n,
            n == chars@.len(),
            chars@ == exe_path@,
            found ==> last < i && last_sep(chars@.take(i as int)) == last as int,
            !found ==> last_sep(chars@.take(i as int)) == -1,
        decreases n - i,
    {
        proof {
            lemma_last_sep_snoc(chars@.take(i as int), chars@[i as int]);
            assert(chars@.take(i as int + 1) =~= chars@.take(i as int).push(chars@[i as int]));
        }
        if chars[i] == '/' {
            last = i;
            found = true;
        }
        i = i + 1;
    }
    proof {
        assert(chars@.take(n as int) =~= chars@);
        lemma_last_sep_props(exe_path@);
    }
    if !found {
        return Err(PathError::NoParentDirectory);
    }
    if n == 1 {
        // The path is exactly the root separator: no directory to join into.
        proof {
            assert(exe_path@ =~= seq!['/']);
        }
        return Err(PathError::NoParentDirectory);
    }
    let mut out = crate::text::chars_to_string(&chars, 0, last + 1);
    out.append(filename);
    proof {
        assert(exe_path@.subrange(0, last as int + 1) =~= exe_path@.take(last_sep(exe_path@) + 1));
        assert(exe_path@ != seq!['/']) by {
            assert(exe_path@.len() != 1);
        }
    }
    Ok(out)
}

} // verus!
