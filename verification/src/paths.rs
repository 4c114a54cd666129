//! Path and file-name arithmetic on plain strings: stems, extensions, parent
//! directories and the derived thumbnail-cache locations.
//!
//! Paths are treated as `/`-separated strings, the shape in which the host
//! hands them to the library.

use vstd::prelude::*;

verus! {

/// The largest index at which `c` occurs in `s`, or `-1` if it does not occur.
pub open spec fn last_index_of(s: Seq<char>, c: char) -> int
    decreases s.len(),
{
    if s.len() == 0 {
        -1
    } else if s[s.len() - 1] == c {
        s.len() - 1
    } else {
        last_index_of(s.take(s.len() - 1), c)
    }
}

/// The file-name stem: everything before the last `.`, unless that dot is the
/// first character or there is none, in which case the whole name.
pub open spec fn stem_of(s: Seq<char>) -> Seq<char> {
    if last_index_of(s, '.') > 0 {
        s.take(last_index_of(s, '.'))
    } else {
        s
    }
}

/// The file-name extension: everything after the last `.`, provided that dot
/// is neither the first character nor absent.
pub open spec fn ext_of(s: Seq<char>) -> Option<Seq<char>> {
    if last_index_of(s, '.') > 0 {
        Some(s.skip(last_index_of(s, '.') + 1))
    } else {
        None
    }
}

/// The parent directory of a path, kept with its trailing `/`; empty for a
/// bare file name.
pub open spec fn parent_of(s: Seq<char>) -> Seq<char> {
    s.take(last_index_of(s, '/') + 1)
}

/// The final component of a path: everything after the last `/`.
pub open spec fn base_name_of(s: Seq<char>) -> Seq<char> {
    s.skip(last_index_of(s, '/') + 1)
}

/// The index of the last occurrence of `c` in `s`, scanned from the end.
pub fn find_last(s: &str, c: char) -> (r: Option<usize>)
    ensures
        match r {
            Some(i) => i < s@.len() && last_index_of(s@, c) == i as int,
            None => last_index_of(s@, c) == -1,
        },
{
    let n: usize = s.unicode_len();
    let mut i: usize = n;
    proof {
        assert(s@.take(n as int) =~= s@);
    }
    while i > 0
        invariant
            n == s@.len(),
            i <= n,
            last_index_of(s@, c) == last_index_of(s@.take(i as int), c),
        decreases i,
    {
        if s.get_char(i - 1) == c {
            proof {
                assert(s@.take(i as int)[i - 1] == s@[i - 1]);
            }
            return Some(i - 1);
        }
        proof {
            assert(s@.take(i as int).take(i - 1) =~= s@.take(i - 1));
        }
        i = i - 1;
    }
    None
}

/// The stem of a file name, as [`stem_of`].
pub fn file_stem(name: &str) -> (r: String)
    ensures
        r@ == stem_of(name@),
{
    match find_last(name, '.') {
        Some(i) if i > 0 => {
            let sub = name.substring_char(0, i);
            proof {
                assert(sub@ =~= stem_of(name@));
            }
            sub.to_owned()
        },
        _ => name.to_owned(),
    }
}

/// The extension of a file name, as [`ext_of`].
pub fn file_extension(name: &str) -> (r: Option<String>)
    ensures
        match r {
            Some(e) => ext_of(name@) == Some(e@),
            None => ext_of(name@) is None,
        },
{
    let n: usize = s_len(name);
    match find_last(name, '.') {
        Some(i) if i > 0 => {
            let sub = name.substring_char(i + 1, n);
            proof {
                assert(sub@ =~= s_skip(name@, i + 1));
            }
            Some(sub.to_owned())
        },
        _ => None,
    }
}

/// The character length of a string slice.
pub fn s_len(s: &str) -> (n: usize)
    ensures
        n == s@.len(),
{
    s.unicode_len()
}

/// `s.skip(i)` written as a spec helper, so exec proofs can name it.
pub open spec fn s_skip(s: Seq<char>, i: int) -> Seq<char> {
    s.skip(i)
}

/// The parent directory of a path, as [`parent_of`].
pub fn path_parent(path: &str) -> (r: String)
    ensures
        r@ == parent_of(path@),
{
    let n: usize = s_len(path);
    match find_last(path, '/') {
        Some(i) => {
            let sub = path.substring_char(0, i + 1);
            proof {
                assert(sub@ =~= parent_of(path@));
            }
            sub.to_owned()
        },
        None => {
            proof {
                assert(Seq::<char>::empty() =~= parent_of(path@));
            }
            String::new()
        },
    }
}

/// The final component of a path, as [`base_name_of`].
pub fn path_base_name(path: &str) -> (r: String)
    ensures
        r@ == base_name_of(path@),
{
    let n: usize = s_len(path);
    match find_last(path, '/') {
        Some(i) => {
            let sub = path.substring_char(i + 1, n);
            proof {
                assert(sub@ =~= base_name_of(path@));
            }
            sub.to_owned()
        },
        None => {
            proof {
                assert(path@.skip(0) =~= base_name_of(path@));
            }
            path.to_owned()
        },
    }
}

/// Joins a directory path and a child name with a `/`, unless the directory
/// is empty or already ends in `/`.
pub open spec fn join_of(dir: Seq<char>, child: Seq<char>) -> Seq<char> {
    if dir.len() == 0 || dir[dir.len() - 1] == '/' {
        dir + child
    } else {
        dir + seq!['/'] + child
    }
}

/// Joins a directory path and a child name, as [`join_of`].
pub fn path_join(dir: &str, child: &str) -> (r: String)
    ensures
        r@ == join_of(dir@, child@),
{
    let n: usize = s_len(dir);
    if n == 0 {
        return child.to_owned();
    }
    if dir.get_char(n - 1) == '/' {
        let r = dir.to_owned().concat(child);
        return r;
    }
    let mut v: Vec<char> = crate::text::string_to_chars(dir);
    v.push('/');
    let mut r = crate::text::chars_to_string(&v);
    proof {
        assert(v@ =~= dir@ + seq!['/']);
    }
    let r2 = r.concat(child);
    proof {
        assert(r2@ =~= join_of(dir@, child@));
    }
    r2
}

} // verus!
