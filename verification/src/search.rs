//! Resolution of an external program over the search path: splitting a
//! platform path list on its separator, joining each directory with the
//! program name, and picking the first candidate that exists. Directory
//! order is authoritative: the first match wins.

use crate::resolve::strings_of;
use vstd::prelude::*;
use vstd::string::{StrSliceExecFns, StringExecFns};

verus! {

/// The pieces of `s` between occurrences of `sep`, in order, as
/// `str::split` yields them: always at least one piece, and an empty piece
/// between adjacent separators or at either end.
pub open spec fn spec_split(s: Seq<char>, sep: char) -> Seq<Seq<char>>
    decreases s.len(),
{
    if s.len() == 0 {
        seq![Seq::<char>::empty()]
    } else if s[0] == sep {
        seq![Seq::<char>::empty()] + spec_split(s.subrange(1, s.len() as int), sep)
    } else {
        let rest = spec_split(s.subrange(1, s.len() as int), sep);
        seq![seq![s[0]] + rest[0]] + rest.subrange(1, rest.len() as int)
    }
}

/// When the first `k` characters are free of the separator and the scan
/// stops at a separator or at the end, the first piece is exactly those
/// characters.
proof fn lemma_split_head(s: Seq<char>, sep: char, k: int)
    requires
        0 <= k <= s.len(),
        forall|i: int| 0 <= i < k ==> s[i] != sep,
        k == s.len() || s[k] == sep,
    ensures
        k == s.len() ==> spec_split(s, sep) == seq![s],
        k < s.len() ==> spec_split(s, sep) == seq![s.subrange(0, k)] + spec_split(
            s.subrange(k + 1, s.len() as int),
            sep,
        ),
    decreases k,
{
    if k == 0 {
        if s.len() == 0 {
            assert(s =~= Seq::<char>::empty());
            assert(spec_split(s, sep) =~~= seq![s]);
        } else {
            assert(s.subrange(0, 0) =~= Seq::<char>::empty());
            assert(spec_split(s, sep) =~~= seq![s.subrange(0, 0)] + spec_split(
                s.subrange(1, s.len() as int),
                sep,
            ));
        }
    } else {
        let t = s.subrange(1, s.len() as int);
        assert forall|i: int| 0 <= i < k - 1 implies t[i] != sep by {
            assert(t[i] == s[i + 1]);
        }
        if k - 1 < t.len() {
            assert(t[k - 1] == s[k as int]);
        }
        lemma_split_head(t, sep, k - 1);
        let rest = spec_split(t, sep);
        if k == s.len() {
            assert(rest == seq![t]);
            assert(seq![s[0]] + t =~= s);
            assert(rest.subrange(1, rest.len() as int) =~= Seq::<Seq<char>>::empty());
            assert(spec_split(s, sep) =~~= seq![s]);
        } else {
            let tail_split = spec_split(s.subrange(k + 1, s.len() as int), sep);
            assert(t.subrange(k, t.len() as int) =~= s.subrange(k + 1, s.len() as int));
            assert(rest == seq![t.subrange(0, k - 1)] + tail_split);
            assert(seq![s[0]] + rest[0] =~= s.subrange(0, k));
            assert(rest.subrange(1, rest.len() as int) =~= tail_split);
            assert(spec_split(s, sep) =~~= seq![s.subrange(0, k)] + tail_split);
        }
    }
}

/// Split a path list on its separator character.
pub fn split_path_list(path: &str, sep: char) -> (dirs: Vec<String>)
    ensures
        strings_of(dirs@) == spec_split(path@, sep),
{
    let len = path.unicode_len();
    let mut dirs: Vec<String> = Vec::new();
    let mut start: usize = 0;
    let mut i: usize = 0;
    proof {
        assert(path@.subrange(0, len as int) =~= path@);
        assert(strings_of(dirs@) =~= Seq::<Seq<char>>::empty());
    }
    while i < len
        invariant
            start <= i <= len,
            len == path@.len(),
            forall|j: int| start <= j < i ==> path@[j] != sep,
            spec_split(path@, sep) == strings_of(dirs@) + spec_split(
                path@.subrange(start as int, len as int),
                sep,
            ),
        decreases len - i,
    {
        if path.get_char(i) == sep {
            let ghost rem = path@.subrange(start as int, len as int);
            let piece = path.substring_char(start, i).to_owned();
            proof {
                assert forall|j: int| 0 <= j < i - start implies rem[j] != sep by {
                    assert(rem[j] == path@[start + j]);
                }
                assert(rem[i - start] == path@[i as int]);
                lemma_split_head(rem, sep, i - start);
                assert(rem.subrange(0, i - start) =~= path@.subrange(start as int, i as int));
                assert(rem.subrange(i - start + 1, rem.len() as int) =~= path@.subrange(
                    i + 1,
                    len as int,
                ));
            }
            let ghost prev = dirs@;
            dirs.push(piece);
            proof {
                assert(strings_of(dirs@) =~= strings_of(prev).push(piece@));
                assert(strings_of(prev) + spec_split(rem, sep) =~= strings_of(dirs@) + spec_split(
                    path@.subrange(i + 1, len as int),
                    sep,
                ));
            }
            start = i + 1;
        }
        i = i + 1;
    }
    let ghost rem = path@.subrange(start as int, len as int);
    let piece = path.substring_char(start, len).to_owned();
    proof {
        assert forall|j: int| 0 <= j < rem.len() implies rem[j] != sep by {
            assert(rem[j] == path@[start + j]);
        }
        lemma_split_head(rem, sep, rem.len() as int);
    }
    let ghost prev = dirs@;
    dirs.push(piece);
    proof {
        assert(strings_of(dirs@) =~= strings_of(prev).push(piece@));
        assert(strings_of(prev) + spec_split(rem, sep) =~= strings_of(dirs@));
    }
    dirs
}

/// A directory joined with a program name: a single `/` stands between
/// them, unless the directory is empty (then the name stands alone) or
/// already ends in `/`.
pub open spec fn spec_join(dir: Seq<char>, name: Seq<char>) -> Seq<char> {
    if dir.len() == 0 {
        name
    } else if dir[dir.len() - 1] == '/' {
        dir + name
    } else {
        dir + seq!['/'] + name
    }
}

/// Join a directory with a program name.
pub fn join_path(dir: &str, name: &str) -> (r: String)
    ensures
        r@ == spec_join(dir@, name@),
{
    let dlen = dir.unicode_len();
    if dlen == 0 {
        name.to_owned()
    } else if dir.get_char(dlen - 1) == '/' {
        let mut s = dir.to_owned();
        s.append(name);
        s
    } else {
        let mut s = dir.to_owned();
        s.append("/");
        s.append(name);
        proof {
            reveal_strlit("/");
            assert("/"@ =~= seq!['/']);
        }
        s
    }
}

/// The ordered candidate paths for a program: each directory of the path
/// list in order, then the current working directory as the final
/// fallback, each joined with the program name.
pub open spec fn spec_candidates(
    path_var: Seq<char>,
    sep: char,
    cwd: Seq<char>,
    program: Seq<char>,
) -> Seq<Seq<char>> {
    spec_split(path_var, sep).push(cwd).map_values(|d: Seq<char>| spec_join(d, program))
}

/// Build the candidate paths for a program, in search order.
pub fn candidate_paths(path_var: &str, sep: char, cwd: &str, program: &str) -> (cands: Vec<String>)
    ensures
        strings_of(cands@) == spec_candidates(path_var@, sep, cwd@, program@),
{
    let dirs = split_path_list(path_var, sep);
    let mut cands: Vec<String> = Vec::new();
    let mut i: usize = 0;
    proof {
        assert(strings_of(cands@) =~= Seq::<Seq<char>>::empty());
    }
    while i < dirs.len()
        invariant
            i <= dirs.len(),
            strings_of(dirs@) == spec_split(path_var@, sep),
            strings_of(cands@) == strings_of(dirs@).subrange(0, i as int).map_values(
                |d: Seq<char>| spec_join(d, program@),
            ),
        decreases dirs.len() - i,
    {
        let ghost prev = cands@;
        let c = join_path(dirs[i].as_str(), program);
        cands.push(c);
        proof {
            assert(strings_of(dirs@)[i as int] == dirs@[i as int]@);
            assert(strings_of(cands@) =~= strings_of(prev).push(c@));
            assert(strings_of(dirs@).subrange(0, i + 1) =~= strings_of(dirs@).subrange(
                0,
                i as int,
            ).push(strings_of(dirs@)[i as int]));
            assert(strings_of(cands@) =~= strings_of(dirs@).subrange(0, i + 1).map_values(
                |d: Seq<char>| spec_join(d, program@),
            ));
        }
        i = i + 1;
    }
    let ghost prev = cands@;
    let c = join_path(cwd, program);
    cands.push(c);
    proof {
        assert(strings_of(dirs@).subrange(0, dirs@.len() as int) =~= strings_of(dirs@));
        assert(strings_of(cands@) =~= strings_of(prev).push(c@));
        assert(strings_of(cands@) =~= spec_candidates(path_var@, sep, cwd@, program@));
    }
    cands
}

/// The index of the first candidate that exists: `Some(i)` exactly when
/// `i` is the least index whose candidate exists, `None` when none does
/// (and only then may a caller fall back to the bare program name).
pub fn first_existing(exists: &Vec<bool>) -> (r: Option<usize>)
    ensures
        match r {
            Some(i) => i < exists@.len() && exists@[i as int] && (forall|j: int|
                0 <= j < i ==> !exists@[j]),
            None => forall|j: int| 0 <= j < exists@.len() ==> !exists@[j],
        },
{
    let mut i: usize = 0;
    while i < exists.len()
        invariant
            i <= exists@.len(),
            forall|j: int| 0 <= j < i ==> !exists@[j],
        decreases exists@.len() - i,
    {
        if exists[i] {
            return Some(i);
        }
        i = i + 1;
    }
    None
}

} // verus!
