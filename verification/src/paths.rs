//! File names of `/`-separated paths, as `std::path::Path` reads them on Unix:
//! empty and `.` components are skipped, and a final `..` has no file name.
use vstd::prelude::*;
use crate::text::{chars_of, split_by, split_by_chars, string_of, slice_chars, lemma_chars_deep_view};

verus! {

/// The last component that is neither empty nor `.`.
pub open spec fn last_normal(segs: Seq<Seq<char>>) -> Option<Seq<char>>
    decreases segs.len(),
{
    if segs.len() == 0 {
        None
    } else if segs.last().len() == 0 || segs.last() == seq!['.'] {
        last_normal(segs.drop_last())
    } else {
        Some(segs.last())
    }
}

/// `Path::file_name`.
pub open spec fn file_name(p: Seq<char>) -> Option<Seq<char>> {
    match last_normal(split_by(p, seq!['/'])) {
        Some(n) => if n == seq!['.', '.'] {
            None
        } else {
            Some(n)
        },
        None => None,
    }
}

/// Position of the last `.` in `n`.
pub open spec fn last_dot(n: Seq<char>) -> Option<int>
    decreases n.len(),
{
    if n.len() == 0 {
        None
    } else if n.last() == '.' {
        Some(n.len() - 1)
    } else {
        last_dot(n.drop_last())
    }
}

/// The stem of a file name: before its last `.`, unless that dot starts the name.
pub open spec fn stem_of(n: Seq<char>) -> Seq<char> {
    match last_dot(n) {
        Some(i) => if i > 0 {
            n.subrange(0, i)
        } else {
            n
        },
        None => n,
    }
}

/// `Path::file_stem`.
pub open spec fn file_stem(p: Seq<char>) -> Option<Seq<char>> {
    match file_name(p) {
        Some(n) => Some(stem_of(n)),
        None => None,
    }
}

/// `Path::extension`: after the last `.` of the file name, unless that dot starts the name.
pub open spec fn extension(p: Seq<char>) -> Option<Seq<char>> {
    match file_name(p) {
        Some(n) => match last_dot(n) {
            Some(i) => if i > 0 {
                Some(n.subrange(i + 1, n.len() as int))
            } else {
                None
            },
            None => None,
        },
        None => None,
    }
}

proof fn lemma_last_dot(n: Seq<char>)
    ensures
        last_dot(n) matches Some(i) ==> 0 <= i < n.len() && n[i] == '.',
    decreases n.len(),
{
    if n.len() > 0 && n.last() != '.' {
        lemma_last_dot(n.drop_last());
    }
}

fn last_dot_exec(n: &[char]) -> (r: Option<usize>)
    ensures
        r matches Some(i) ==> last_dot(n@) == Some(i as int),
        r is None ==> last_dot(n@) is None,
{
    let mut k: usize = n.len();
    assert(n@.take(k as int) =~= n@);
    while k > 0
        invariant
            k <= n@.len(),
            last_dot(n@) == last_dot(n@.take(k as int)),
        decreases k,
    {
        assert(n@.take(k as int).drop_last() =~= n@.take(k - 1));
        if n[k - 1] == '.' {
            return Some(k - 1);
        }
        k -= 1;
    }
    None
}

fn file_name_chars(p: &[char]) -> (r: Option<Vec<char>>)
    ensures
        match r {
            Some(v) => file_name(p@) == Some(v@),
            None => file_name(p@) is None,
        },
{
    let slash = vec!['/'];
    let segs = split_by_chars(p, &slash);
    let ghost sv = segs.deep_view();
    assert(slash@ =~= seq!['/']);
    let mut k: usize = segs.len();
    assert(sv.take(k as int) =~= sv);
    while k > 0
        invariant
            k <= segs@.len(),
            sv == segs.deep_view(),
            sv == split_by(p@, seq!['/']),
            last_normal(sv) == last_normal(sv.take(k as int)),
        decreases k,
    {
        proof {
            lemma_chars_deep_view(segs@[k - 1]);
            assert(sv.take(k as int).drop_last() =~= sv.take(k - 1));
        }
        let s = &segs[k - 1];
        let is_dot = s.len() == 1 && s[0] == '.';
        proof {
            if s@ == seq!['.'] {
                assert(s@[0] == '.');
            }
            if is_dot {
                assert(s@ =~= seq!['.']);
            }
        }
        if s.len() != 0 && !is_dot {
            let is_parent = s.len() == 2 && s[0] == '.' && s[1] == '.';
            proof {
                if is_parent {
                    assert(s@ =~= seq!['.', '.']);
                }
                if s@ == seq!['.', '.'] {
                    assert(s@[0] == '.' && s@[1] == '.');
                }
            }
            if is_parent {
                return None;
            }
            return Some(slice_chars(s, 0, s.len()));
        }
        k -= 1;
    }
    None
}

/// `Path::new(p).file_name()` as an owned string.
pub fn path_file_name(p: &str) -> (r: Option<String>)
    ensures
        match r {
            Some(s) => file_name(p@) == Some(s@),
            None => file_name(p@) is None,
        },
{
    let pv = chars_of(p);
    match file_name_chars(&pv) {
        Some(v) => Some(string_of(&v)),
        None => None,
    }
}

/// `Path::new(p).file_stem()` as an owned string.
pub fn path_file_stem(p: &str) -> (r: Option<String>)
    ensures
        match r {
            Some(s) => file_stem(p@) == Some(s@),
            None => file_stem(p@) is None,
        },
{
    let pv = chars_of(p);
    match file_name_chars(&pv) {
        Some(n) => {
            proof {
                lemma_last_dot(n@);
            }
            let s = match last_dot_exec(&n) {
                Some(i) => if i > 0 {
                    slice_chars(&n, 0, i)
                } else {
                    n
                },
                None => n,
            };
            Some(string_of(&s))
        },
        None => None,
    }
}

/// `Path::new(p).extension()` as an owned string.
pub fn path_extension(p: &str) -> (r: Option<String>)
    ensures
        match r {
            Some(s) => extension(p@) == Some(s@),
            None => extension(p@) is None,
        },
{
    let pv = chars_of(p);
    match file_name_chars(&pv) {
        Some(n) => match last_dot_exec(&n) {
            Some(i) => {
                proof {
                    lemma_last_dot(n@);
                }
                if i > 0 {
                    Some(string_of(&slice_chars(&n, i + 1, n.len())))
                } else {
                    None
                }
            },
            None => None,
        },
        None => None,
    }
}

} // verus!
