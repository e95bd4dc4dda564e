//! Regular expressions, compiled and run by the `regex` crate.
use vstd::prelude::*;

verus! {

#[verifier::external_type_specification]
#[verifier::external_body]
pub struct ExRegex(regex::Regex);

/// What `regex::Regex::new` makes of a pattern: `Ok` where it compiles,
/// else the text of its error. A function of the pattern alone.
pub uninterp spec fn regex_compile(p: Seq<char>) -> Result<(), Seq<char>>;

/// What `Regex::is_match` answers for the compiled pattern `p` on text `t`.
pub uninterp spec fn regex_is_match(p: Seq<char>, t: Seq<char>) -> bool;

/// The texts of the matches `Regex::find_iter` yields for pattern `p` on `t`, in order.
pub uninterp spec fn regex_find_all(p: Seq<char>, t: Seq<char>) -> Seq<Seq<char>>;

/// The text of the first capture group of the first match (`Regex::captures`,
/// then `get(1)`), if any.
pub uninterp spec fn regex_capture1(p: Seq<char>, t: Seq<char>) -> Option<Seq<char>>;

/// A compiled regular expression, with the pattern it was compiled from.
pub struct CompiledRegex {
    re: regex::Regex,
    source: String,
}

impl CompiledRegex {
    /// The pattern this was compiled from.
    pub closed spec fn source(&self) -> Seq<char> {
        self.source@
    }
}

/// Compiles a pattern with `regex::Regex::new`; an error becomes its text.
#[verifier::external_body]
pub(crate) fn compile(p: &str) -> (r: Result<CompiledRegex, String>)
    ensures
        match r {
            Ok(c) => regex_compile(p@) is Ok && c.source() == p@,
            Err(e) => regex_compile(p@) == Err::<(), Seq<char>>(e@),
        },
{
    match regex::Regex::new(p) {
        Ok(re) => Ok(CompiledRegex { re, source: p.to_string() }),
        Err(e) => Err(e.to_string()),
    }
}

/// `Regex::is_match`.
#[verifier::external_body]
pub(crate) fn is_match(c: &CompiledRegex, t: &str) -> (b: bool)
    ensures
        b == regex_is_match(c.source(), t@),
{
    c.re.is_match(t)
}

/// The texts of `Regex::find_iter`'s matches.
#[verifier::external_body]
pub(crate) fn find_all(c: &CompiledRegex, t: &str) -> (r: Vec<String>)
    ensures
        r.deep_view() == regex_find_all(c.source(), t@),
{
    c.re.find_iter(t).map(|m| m.as_str().to_string()).collect()
}

/// The first capture group of `Regex::captures`.
#[verifier::external_body]
pub(crate) fn capture1(c: &CompiledRegex, t: &str) -> (r: Option<String>)
    ensures
        match r {
            Some(s) => regex_capture1(c.source(), t@) == Some(s@),
            None => regex_capture1(c.source(), t@) is None,
        },
{
    c.re.captures(t).and_then(|cap| cap.get(1)).map(|m| m.as_str().to_string())
}

/// The capture groups of every match of a pattern (`Regex::captures_iter`,
/// each match's groups by index, `None` for a group that took no part).
pub uninterp spec fn regex_groups_all(p: Seq<char>, t: Seq<char>) -> Seq<Seq<Option<Seq<char>>>>;

/// The groups of a string option, as a character-sequence option.
pub open spec fn group_view(x: Option<String>) -> Option<Seq<char>> {
    match x {
        Some(s) => Some(s@),
        None => None,
    }
}

/// `Regex::captures_iter`, each match's groups as owned strings.
#[verifier::external_body]
pub(crate) fn captures_all(c: &CompiledRegex, t: &str) -> (r: Vec<Vec<Option<String>>>)
    ensures
        r@.map_values(|g: Vec<Option<String>>| g@.map_values(|x: Option<String>| group_view(x)))
            == regex_groups_all(c.source(), t@),
{
    c.re.captures_iter(t).map(|cap| cap.iter().map(|m| m.map(|x| x.as_str().to_string())).collect()).collect()
}

/// Whether pattern `p` matches `t`, or the compile error.
pub open spec fn eval_re(p: Seq<char>, t: Seq<char>) -> Result<bool, Seq<char>> {
    match regex_compile(p) {
        Ok(_) => Ok(regex_is_match(p, t)),
        Err(e) => Err(e),
    }
}

/// Compiles `p` and tests it on `t` (`Regex::new(p)?.is_match(t)`).
pub fn regex_test(p: &str, t: &str) -> (r: Result<bool, String>)
    ensures
        match r {
            Ok(b) => eval_re(p@, t@) == Ok::<bool, Seq<char>>(b),
            Err(e) => eval_re(p@, t@) == Err::<bool, Seq<char>>(e@),
        },
{
    match compile(p) {
        Ok(c) => Ok(is_match(&c, t)),
        Err(e) => Err(e),
    }
}

/// Whether one of the patterns `ps` matches `t`, trying them in order and
/// stopping at the first match or the first compile error.
pub open spec fn any_match(ps: Seq<Seq<char>>, t: Seq<char>) -> Result<bool, Seq<char>>
    decreases ps.len(),
{
    if ps.len() == 0 {
        Ok(false)
    } else {
        match eval_re(ps[0], t) {
            Err(e) => Err(e),
            Ok(true) => Ok(true),
            Ok(false) => any_match(ps.drop_first(), t),
        }
    }
}

pub fn any_matches(ps: &Vec<String>, t: &str) -> (r: Result<bool, String>)
    ensures
        match r {
            Ok(b) => any_match(ps.deep_view(), t@) == Ok::<bool, Seq<char>>(b),
            Err(e) => any_match(ps.deep_view(), t@) == Err::<bool, Seq<char>>(e@),
        },
{
    let ghost pv = ps.deep_view();
    let mut i: usize = 0;
    assert(pv.skip(0) =~= pv);
    while i < ps.len()
        invariant
            pv == ps.deep_view(),
            i <= pv.len(),
            any_match(pv, t@) == any_match(pv.skip(i as int), t@),
        decreases ps.len() - i,
    {
        assert(pv.skip(i as int)[0] == ps@[i as int]@);
        assert(pv.skip(i as int).drop_first() =~= pv.skip(i + 1));
        match regex_test(ps[i].as_str(), t) {
            Err(e) => {
                return Err(e);
            },
            Ok(true) => {
                return Ok(true);
            },
            Ok(false) => {},
        }
        i += 1;
    }
    assert(pv.skip(i as int) =~= Seq::<Seq<char>>::empty());
    Ok(false)
}

} // verus!
