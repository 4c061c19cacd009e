//! Regular-expression matching, provided by the `regex` crate.
use vstd::prelude::*;

use crate::model::{copy_opt, opt_view};

verus! {

/// One match of a regular expression: where it stands in the text, in
/// characters (and where it starts in bytes of UTF-8), and the text of each
/// capture group (group 0 is the whole match; a group that took no part in
/// the match is `None`).
pub struct RegexMatch {
    pub start: usize,
    pub end: usize,
    pub start_byte: usize,
    pub groups: Vec<Option<String>>,
}

/// A match as plain values: start, end, byte start and group texts.
pub type MatchView = (int, int, int, Seq<Option<Seq<char>>>);

/// Every successive non-overlapping match of `pattern` in `text`, left to
/// right.  Nothing when `pattern` does not compile.
pub uninterp spec fn regex_matches(pattern: Seq<char>, text: Seq<char>) -> Seq<MatchView>;

/// The group texts of the matches.
pub open spec fn regex_captures(pattern: Seq<char>, text: Seq<char>) -> Seq<Seq<Option<Seq<char>>>> {
    regex_matches(pattern, text).map_values(|m: MatchView| m.3)
}

pub open spec fn groups_view(g: Seq<Option<String>>) -> Seq<Option<Seq<char>>> {
    g.map_values(|x: Option<String>| opt_view(x))
}

pub open spec fn match_view(m: RegexMatch) -> MatchView {
    (m.start as int, m.end as int, m.start_byte as int, groups_view(m.groups@))
}

pub open spec fn matches_view(v: Seq<RegexMatch>) -> Seq<MatchView> {
    v.map_values(|m: RegexMatch| match_view(m))
}

/// The texts of a list of capture lists.
pub open spec fn captures_view(c: Seq<Vec<Option<String>>>) -> Seq<Seq<Option<Seq<char>>>> {
    c.map_values(|m: Vec<Option<String>>| groups_view(m@))
}

/// `Regex::new(pattern)` followed by `Regex::captures_iter(text)`, with the
/// byte offsets of each whole match given as character positions.  The
/// matches are named; what the contract adds is what the crate documents
/// of every match: group 0 is present and is the text between its start
/// and end.  A pattern that does not compile gives no matches.
#[verifier::external_body]
pub(crate) fn find_matches(pattern: &str, text: &str) -> (r: Vec<RegexMatch>)
    ensures
        matches_view(r@) == regex_matches(pattern@, text@),
        forall|i: int|
            0 <= i < r@.len() ==> {
                &&& (#[trigger] r@[i]).start <= r@[i].end <= text@.len()
                &&& r@[i].groups@.len() >= 1
                &&& opt_view(r@[i].groups@[0]) == Some(
                    text@.subrange(r@[i].start as int, r@[i].end as int),
                )
            },
{
    match regex::Regex::new(pattern) {
        Ok(re) => re.captures_iter(text).map(|caps| {
            let whole = caps.get(0).unwrap();
            RegexMatch {
                start: text[..whole.start()].chars().count(),
                end: text[..whole.end()].chars().count(),
                start_byte: whole.start(),
                groups: caps.iter().map(|g| g.map(|g| g.as_str().to_string())).collect(),
            }
        }).collect(),
        Err(_) => Vec::new(),
    }
}

fn copy_groups(g: &Vec<Option<String>>) -> (r: Vec<Option<String>>)
    ensures
        groups_view(r@) == groups_view(g@),
{
    let mut r: Vec<Option<String>> = Vec::new();
    let mut i: usize = 0;
    while i < g.len()
        invariant
            i <= g@.len(),
            r@.len() == i,
            groups_view(r@) == groups_view(g@.take(i as int)),
        decreases g.len() - i,
    {
        let ghost r0 = r@;
        r.push(copy_opt(&g[i]));
        assert forall|j: int| 0 <= j < i + 1 implies groups_view(r@)[j] == groups_view(
            g@.take(i + 1),
        )[j] by {
            if j < i {
                assert(r@[j] == r0[j]);
                assert(groups_view(r0)[j] == groups_view(g@.take(i as int))[j]);
            }
        }
        assert(groups_view(r@) =~= groups_view(g@.take(i + 1)));
        i = i + 1;
    }
    assert(g@.take(g@.len() as int) =~= g@);
    r
}

/// The capture groups of every match of `pattern` in `text`.
pub fn captures_all(pattern: &str, text: &str) -> (r: Vec<Vec<Option<String>>>)
    ensures
        captures_view(r@) == regex_captures(pattern@, text@),
{
    let ms = find_matches(pattern, text);
    let ghost mv = matches_view(ms@);
    let mut r: Vec<Vec<Option<String>>> = Vec::new();
    let mut i: usize = 0;
    while i < ms.len()
        invariant
            i <= ms@.len(),
            r@.len() == i,
            mv == matches_view(ms@),
            mv == regex_matches(pattern@, text@),
            captures_view(r@) == mv.take(i as int).map_values(
                |m: MatchView| m.3,
            ),
        decreases ms.len() - i,
    {
        let ghost r0 = r@;
        r.push(copy_groups(&ms[i].groups));
        assert(mv[i as int] == match_view(ms@[i as int]));
        assert forall|j: int| 0 <= j < i + 1 implies captures_view(r@)[j] == mv.take(i + 1).map_values(
            |m: MatchView| m.3,
        )[j] by {
            if j < i {
                assert(r@[j] == r0[j]);
                assert(captures_view(r0)[j] == mv.take(i as int).map_values(
                    |m: MatchView| m.3,
                )[j]);
            }
        }
        assert(captures_view(r@) =~= mv.take(i + 1).map_values(
            |m: MatchView| m.3,
        ));
        i = i + 1;
    }
    assert(mv.take(ms@.len() as int) =~= mv);
    r
}

/// Group `g` of a capture list, when it took part in the match.
pub open spec fn group(caps: Seq<Option<Seq<char>>>, g: int) -> Option<Seq<char>> {
    if 0 <= g < caps.len() {
        caps[g]
    } else {
        None
    }
}

pub fn group_exec(caps: &Vec<Option<String>>, g: usize) -> (r: Option<String>)
    ensures
        opt_view(r) == group(groups_view(caps@), g as int),
{
    if g < caps.len() {
        copy_opt(&caps[g])
    } else {
        None
    }
}

/// The groups of the first match of `pattern` in `text`, as
/// `Regex::captures` gives them.
pub open spec fn first_captures(pattern: Seq<char>, text: Seq<char>) -> Option<Seq<Option<Seq<char>>>> {
    let c = regex_captures(pattern, text);
    if c.len() > 0 {
        Some(c[0])
    } else {
        None
    }
}

pub fn first_captures_exec(pattern: &str, text: &str) -> (r: Option<Vec<Option<String>>>)
    ensures
        r matches Some(g) ==> first_captures(pattern@, text@) == Some(groups_view(g@)),
        r is None ==> first_captures(pattern@, text@) is None,
{
    let mut all = captures_all(pattern, text);
    if all.len() > 0 {
        let ghost v = captures_view(all@);
        let g = all.swap_remove(0);
        assert(groups_view(g@) == v[0]);
        Some(g)
    } else {
        None
    }
}

} // verus!
