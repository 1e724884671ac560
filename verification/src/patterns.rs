//! The four regular expressions that read a header, behind wrappers of the
//! `regex` crate. What a match yields is named, not spelled out: each name below
//! is the result of running its pattern with the crate's leftmost-first
//! semantics on the given text, and depends on that text alone.
use regex::Regex;
use vstd::prelude::*;

verus! {

/// For the pattern `class.*\s+(\w+)\s*\{`: one entry per successive
/// non-overlapping match in `content`, holding the text of group 1 (the class
/// name) and the text of `content` after the end of the match.
pub uninterp spec fn class_heads(content: Seq<char>) -> Seq<(Seq<char>, Seq<char>)>;

/// For the pattern `^\s*//(.*)\s*$`: group 1 of its match in `line`, or `None`
/// where the line does not match.
pub uninterp spec fn comment_match(line: Seq<char>) -> Option<Seq<char>>;

/// For the pattern `^\s*(.*)\s+([\w*]+)\((.*)\)(.*);\s*$`: groups 1 to 4 of its
/// match in `line` (return type, function name, parameter list, what follows
/// the closing bracket), or `None` where the line does not match.
pub uninterp spec fn member_match(line: Seq<char>) -> Option<
    (Seq<char>, Seq<char>, Seq<char>, Seq<char>),
>;

/// For the pattern `^(.*)\s+([\w*]+)\s*([\[\]]*)$`: groups 1 to 3 of its match
/// in `param` (type, name, array brackets), or `None` where it does not match.
pub uninterp spec fn param_match(param: Seq<char>) -> Option<(Seq<char>, Seq<char>, Seq<char>)>;

/// Calls `Regex::captures_iter` with the class pattern on `content`, and for
/// each match copies group 1 and the rest of `content` after the match. The
/// contract claims only that the result is, entry by entry, `class_heads`.
#[verifier::external_body]
pub(crate) fn find_class_heads(content: &str) -> (r: Vec<(String, String)>)
    ensures
        r@.len() == class_heads(content@).len(),
        forall|i: int|
            0 <= i < r@.len() ==> r@[i].0@ == class_heads(content@)[i].0 && r@[i].1@
                == class_heads(content@)[i].1,
{
    let re = Regex::new(r"class.*\s+(\w+)\s*\{").unwrap();
    re.captures_iter(content).map(
        |c| (c[1].to_string(), content[c.get(0).unwrap().end()..].to_string()),
    ).collect()
}

/// Calls `Regex::captures` with the comment pattern on `line` and copies
/// group 1. The contract claims only that the result is `comment_match`.
#[verifier::external_body]
pub(crate) fn match_comment(line: &str) -> (r: Option<String>)
    ensures
        r is Some <==> comment_match(line@) is Some,
        r matches Some(g) ==> g@ == comment_match(line@).unwrap(),
{
    let re = Regex::new(r"^\s*//(.*)\s*$").unwrap();
    re.captures(line).map(|c| c[1].to_string())
}

/// Calls `Regex::captures` with the member function pattern on `line` and
/// copies groups 1 to 4. The contract claims only that the result is
/// `member_match`.
#[verifier::external_body]
pub(crate) fn match_member(line: &str) -> (r: Option<(String, String, String, String)>)
    ensures
        r is Some <==> member_match(line@) is Some,
        r matches Some(g) ==> (g.0@, g.1@, g.2@, g.3@) == member_match(line@).unwrap(),
{
    let re = Regex::new(r"^\s*(.*)\s+([\w*]+)\((.*)\)(.*);\s*$").unwrap();
    re.captures(line).map(
        |c| (c[1].to_string(), c[2].to_string(), c[3].to_string(), c[4].to_string()),
    )
}

/// Calls `Regex::captures` with the parameter pattern on `param` and copies
/// groups 1 to 3. The contract claims only that the result is `param_match`.
#[verifier::external_body]
pub(crate) fn match_param(param: &str) -> (r: Option<(String, String, String)>)
    ensures
        r is Some <==> param_match(param@) is Some,
        r matches Some(g) ==> (g.0@, g.1@, g.2@) == param_match(param@).unwrap(),
{
    let re = Regex::new(r"^(.*)\s+([\w*]+)\s*([\[\]]*)$").unwrap();
    re.captures(param).map(|c| (c[1].to_string(), c[2].to_string(), c[3].to_string()))
}

} // verus!
