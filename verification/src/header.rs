//! Reading the classes of a header: after each `class Name {`, the lines up to
//! the one that closes the class, with the member functions they declare and
//! the `///` comments above each.
use vstd::prelude::*;

use crate::cls::{ClsAst, ClsAstView, ClsF, ClsFView};
use crate::patterns::{
    class_heads, comment_match, find_class_heads, match_comment, match_member, member_match,
};
use crate::table::ClassTable;
use crate::text::{
    append_stars, chars_of, char_vec_views, copy_range, count_char, count_of, has_prefix, leading,
    leading_count, repeat_char, split, split_chars, string_of, string_views, trim, trim_chars,
};

verus! {

/// Why a header cannot be read.
#[derive(Debug, Clone, Copy, PartialEq, Eq, Structural)]
pub enum HeaderError {
    /// A `//` comment line inside a class that is not a `///` comment.
    CommentNotDoc,
    /// A member function whose text after the parameter list holds a different
    /// number of `{` than of `}`.
    UnbalancedBraces,
}

/// The member function that a line matched by the member pattern declares,
/// with the comments gathered above it: the `*`s that open the function name
/// move to the end of the return type.
pub open spec fn declared_func(
    m: (Seq<char>, Seq<char>, Seq<char>, Seq<char>),
    comments: Seq<Seq<char>>,
) -> ClsFView {
    let k = leading(m.1, '*');
    ClsFView {
        rtn: m.0 + repeat_char('*', k),
        name: m.1.skip(k as int),
        args: m.2,
        decl: m.3,
        comments,
    }
}

/// The text of a `//` comment whose part after `//` is `g`: what follows a
/// third `/`; `None` where `g` does not start with `/`.
pub open spec fn doc_text(g: Seq<char>) -> Option<Seq<char>> {
    if g.len() > 0 && g[0] == '/' {
        Some(g.drop_first())
    } else {
        None
    }
}

/// What a line matched by the member pattern (groups `m`) adds to the class,
/// with the comments gathered above it: an error where the text after the
/// parameter list holds unequal numbers of `{` and `}`; nothing for a function
/// whose return type starts with `static`; the function otherwise.
pub open spec fn member_entry(
    m: (Seq<char>, Seq<char>, Seq<char>, Seq<char>),
    comments: Seq<Seq<char>>,
) -> Result<Option<ClsFView>, HeaderError> {
    if count_of(m.3, '{') != count_of(m.3, '}') {
        Err(HeaderError::UnbalancedBraces)
    } else {
        let f = declared_func(m, comments);
        if "static"@.is_prefix_of(trim(f.rtn)) {
            Ok(None)
        } else {
            Ok(Some(f))
        }
    }
}

/// Whether a line that is neither a comment nor a member function ends the
/// class: it holds one `}` and no `{`.
pub open spec fn closes_class(line: Seq<char>) -> bool {
    count_of(line, '{') == 0 && count_of(line, '}') == 1
}

/// Reading the remaining `lines` of a class body, with the comments gathered so
/// far and the member functions read so far. A `///` comment line adds its
/// text; a member function line adds what `member_entry` gives and clears the
/// comments; a line that closes the class ends it; any other line is passed
/// over.
pub open spec fn scan_lines(
    lines: Seq<Seq<char>>,
    comments: Seq<Seq<char>>,
    funcs: Seq<ClsFView>,
) -> Result<Seq<ClsFView>, HeaderError>
    decreases lines.len(),
{
    if lines.len() == 0 {
        Ok(funcs)
    } else {
        let line = lines[0];
        let rest = lines.drop_first();
        match comment_match(line) {
            Some(g) => match doc_text(g) {
                Some(t) => scan_lines(rest, comments.push(t), funcs),
                None => Err(HeaderError::CommentNotDoc),
            },
            None => match member_match(line) {
                Some(m) => match member_entry(m, comments) {
                    Err(e) => Err(e),
                    Ok(Some(f)) => scan_lines(rest, Seq::<Seq<char>>::empty(), funcs.push(f)),
                    Ok(None) => scan_lines(rest, Seq::<Seq<char>>::empty(), funcs),
                },
                None => if closes_class(line) {
                    Ok(funcs)
                } else {
                    scan_lines(rest, comments, funcs)
                },
            },
        }
    }
}

/// The class `name` whose body starts with `body` (the header text after
/// `class name {`), read line by line; no base class is read.
pub open spec fn class_of(name: Seq<char>, body: Seq<char>) -> Result<ClsAstView, HeaderError> {
    match scan_lines(split(body, '\n'), Seq::<Seq<char>>::empty(), Seq::<ClsFView>::empty()) {
        Ok(funcs) => Ok(ClsAstView { name, parent_count: 0, funcs }),
        Err(e) => Err(e),
    }
}

/// The classes of the heads found in a header, read in order, each under its
/// name, a later class replacing an earlier one of the same name; the first
/// class that cannot be read gives the error.
pub open spec fn classes_of(heads: Seq<(Seq<char>, Seq<char>)>) -> Result<
    Map<Seq<char>, ClsAstView>,
    HeaderError,
>
    decreases heads.len(),
{
    if heads.len() == 0 {
        Ok(Map::empty())
    } else {
        match classes_of(heads.drop_last()) {
            Err(e) => Err(e),
            Ok(m) => match class_of(heads.last().0, heads.last().1) {
                Err(e) => Err(e),
                Ok(c) => Ok(m.insert(heads.last().0, c)),
            },
        }
    }
}

/// The classes of the header `content`.
pub open spec fn header_classes(content: Seq<char>) -> Result<
    Map<Seq<char>, ClsAstView>,
    HeaderError,
> {
    classes_of(class_heads(content))
}

/// The text of a `//` comment whose part after `//` is `g`: what follows a
/// third `/`; an error where there is none.
pub fn doc_comment(g: &str) -> (r: Result<String, HeaderError>)
    ensures
        r matches Ok(t) ==> doc_text(g@) == Some(t@),
        r is Err ==> doc_text(g@) is None && r == Err::<String, HeaderError>(
            HeaderError::CommentNotDoc,
        ),
{
    let gc = chars_of(g);
    if gc.len() > 0 && gc[0] == '/' {
        let text = string_of(&copy_range(&gc, 1, gc.len()));
        assert(text@ =~= g@.drop_first());
        Ok(text)
    } else {
        Err(HeaderError::CommentNotDoc)
    }
}

/// The member function declared by a line whose return type, name, parameter
/// list and trailing text the member pattern found, with the comments above it:
/// `None` for a `static` function, an error for unbalanced braces after the
/// parameter list.
pub fn member_from_match(m: (String, String, String, String), comments: &Vec<String>) -> (r:
    Result<Option<ClsF>, HeaderError>)
    ensures
        r matches Ok(Some(f)) ==> member_entry((m.0@, m.1@, m.2@, m.3@), string_views(comments@))
            == Ok::<Option<ClsFView>, HeaderError>(Some(f@)),
        r matches Ok(None) ==> member_entry((m.0@, m.1@, m.2@, m.3@), string_views(comments@))
            == Ok::<Option<ClsFView>, HeaderError>(None),
        r matches Err(e) ==> member_entry((m.0@, m.1@, m.2@, m.3@), string_views(comments@))
            == Err::<Option<ClsFView>, HeaderError>(e),
{
    let ghost mv = (m.0@, m.1@, m.2@, m.3@);
    let (rtn0, fname0, args, decl) = m;
    let dc = chars_of(decl.as_str());
    if count_char(&dc, '{') != count_char(&dc, '}') {
        return Err(HeaderError::UnbalancedBraces);
    }
    let fc = chars_of(fname0.as_str());
    let k = leading_count(&fc, '*');
    let mut rtn = rtn0;
    append_stars(&mut rtn, k);
    let fname = string_of(&copy_range(&fc, k, fc.len()));
    assert(fname@ =~= fc@.skip(k as int));
    let rc = trim_chars(&chars_of(rtn.as_str()));
    let ghost f = declared_func(mv, string_views(comments@));
    if has_prefix(&rc, "static") {
        return Ok(None);
    }
    let mut refs: Vec<&str> = Vec::new();
    let mut j: usize = 0;
    while j < comments.len()
        invariant
            j <= comments@.len(),
            refs@.map_values(|s: &str| s@) =~= string_views(comments@).take(j as int),
        decreases comments@.len() - j,
    {
        refs.push(comments[j].as_str());
        assert(string_views(comments@).take(j + 1) =~= string_views(comments@).take(
            j as int,
        ).push(comments@[j as int]@));
        j = j + 1;
    }
    assert(string_views(comments@).take(comments@.len() as int) =~= string_views(comments@));
    let func = ClsF::new(rtn, fname, args, decl, refs);
    assert(func@ == f);
    Ok(Some(func))
}

/// Reads the class `name` from `body`, the header text after its opening brace.
fn scan_class(name: &str, body: &str) -> (r: Result<ClsAst, HeaderError>)
    ensures
        r matches Ok(c) ==> class_of(name@, body@) == Ok::<ClsAstView, HeaderError>(c@),
        r matches Err(e) ==> class_of(name@, body@) == Err::<ClsAstView, HeaderError>(e),
{
    let mut ast = ClsAst::new(name);
    let chars = chars_of(body);
    let lines = split_chars(&chars, '\n');
    let ghost ls = char_vec_views(lines@);
    let ghost whole = scan_lines(ls, Seq::<Seq<char>>::empty(), Seq::<ClsFView>::empty());
    let mut comments: Vec<String> = Vec::new();
    let n = lines.len();
    let mut i: usize = 0;
    assert(ls.skip(0) =~= ls);
    assert(string_views(comments@) =~= Seq::<Seq<char>>::empty());
    while i < n
        invariant
            i <= n,
            n == lines@.len(),
            ls == char_vec_views(lines@),
            ls == split(body@, '\n'),
            ast@.name == name@,
            ast@.parent_count == 0,
            whole == scan_lines(ls, Seq::<Seq<char>>::empty(), Seq::<ClsFView>::empty()),
            whole == scan_lines(ls.skip(i as int), string_views(comments@), ast@.funcs),
        decreases n - i,
    {
        let ghost rest = ls.skip(i as int);
        assert(rest[0] == lines@[i as int]@);
        assert(rest.drop_first() =~= ls.skip(i + 1));
        let line = string_of(&lines[i]);
        match match_comment(line.as_str()) {
            Some(g) => {
                let text = match doc_comment(g.as_str()) {
                    Ok(t) => t,
                    Err(e) => {
                        return Err(e);
                    },
                };
                let ghost before = string_views(comments@);
                comments.push(text);
                assert(string_views(comments@) =~= before.push(text@));
            },
            None => match match_member(line.as_str()) {
                Some(m) => {
                    match member_from_match(m, &comments) {
                        Err(e) => {
                            return Err(e);
                        },
                        Ok(Some(func)) => {
                            let ghost before = ast@.funcs;
                            ast.funcs.push(func);
                            assert(ast@.funcs =~= before.push(func@));
                        },
                        Ok(None) => {},
                    }
                    comments = Vec::new();
                    assert(string_views(comments@) =~= Seq::<Seq<char>>::empty());
                },
                None => {
                    if count_char(&lines[i], '{') == 0 && count_char(&lines[i], '}') == 1 {
                        return Ok(ast);
                    }
                },
            },
        }
        i = i + 1;
    }
    Ok(ast)
}

/// The contents of each class head (name, text after the opening brace).
pub open spec fn head_views(heads: Seq<(String, String)>) -> Seq<(Seq<char>, Seq<char>)> {
    heads.map_values(|h: (String, String)| (h.0@, h.1@))
}

/// Reads the classes whose heads (name, text after the opening brace) the class
/// pattern found, keyed by name, a later class replacing an earlier one of the
/// same name.
pub fn read_classes(heads: &Vec<(String, String)>) -> (r: Result<ClassTable, HeaderError>)
    ensures
        r matches Ok(t) ==> t.wf() && classes_of(head_views(heads@)) == Ok::<
            Map<Seq<char>, ClsAstView>,
            HeaderError,
        >(t@),
        r matches Err(e) ==> classes_of(head_views(heads@)) == Err::<
            Map<Seq<char>, ClsAstView>,
            HeaderError,
        >(e),
{
    let ghost hs = head_views(heads@);
    let mut table = ClassTable::new();
    let n = heads.len();
    let mut i: usize = 0;
    assert(hs.take(0) =~= Seq::<(Seq<char>, Seq<char>)>::empty());
    while i < n
        invariant
            i <= n,
            n == heads@.len(),
            hs == head_views(heads@),
            table.wf(),
            classes_of(hs.take(i as int)) == Ok::<Map<Seq<char>, ClsAstView>, HeaderError>(
                table@,
            ),
        decreases n - i,
    {
        assert(hs.take(i + 1).drop_last() =~= hs.take(i as int));
        assert(hs.take(i + 1).last() == hs[i as int]);
        let (name, body) = &heads[i];
        match scan_class(name.as_str(), body.as_str()) {
            Ok(c) => {
                table.insert(c);
            },
            Err(e) => {
                proof {
                    lemma_classes_fail_extends(hs, i + 1);
                }
                return Err(e);
            },
        }
        i = i + 1;
    }
    assert(hs.take(n as int) =~= hs);
    Ok(table)
}

/// Reads every class of the header `content`: the name of each match of the
/// class pattern, with the member functions declared on the lines after it,
/// keyed by name (a later class replaces an earlier one of the same name).
pub fn walk_hpp(content: &str) -> (r: Result<ClassTable, HeaderError>)
    ensures
        r matches Ok(t) ==> t.wf() && header_classes(content@) == Ok::<
            Map<Seq<char>, ClsAstView>,
            HeaderError,
        >(t@),
        r matches Err(e) ==> header_classes(content@) == Err::<
            Map<Seq<char>, ClsAstView>,
            HeaderError,
        >(e),
{
    let heads = find_class_heads(content);
    assert(head_views(heads@) =~= class_heads(content@));
    read_classes(&heads)
}

/// Once a class of the first heads cannot be read, the whole header cannot,
/// with the same error.
proof fn lemma_classes_fail_extends(heads: Seq<(Seq<char>, Seq<char>)>, n: int)
    requires
        0 <= n <= heads.len(),
        classes_of(heads.take(n)) is Err,
    ensures
        classes_of(heads) == classes_of(heads.take(n)),
    decreases heads.len() - n,
{
    if n < heads.len() {
        assert(heads.take(n + 1).drop_last() =~= heads.take(n));
        lemma_classes_fail_extends(heads, n + 1);
    } else {
        assert(heads.take(n) =~= heads);
    }
}

/// Whether no function of `funcs` has a return type that starts with `static`.
pub open spec fn none_static(funcs: Seq<ClsFView>) -> bool {
    forall|i: int| 0 <= i < funcs.len() ==> !"static"@.is_prefix_of(trim(#[trigger] funcs[i].rtn))
}

proof fn lemma_scan_keeps_none_static(
    lines: Seq<Seq<char>>,
    comments: Seq<Seq<char>>,
    funcs: Seq<ClsFView>,
)
    requires
        none_static(funcs),
    ensures
        scan_lines(lines, comments, funcs) matches Ok(r) ==> none_static(r),
    decreases lines.len(),
{
    if lines.len() > 0 {
        let line = lines[0];
        let rest = lines.drop_first();
        match comment_match(line) {
            Some(g) => {
                if let Some(t) = doc_text(g) {
                    lemma_scan_keeps_none_static(rest, comments.push(t), funcs);
                }
            },
            None => match member_match(line) {
                Some(m) => {
                    lemma_scan_keeps_none_static(rest, Seq::<Seq<char>>::empty(), funcs);
                    if let Ok(Some(f)) = member_entry(m, comments) {
                        assert(none_static(funcs.push(f)));
                        lemma_scan_keeps_none_static(rest, Seq::<Seq<char>>::empty(), funcs.push(f));
                    }
                },
                None => {
                    lemma_scan_keeps_none_static(rest, comments, funcs);
                },
            },
        }
    }
}

/// Reading the classes of a header keeps one entry per class name that the
/// class pattern finds, and nothing else; each class stands under its own
/// name and lists no base class; and no member function kept has a `static`
/// return type.
pub proof fn lemma_header_classes(content: Seq<char>)
    ensures
        header_classes(content) matches Ok(m) ==> {
            &&& forall|k: Seq<char>|
                m.contains_key(k) <==> exists|i: int|
                    0 <= i < class_heads(content).len() && #[trigger] class_heads(content)[i].0
                        == k
            &&& forall|k: Seq<char>| #[trigger]
                m.contains_key(k) ==> m[k].name == k && m[k].parent_count == 0 && none_static(
                    m[k].funcs,
                )
        },
{
    lemma_classes_of(class_heads(content));
}

proof fn lemma_classes_of(heads: Seq<(Seq<char>, Seq<char>)>)
    ensures
        classes_of(heads) matches Ok(m) ==> {
            &&& forall|k: Seq<char>|
                m.contains_key(k) <==> exists|i: int| 0 <= i < heads.len() && #[trigger] heads[i].0 == k
            &&& forall|k: Seq<char>| #[trigger]
                m.contains_key(k) ==> m[k].name == k && m[k].parent_count == 0 && none_static(
                    m[k].funcs,
                )
        },
    decreases heads.len(),
{
    if heads.len() > 0 {
        let init = heads.drop_last();
        lemma_classes_of(init);
        if let Ok(m) = classes_of(heads) {
            let m0 = classes_of(init)->Ok_0;
            let h = heads.last();
            let c = class_of(h.0, h.1)->Ok_0;
            assert(m == m0.insert(h.0, c));
            lemma_scan_keeps_none_static(
                split(h.1, '\n'),
                Seq::<Seq<char>>::empty(),
                Seq::<ClsFView>::empty(),
            );
            assert forall|k: Seq<char>|
                m.contains_key(k) <==> exists|i: int| 0 <= i < heads.len() && #[trigger] heads[i].0 == k by {
                if m.contains_key(k) && k != h.0 {
                    let i = choose|i: int| 0 <= i < init.len() && #[trigger] init[i].0 == k;
                    assert(heads[i] == init[i]);
                }
                if k == h.0 {
                    assert(heads[heads.len() - 1].0 == k);
                }
                if exists|i: int| 0 <= i < heads.len() && #[trigger] heads[i].0 == k {
                    let i = choose|i: int| 0 <= i < heads.len() && #[trigger] heads[i].0 == k;
                    if i < heads.len() - 1 {
                        assert(init[i] == heads[i]);
                    }
                }
            }
        }
    }
}

/// A line that is neither a comment, nor a member function, nor the close of
/// the class (a blank line, say) changes nothing, wherever it is inserted.
pub proof fn lemma_scan_passes_over(
    lines: Seq<Seq<char>>,
    i: int,
    line: Seq<char>,
    comments: Seq<Seq<char>>,
    funcs: Seq<ClsFView>,
)
    requires
        0 <= i <= lines.len(),
        comment_match(line) is None,
        member_match(line) is None,
        !closes_class(line),
    ensures
        scan_lines(lines.insert(i, line), comments, funcs) == scan_lines(lines, comments, funcs),
    decreases lines.len(),
{
    let ins = lines.insert(i, line);
    if i == 0 {
        assert(ins[0] == line);
        assert(ins.drop_first() =~= lines);
    } else {
        let l0 = lines[0];
        let rest = lines.drop_first();
        assert(ins[0] == l0);
        assert(ins.drop_first() =~= rest.insert(i - 1, line));
        match comment_match(l0) {
            Some(g) => {
                if let Some(t) = doc_text(g) {
                    lemma_scan_passes_over(rest, i - 1, line, comments.push(t), funcs);
                }
            },
            None => match member_match(l0) {
                Some(m) => {
                    lemma_scan_passes_over(rest, i - 1, line, Seq::<Seq<char>>::empty(), funcs);
                    if let Ok(Some(f)) = member_entry(m, comments) {
                        lemma_scan_passes_over(
                            rest,
                            i - 1,
                            line,
                            Seq::<Seq<char>>::empty(),
                            funcs.push(f),
                        );
                    }
                },
                None => {
                    lemma_scan_passes_over(rest, i - 1, line, comments, funcs);
                },
            },
        }
    }
}

/// Reading never drops a function already read: what the rest of a class body
/// gives starts with the functions read before it.
pub proof fn lemma_scan_keeps_functions(
    lines: Seq<Seq<char>>,
    comments: Seq<Seq<char>>,
    funcs: Seq<ClsFView>,
)
    ensures
        scan_lines(lines, comments, funcs) matches Ok(r) ==> funcs.is_prefix_of(r),
    decreases lines.len(),
{
    if lines.len() > 0 {
        let l0 = lines[0];
        let rest = lines.drop_first();
        match comment_match(l0) {
            Some(g) => {
                if let Some(t) = doc_text(g) {
                    lemma_scan_keeps_functions(rest, comments.push(t), funcs);
                }
            },
            None => match member_match(l0) {
                Some(m) => {
                    lemma_scan_keeps_functions(rest, Seq::<Seq<char>>::empty(), funcs);
                    if let Ok(Some(f)) = member_entry(m, comments) {
                        lemma_scan_keeps_functions(rest, Seq::<Seq<char>>::empty(), funcs.push(f));
                        if let Ok(r) = scan_lines(lines, comments, funcs) {
                            assert(funcs =~= funcs.push(f).subrange(0, funcs.len() as int));
                        }
                    }
                },
                None => {
                    lemma_scan_keeps_functions(rest, comments, funcs);
                },
            },
        }
    }
}

/// A line that declares a function that is not `static` puts that function,
/// with the comments gathered above it, right after the functions read before
/// it, in whatever the class body gives.
pub proof fn lemma_scan_keeps_declared(
    lines: Seq<Seq<char>>,
    comments: Seq<Seq<char>>,
    funcs: Seq<ClsFView>,
    f: ClsFView,
)
    requires
        lines.len() > 0,
        comment_match(lines[0]) is None,
        member_match(lines[0]) is Some,
        member_entry(member_match(lines[0])->Some_0, comments) == Ok::<
            Option<ClsFView>,
            HeaderError,
        >(Some(f)),
    ensures
        scan_lines(lines, comments, funcs) matches Ok(r) ==> funcs.push(f).is_prefix_of(r),
{
    lemma_scan_keeps_functions(lines.drop_first(), Seq::<Seq<char>>::empty(), funcs.push(f));
}

} // verus!
