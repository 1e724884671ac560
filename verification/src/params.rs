//! Reading a C++ parameter list into the declaration and the name of each
//! parameter.
use vstd::prelude::*;

use crate::patterns::{match_param, param_match};
use crate::text::{
    append_stars, chars_of, char_vec_views, copy_range, first_index, first_index_of, leading, leading_count,
    repeat_char, split, split_chars, string_of, string_views, trim, trim_chars,
};

verus! {

/// The text of one comma-separated parameter as the generator reads it: trimmed,
/// and, where an `=` stands after its first character, cut to start at that `=`.
pub open spec fn param_source(piece: Seq<char>) -> Seq<char> {
    let t = trim(piece);
    let i = first_index(t, '=');
    if 0 < i < t.len() {
        t.skip(i as int)
    } else {
        t
    }
}

/// The declaration and the name of a parameter from what the parameter pattern
/// found in it (type, name, brackets): the `*`s that open the name move to the
/// end of the type, and the declaration is `type name brackets` with one space.
pub open spec fn param_entry(parts: (Seq<char>, Seq<char>, Seq<char>)) -> (Seq<char>, Seq<char>) {
    let k = leading(parts.1, '*');
    let name = parts.1.skip(k as int);
    (parts.0 + repeat_char('*', k) + " "@ + name + parts.2, name)
}

/// The declaration and the name of a parameter whose type, name and array
/// brackets the parameter pattern found.
pub fn param_from_match(ty: String, var: &str, dims: &str) -> (r: (String, String))
    ensures
        (r.0@, r.1@) == param_entry((ty@, var@, dims@)),
{
    let var_chars = chars_of(var);
    let k = leading_count(&var_chars, '*');
    let name = string_of(&copy_range(&var_chars, k, var_chars.len()));
    assert(name@ =~= var@.skip(k as int));
    let mut decl = ty;
    append_stars(&mut decl, k);
    decl.append(" ");
    decl.append(name.as_str());
    decl.append(dims);
    (decl, name)
}

/// The declarations and the names of the parameters in `pieces` (the list split
/// at its commas), in order: blank pieces are skipped; in every other piece the
/// parameter pattern finds type, name and brackets, and the `*`s that open the
/// name move to the end of the type. `None` where some piece does not match.
pub open spec fn params_from(pieces: Seq<Seq<char>>) -> Option<(Seq<Seq<char>>, Seq<Seq<char>>)>
    decreases pieces.len(),
{
    if pieces.len() == 0 {
        Some((Seq::<Seq<char>>::empty(), Seq::<Seq<char>>::empty()))
    } else {
        match params_from(pieces.drop_last()) {
            None => None,
            Some(done) => if trim(pieces.last()).len() == 0 {
                Some(done)
            } else {
                match param_match(param_source(pieces.last())) {
                    None => None,
                    Some(parts) => {
                        let e = param_entry(parts);
                        Some((done.0.push(e.0), done.1.push(e.1)))
                    },
                }
            },
        }
    }
}

/// A parameter list fails to read as soon as one of its first pieces does.
proof fn lemma_params_fail_extends(pieces: Seq<Seq<char>>, n: int)
    requires
        0 <= n <= pieces.len(),
        params_from(pieces.take(n)) is None,
    ensures
        params_from(pieces) is None,
    decreases pieces.len() - n,
{
    if n < pieces.len() {
        assert(pieces.take(n + 1).drop_last() =~= pieces.take(n));
        lemma_params_fail_extends(pieces, n + 1);
    } else {
        assert(pieces.take(n) =~= pieces);
    }
}

/// The declarations and the names of the parameters of the list `args`.
pub open spec fn param_list(args: Seq<char>) -> Option<(Seq<Seq<char>>, Seq<Seq<char>>)> {
    params_from(split(args, ','))
}

/// Reads the parameter list `args`: the declaration of each parameter
/// (`type name[]`, pointer stars kept with the type) and its name, in order;
/// `None` where a parameter does not have that shape.
pub fn parse_params(args: &str) -> (r: Option<(Vec<String>, Vec<String>)>)
    ensures
        r is Some <==> param_list(args@) is Some,
        r matches Some(p) ==> param_list(args@) == Some(
            (string_views(p.0@), string_views(p.1@)),
        ),
{
    let chars = chars_of(args);
    let pieces = split_chars(&chars, ',');
    let ghost all = char_vec_views(pieces@);
    let mut decls: Vec<String> = Vec::new();
    let mut names: Vec<String> = Vec::new();
    let n = pieces.len();
    let mut i: usize = 0;
    assert(all.take(0) =~= Seq::<Seq<char>>::empty());
    assert(string_views(decls@) =~= Seq::<Seq<char>>::empty());
    assert(string_views(names@) =~= Seq::<Seq<char>>::empty());
    while i < n
        invariant
            i <= n,
            n == pieces@.len(),
            all == char_vec_views(pieces@),
            all == split(args@, ','),
            params_from(all.take(i as int)) == Some(
                (string_views(decls@), string_views(names@)),
            ),
        decreases n - i,
    {
        assert(all.take(i + 1).drop_last() =~= all.take(i as int));
        assert(all.take(i + 1).last() == pieces@[i as int]@);
        let t = trim_chars(&pieces[i]);
        if t.len() > 0 {
            let eq = first_index_of(&t, '=');
            let src = if 0 < eq && eq < t.len() {
                copy_range(&t, eq, t.len())
            } else {
                t
            };
            assert(src@ == param_source(pieces@[i as int]@)) by {
                assert(t@.subrange(eq as int, t@.len() as int) =~= t@.skip(eq as int));
            }
            let src_text = string_of(&src);
            match match_param(&src_text) {
                None => {
                    proof {
                        lemma_params_fail_extends(all, i + 1);
                    }
                    return None;
                },
                Some(parts) => {
                    let ghost pv = (parts.0@, parts.1@, parts.2@);
                    let (ty, var, dims) = parts;
                    let (decl, name) = param_from_match(ty, var.as_str(), dims.as_str());
                    assert(param_entry(pv) == (decl@, name@));
                    let ghost old_decls = string_views(decls@);
                    let ghost old_names = string_views(names@);
                    decls.push(decl);
                    names.push(name);
                    assert(string_views(decls@) =~= old_decls.push(decl@));
                    assert(string_views(names@) =~= old_names.push(name@));
                },
            }
        }
        i = i + 1;
    }
    assert(all.take(n as int) =~= all);
    Some((decls, names))
}

/// `decl` holds a space at `at`, followed by `name`.
pub open spec fn declares_at(decl: Seq<char>, name: Seq<char>, at: int) -> bool {
    &&& 0 <= at
    &&& at + 1 + name.len() <= decl.len()
    &&& decl[at] == ' '
    &&& decl.subrange(at + 1, at + 1 + name.len()) == name
}

/// `decl` holds `name` after a space.
pub open spec fn declares(decl: Seq<char>, name: Seq<char>) -> bool {
    exists|at: int| declares_at(decl, name, at)
}

/// As many names as declarations; each declaration holds its name after a
/// space; no name starts with `*`.
pub open spec fn params_shaped(decls: Seq<Seq<char>>, names: Seq<Seq<char>>) -> bool {
    &&& decls.len() == names.len()
    &&& forall|i: int| 0 <= i < decls.len() ==> declares(#[trigger] decls[i], names[i])
    &&& forall|i: int| 0 <= i < names.len() ==> leading(#[trigger] names[i], '*') == 0
}

/// A parameter list that reads gives as many names as declarations, and each
/// declaration holds, after a space, its name (which does not start with `*`):
/// the forwarding calls pass exactly the declared parameters, by the names they
/// are declared with.
pub proof fn lemma_param_list_shape(args: Seq<char>)
    ensures
        param_list(args) matches Some(p) ==> params_shaped(p.0, p.1),
{
    lemma_params_from_shape(split(args, ','));
}

proof fn lemma_leading_after_skip(s: Seq<char>, c: char)
    ensures
        leading(s.skip(leading(s, c) as int), c) == 0,
        leading(s, c) <= s.len(),
    decreases s.len(),
{
    if s.len() > 0 && s[0] == c {
        lemma_leading_after_skip(s.drop_first(), c);
        assert(s.skip(leading(s, c) as int) =~= s.drop_first().skip(
            leading(s.drop_first(), c) as int,
        ));
    } else {
        assert(s.skip(0) =~= s);
    }
}

proof fn lemma_params_from_shape(pieces: Seq<Seq<char>>)
    ensures
        params_from(pieces) matches Some(p) ==> params_shaped(p.0, p.1),
    decreases pieces.len(),
{
    if pieces.len() > 0 {
        lemma_params_from_shape(pieces.drop_last());
        if let Some(p) = params_from(pieces) {
            let done = params_from(pieces.drop_last())->Some_0;
            if trim(pieces.last()).len() != 0 {
                let parts = param_match(param_source(pieces.last()))->Some_0;
                let k = leading(parts.1, '*');
                let name = parts.1.skip(k as int);
                let ty = parts.0 + repeat_char('*', k);
                assert(param_entry(parts) == (ty + " "@ + name + parts.2, name));
                lemma_leading_after_skip(parts.1, '*');
                assert(p.0 == done.0.push(ty + " "@ + name + parts.2));
                assert(p.1 == done.1.push(name));
                reveal_strlit(" ");
                let d = ty + " "@ + name + parts.2;
                assert(d.subrange(ty.len() + 1 as int, ty.len() + 1 + name.len() as int) =~= name);
                assert(declares_at(d, name, ty.len() as int));
                assert forall|i: int| 0 <= i < p.0.len() implies declares(
                    #[trigger] p.0[i],
                    p.1[i],
                ) by {
                    if i == p.0.len() - 1 {
                        assert(declares_at(p.0[i], p.1[i], ty.len() as int));
                    } else {
                        assert(p.0[i] == done.0[i]);
                        assert(p.1[i] == done.1[i]);
                    }
                }
                assert forall|i: int| 0 <= i < p.1.len() implies leading(#[trigger] p.1[i], '*')
                    == 0 by {
                    if i < p.1.len() - 1 {
                        assert(p.1[i] == done.1[i]);
                    }
                }
                assert(params_shaped(p.0, p.1));
            } else {
                assert(p == done);
                assert(params_shaped(p.0, p.1));
            }
        }
    }
}

/// The pieces of `pieces` that are not blank, in order.
pub open spec fn nonblank(pieces: Seq<Seq<char>>) -> Seq<Seq<char>> {
    pieces.filter(|p: Seq<char>| trim(p).len() > 0)
}

/// A parameter list reads exactly when the parameter pattern matches every one
/// of its non-blank comma-separated pieces; it then gives one declaration and
/// one name per non-blank piece, in order, the `k`-th from the `k`-th such piece.
pub proof fn lemma_param_list_per_piece(args: Seq<char>)
    ensures
        param_list(args) is Some <==> forall|k: int|
            0 <= k < nonblank(split(args, ',')).len() ==> #[trigger] param_match(
                param_source(nonblank(split(args, ','))[k]),
            ) is Some,
        param_list(args) matches Some(p) ==> {
            let nb = nonblank(split(args, ','));
            &&& p.0.len() == nb.len()
            &&& p.1.len() == nb.len()
            &&& forall|k: int|
                0 <= k < nb.len() ==> (#[trigger] p.0[k], p.1[k]) == param_entry(
                    param_match(param_source(nb[k]))->Some_0,
                )
        },
{
    lemma_params_from_pieces(split(args, ','));
}

proof fn lemma_params_from_pieces(pieces: Seq<Seq<char>>)
    ensures
        params_from(pieces) is Some <==> forall|k: int|
            0 <= k < nonblank(pieces).len() ==> #[trigger] param_match(
                param_source(nonblank(pieces)[k]),
            ) is Some,
        params_from(pieces) matches Some(p) ==> {
            let nb = nonblank(pieces);
            &&& p.0.len() == nb.len()
            &&& p.1.len() == nb.len()
            &&& forall|k: int|
                0 <= k < nb.len() ==> (#[trigger] p.0[k], p.1[k]) == param_entry(
                    param_match(param_source(nb[k]))->Some_0,
                )
        },
    decreases pieces.len(),
{
    reveal(Seq::filter);
    if pieces.len() > 0 {
        let init = pieces.drop_last();
        lemma_params_from_pieces(init);
        let nb0 = nonblank(init);
        let nb = nonblank(pieces);
        let last = pieces.last();
        assert(nb == (if trim(last).len() > 0 {
            nb0.push(last)
        } else {
            nb0
        }));
        if trim(last).len() > 0 {
            if params_from(pieces) is Some {
                let p = params_from(pieces)->Some_0;
                let p0 = params_from(init)->Some_0;
                assert forall|k: int|
                    0 <= k < nb.len() implies #[trigger] param_match(param_source(nb[k])) is Some by {
                    if k < nb0.len() {
                        assert(nb[k] == nb0[k]);
                    }
                }
                assert forall|k: int|
                    0 <= k < nb.len() implies (#[trigger] p.0[k], p.1[k]) == param_entry(
                        param_match(param_source(nb[k]))->Some_0,
                    ) by {
                    if k < nb0.len() {
                        assert(nb[k] == nb0[k]);
                        assert(p.0[k] == p0.0[k]);
                        assert(p.1[k] == p0.1[k]);
                    }
                }
            } else {
                if params_from(init) is Some {
                    assert(param_match(param_source(nb[nb.len() - 1])) is None);
                } else {
                    let k = choose|k: int|
                        0 <= k < nb0.len() && !(#[trigger] param_match(
                            param_source(nb0[k]),
                        ) is Some);
                    assert(nb[k] == nb0[k]);
                }
            }
        } else {
            assert(params_from(pieces) == params_from(init));
        }
    }
}

} // verus!
