//! Character-sequence operations that the code generator is built from, each with
//! the meaning of the std string operation that it stands for.
use vstd::prelude::*;

verus! {

/// The Unicode `White_Space` characters, the set that `char::is_whitespace`
/// accepts and that `str::trim` removes.
pub open spec fn is_space(c: char) -> bool {
    ||| ('\u{9}' <= c && c <= '\u{d}')
    ||| c == ' '
    ||| c == '\u{85}'
    ||| c == '\u{a0}'
    ||| c == '\u{1680}'
    ||| ('\u{2000}' <= c && c <= '\u{200a}')
    ||| c == '\u{2028}'
    ||| c == '\u{2029}'
    ||| c == '\u{202f}'
    ||| c == '\u{205f}'
    ||| c == '\u{3000}'
}

/// Whether `c` is white space.
pub fn is_space_char(c: char) -> (r: bool)
    ensures
        r == is_space(c),
{
    ('\u{9}' <= c && c <= '\u{d}') || c == ' ' || c == '\u{85}' || c == '\u{a0}' || c == '\u{1680}'
        || ('\u{2000}' <= c && c <= '\u{200a}') || c == '\u{2028}' || c == '\u{2029}' || c
        == '\u{202f}' || c == '\u{205f}' || c == '\u{3000}'
}

/// `s` without its leading white space.
pub open spec fn trim_start(s: Seq<char>) -> Seq<char>
    decreases s.len(),
{
    if s.len() > 0 && is_space(s[0]) {
        trim_start(s.drop_first())
    } else {
        s
    }
}

/// `s` without its trailing white space.
pub open spec fn trim_end(s: Seq<char>) -> Seq<char>
    decreases s.len(),
{
    if s.len() > 0 && is_space(s.last()) {
        trim_end(s.drop_last())
    } else {
        s
    }
}

/// `s` without leading and trailing white space (`str::trim`).
pub open spec fn trim(s: Seq<char>) -> Seq<char> {
    trim_end(trim_start(s))
}

/// The pieces of `s` between the occurrences of `sep`, in order, empty pieces
/// included (`str::split` with a one-character pattern): one more piece than
/// `s` holds separators.
pub open spec fn split(s: Seq<char>, sep: char) -> Seq<Seq<char>>
    decreases s.len(),
{
    if s.len() == 0 {
        seq![Seq::<char>::empty()]
    } else {
        let pieces = split(s.drop_last(), sep);
        if s.last() == sep {
            pieces.push(Seq::<char>::empty())
        } else {
            pieces.update(pieces.len() - 1, pieces.last().push(s.last()))
        }
    }
}

/// How many times `c` occurs in `s`.
pub open spec fn count_of(s: Seq<char>, c: char) -> nat
    decreases s.len(),
{
    if s.len() == 0 {
        0
    } else {
        count_of(s.drop_last(), c) + if s.last() == c {
            1nat
        } else {
            0nat
        }
    }
}

/// How many copies of `c` stand at the start of `s`.
pub open spec fn leading(s: Seq<char>, c: char) -> nat
    decreases s.len(),
{
    if s.len() > 0 && s[0] == c {
        1 + leading(s.drop_first(), c)
    } else {
        0
    }
}

/// The index of the first `c` in `s`, or the length of `s` where there is none.
pub open spec fn first_index(s: Seq<char>, c: char) -> nat
    decreases s.len(),
{
    if s.len() == 0 {
        0
    } else if s[0] == c {
        0
    } else {
        1 + first_index(s.drop_first(), c)
    }
}

/// The parts, with `sep` between each two neighbours (`[String]::join`).
pub open spec fn join(parts: Seq<Seq<char>>, sep: Seq<char>) -> Seq<char>
    decreases parts.len(),
{
    if parts.len() == 0 {
        Seq::<char>::empty()
    } else if parts.len() == 1 {
        parts[0]
    } else {
        join(parts.drop_last(), sep) + sep + parts.last()
    }
}

/// The parts, one after the other.
pub open spec fn concat(parts: Seq<Seq<char>>) -> Seq<char>
    decreases parts.len(),
{
    if parts.len() == 0 {
        Seq::<char>::empty()
    } else {
        concat(parts.drop_last()) + parts.last()
    }
}

/// `n` copies of `c`.
pub open spec fn repeat_char(c: char, n: nat) -> Seq<char> {
    Seq::new(n, |_i: int| c)
}

/// The contents of each string.
pub open spec fn string_views(v: Seq<String>) -> Seq<Seq<char>> {
    v.map_values(|s: String| s@)
}

/// The contents of each character vector.
pub open spec fn char_vec_views(v: Seq<Vec<char>>) -> Seq<Seq<char>> {
    v.map_values(|p: Vec<char>| p@)
}

/// Splitting at `sep` gives one piece more than `s` holds separators, no piece
/// holds `sep`, and joining the pieces with `sep` gives `s` back.
pub proof fn lemma_split_join(s: Seq<char>, sep: char)
    ensures
        split(s, sep).len() == count_of(s, sep) + 1,
        forall|i: int, j: int|
            0 <= i < split(s, sep).len() && 0 <= j < split(s, sep)[i].len() ==> #[trigger] split(
                s,
                sep,
            )[i][j] != sep,
        join(split(s, sep), seq![sep]) == s,
    decreases s.len(),
{
    if s.len() > 0 {
        let init = s.drop_last();
        lemma_split_join(init, sep);
        let p = split(init, sep);
        if s.last() == sep {
            assert(split(s, sep).drop_last() =~= p);
            assert(join(split(s, sep), seq![sep]) =~= s);
        } else {
            let q = split(s, sep);
            assert forall|i: int, j: int|
                0 <= i < q.len() && 0 <= j < q[i].len() implies #[trigger] q[i][j] != sep by {
                if i < q.len() - 1 {
                    assert(q[i] == p[i]);
                }
            }
            if p.len() == 1 {
                assert(q[0] == p[0].push(s.last()));
                assert(join(q, seq![sep]) =~= s);
            } else {
                assert(q.drop_last() =~= p.drop_last());
                assert(join(q, seq![sep]) =~= join(p.drop_last(), seq![sep]) + seq![sep] + p.last()
                    + seq![s.last()]);
                assert(join(q, seq![sep]) =~= s);
            }
        }
    }
}

/// Trimming removes all surrounding white space: trimming twice is trimming once.
pub proof fn lemma_trim_idempotent(s: Seq<char>)
    ensures
        trim(trim(s)) == trim(s),
        trim(s).len() > 0 ==> !is_space(trim(s)[0]) && !is_space(trim(s).last()),
{
    lemma_trim_start_shape(s);
    lemma_trim_end_shape(trim_start(s));
    let t = trim(s);
    if t.len() > 0 {
        lemma_trim_end_prefix(trim_start(s));
        assert(t[0] == trim_start(s)[0]);
        assert(trim_start(t) == t);
    } else {
        assert(trim_start(t) == t);
    }
    lemma_trim_end_shape(t);
    assert(trim_end(t) == t);
}

proof fn lemma_trim_start_shape(s: Seq<char>)
    ensures
        trim_start(s).len() > 0 ==> !is_space(trim_start(s)[0]),
        trim_start(s).len() <= s.len(),
    decreases s.len(),
{
    if s.len() > 0 && is_space(s[0]) {
        lemma_trim_start_shape(s.drop_first());
    }
}

proof fn lemma_trim_end_shape(s: Seq<char>)
    ensures
        trim_end(s).len() > 0 ==> !is_space(trim_end(s).last()),
        trim_end(s).len() <= s.len(),
        trim_end(s) == s.take(trim_end(s).len() as int),
    decreases s.len(),
{
    if s.len() > 0 && is_space(s.last()) {
        lemma_trim_end_shape(s.drop_last());
        assert(s.drop_last().take(trim_end(s).len() as int) =~= s.take(trim_end(s).len() as int));
    } else {
        assert(s.take(s.len() as int) =~= s);
    }
}

proof fn lemma_trim_end_prefix(s: Seq<char>)
    ensures
        trim_end(s).len() > 0 ==> trim_end(s)[0] == s[0],
{
    lemma_trim_end_shape(s);
    if trim_end(s).len() > 0 {
        assert(s.take(trim_end(s).len() as int)[0] == s[0]);
    }
}

/// `part` stands in `text` from index `at` on.
pub open spec fn occurs_at(text: Seq<char>, part: Seq<char>, at: int) -> bool {
    &&& 0 <= at
    &&& at + part.len() <= text.len()
    &&& text.subrange(at, at + part.len()) == part
}

/// What stands in `x` still stands there after text is put before and after `x`,
/// shifted by what was put before.
pub proof fn lemma_occurs_within(
    pre: Seq<char>,
    x: Seq<char>,
    post: Seq<char>,
    part: Seq<char>,
    at: int,
)
    requires
        occurs_at(x, part, at),
    ensures
        occurs_at(pre + x + post, part, pre.len() + at),
{
    assert((pre + x + post).subrange(pre.len() + at, pre.len() + at + part.len()) =~= x.subrange(
        at,
        at + part.len(),
    ));
}

/// What stands in a prefix of `text` stands in `text`.
pub proof fn lemma_occurs_in_prefix(
    pre: Seq<char>,
    text: Seq<char>,
    part: Seq<char>,
    at: int,
)
    requires
        occurs_at(pre, part, at),
        pre.is_prefix_of(text),
    ensures
        occurs_at(text, part, at),
{
    assert(text.subrange(at, at + part.len()) =~= pre.subrange(at, at + part.len()));
}

proof fn lemma_concat_take_step(parts: Seq<Seq<char>>, i: int)
    requires
        0 <= i < parts.len(),
    ensures
        concat(parts.take(i + 1)) == concat(parts.take(i)) + parts[i],
{
    assert(parts.take(i + 1).drop_last() =~= parts.take(i));
}

proof fn lemma_concat_take_prefix(parts: Seq<Seq<char>>, a: int, b: int)
    requires
        0 <= a <= b <= parts.len(),
    ensures
        concat(parts.take(a)).is_prefix_of(concat(parts.take(b))),
    decreases b - a,
{
    if a < b {
        lemma_concat_take_prefix(parts, a, b - 1);
        lemma_concat_take_step(parts, b - 1);
    }
}

/// Each part stands in the concatenation right after the parts before it, and
/// a part ends no later than any later part starts.
pub proof fn lemma_concat_occurs(parts: Seq<Seq<char>>, i: int, k: int)
    requires
        0 <= i < parts.len(),
        i < k <= parts.len(),
    ensures
        occurs_at(concat(parts), parts[i], concat(parts.take(i)).len() as int),
        concat(parts.take(i)).len() + parts[i].len() <= concat(parts.take(k)).len(),
{
    lemma_concat_take_step(parts, i);
    let x = concat(parts.take(i));
    assert(occurs_at(x + parts[i], parts[i], x.len() as int)) by {
        assert((x + parts[i]).subrange(x.len() as int, (x.len() + parts[i].len()) as int) =~= parts[i]);
    }
    lemma_concat_take_prefix(parts, i + 1, parts.len() as int);
    assert(parts.take(parts.len() as int) =~= parts);
    lemma_occurs_in_prefix(x + parts[i], concat(parts), parts[i], x.len() as int);
    lemma_concat_take_prefix(parts, i + 1, k);
}

/// Where the part of index `i` starts in `join(parts, sep)`.
pub open spec fn join_pos(parts: Seq<Seq<char>>, sep: Seq<char>, i: int) -> int {
    if i == 0 {
        0
    } else {
        (join(parts.take(i), sep).len() + sep.len()) as int
    }
}

proof fn lemma_join_take_step(parts: Seq<Seq<char>>, sep: Seq<char>, i: int)
    requires
        0 <= i < parts.len(),
    ensures
        join(parts.take(i + 1), sep) == (if i == 0 {
            parts[0]
        } else {
            join(parts.take(i), sep) + sep + parts[i]
        }),
        join(parts.take(i + 1), sep).len() == join_pos(parts, sep, i) + parts[i].len(),
{
    assert(parts.take(i + 1).drop_last() =~= parts.take(i));
    if i == 0 {
        assert(parts.take(0).len() == 0);
    }
}

proof fn lemma_join_take_prefix(parts: Seq<Seq<char>>, sep: Seq<char>, a: int, b: int)
    requires
        0 <= a <= b <= parts.len(),
    ensures
        join(parts.take(a), sep).is_prefix_of(join(parts.take(b), sep)),
    decreases b - a,
{
    if a < b {
        lemma_join_take_prefix(parts, sep, a, b - 1);
        lemma_join_take_step(parts, sep, b - 1);
        if b - 1 == 0 {
            assert(join(parts.take(a), sep).len() == 0);
        }
    }
}

/// Each part stands in the joined text at `join_pos`, and a part ends no later
/// than any later part starts.
pub proof fn lemma_join_occurs(parts: Seq<Seq<char>>, sep: Seq<char>, i: int, k: int)
    requires
        0 <= i < parts.len(),
        i < k <= parts.len(),
    ensures
        occurs_at(join(parts, sep), parts[i], join_pos(parts, sep, i)),
        k < parts.len() ==> join_pos(parts, sep, i) + parts[i].len() <= join_pos(parts, sep, k),
{
    lemma_join_take_step(parts, sep, i);
    let y = join(parts.take(i + 1), sep);
    let p = join_pos(parts, sep, i);
    assert(occurs_at(y, parts[i], p)) by {
        if i == 0 {
            assert(y.subrange(0, parts[0].len() as int) =~= parts[0]);
        } else {
            assert(y.subrange(p, p + parts[i].len()) =~= parts[i]);
        }
    }
    lemma_join_take_prefix(parts, sep, i + 1, parts.len() as int);
    assert(parts.take(parts.len() as int) =~= parts);
    lemma_occurs_in_prefix(y, join(parts, sep), parts[i], p);
    if k < parts.len() {
        lemma_join_take_prefix(parts, sep, i + 1, k);
    }
}

/// Each part with `sep` put before it, one after the other.
pub open spec fn each_after(parts: Seq<Seq<char>>, sep: Seq<char>) -> Seq<char>
    decreases parts.len(),
{
    if parts.len() == 0 {
        Seq::<char>::empty()
    } else {
        each_after(parts.drop_last(), sep) + sep + parts.last()
    }
}

/// Joining a first part and more parts gives the first part followed, for each
/// further part, by the separator and that part.
pub proof fn lemma_join_first(first: Seq<char>, rest: Seq<Seq<char>>, sep: Seq<char>)
    ensures
        join(seq![first] + rest, sep) == first + each_after(rest, sep),
    decreases rest.len(),
{
    if rest.len() == 0 {
        assert(seq![first] + rest =~= seq![first]);
        assert(first + each_after(rest, sep) =~= first);
    } else {
        lemma_join_first(first, rest.drop_last(), sep);
        assert((seq![first] + rest).drop_last() =~= seq![first] + rest.drop_last());
        assert(first + each_after(rest, sep) =~= first + each_after(rest.drop_last(), sep) + sep
            + rest.last());
    }
}

/// The characters of `s`, in order (`str::chars`, collected).
#[verifier::external_body]
pub(crate) fn chars_of(s: &str) -> (r: Vec<char>)
    ensures
        r@ == s@,
{
    s.chars().collect()
}

/// The string made of exactly the characters of `cs`, in order
/// (`String: FromIterator<&char>`).
#[verifier::external_body]
pub(crate) fn string_of(cs: &[char]) -> (r: String)
    ensures
        r@ == cs@,
{
    cs.iter().collect()
}

/// The characters `s[lo..hi]`, copied.
pub fn copy_range(s: &[char], lo: usize, hi: usize) -> (r: Vec<char>)
    requires
        lo <= hi <= s@.len(),
    ensures
        r@ == s@.subrange(lo as int, hi as int),
{
    let mut r: Vec<char> = Vec::new();
    let mut i = lo;
    while i < hi
        invariant
            lo <= i <= hi <= s@.len(),
            r@ == s@.subrange(lo as int, i as int),
        decreases hi - i,
    {
        r.push(s[i]);
        i = i + 1;
    }
    r
}

/// `s` without leading and trailing white space.
pub fn trim_chars(s: &[char]) -> (r: Vec<char>)
    ensures
        r@ == trim(s@),
{
    let n = s.len();
    let mut lo: usize = 0;
    assert(s@.skip(0) =~= s@);
    while lo < n && is_space_char(s[lo])
        invariant
            lo <= n,
            n == s@.len(),
            trim_start(s@) == trim_start(s@.skip(lo as int)),
        decreases n - lo,
    {
        assert(s@.skip(lo as int).drop_first() =~= s@.skip(lo + 1));
        lo = lo + 1;
    }
    let mut hi: usize = n;
    assert(s@.skip(lo as int) =~= s@.subrange(lo as int, n as int));
    while hi > lo && is_space_char(s[hi - 1])
        invariant
            lo <= hi <= n,
            n == s@.len(),
            trim(s@) == trim_end(s@.subrange(lo as int, hi as int)),
        decreases hi,
    {
        assert(s@.subrange(lo as int, hi as int).drop_last() =~= s@.subrange(
            lo as int,
            hi - 1,
        ));
        hi = hi - 1;
    }
    copy_range(s, lo, hi)
}

/// The pieces of `s` between the occurrences of `sep`.
pub fn split_chars(s: &[char], sep: char) -> (r: Vec<Vec<char>>)
    ensures
        char_vec_views(r@) == split(s@, sep),
{
    let mut done: Vec<Vec<char>> = Vec::new();
    let mut cur: Vec<char> = Vec::new();
    assert(s@.take(0) =~= Seq::<char>::empty());
    assert(char_vec_views(done@).push(cur@) =~= seq![Seq::<char>::empty()]);
    let n = s.len();
    let mut i: usize = 0;
    while i < n
        invariant
            i <= n,
            n == s@.len(),
            split(s@.take(i as int), sep) == char_vec_views(done@).push(cur@),
        decreases n - i,
    {
        assert(s@.take(i + 1).drop_last() =~= s@.take(i as int));
        let ghost before = char_vec_views(done@).push(cur@);
        if s[i] == sep {
            done.push(cur);
            cur = Vec::new();
            assert(char_vec_views(done@).push(cur@) =~= before.push(Seq::<char>::empty()));
        } else {
            cur.push(s[i]);
            assert(char_vec_views(done@).push(cur@) =~= before.update(
                before.len() - 1,
                before.last().push(s@[i as int]),
            ));
        }
        i = i + 1;
    }
    assert(s@.take(n as int) =~= s@);
    let ghost before = char_vec_views(done@).push(cur@);
    done.push(cur);
    assert(char_vec_views(done@) =~= before);
    done
}

/// How many times `c` occurs in `s`.
pub fn count_char(s: &[char], c: char) -> (r: usize)
    ensures
        r == count_of(s@, c),
{
    let n = s.len();
    let mut k: usize = 0;
    let mut i: usize = 0;
    assert(s@.take(0) =~= Seq::<char>::empty());
    while i < n
        invariant
            i <= n,
            n == s@.len(),
            k <= i,
            k == count_of(s@.take(i as int), c),
        decreases n - i,
    {
        assert(s@.take(i + 1).drop_last() =~= s@.take(i as int));
        if s[i] == c {
            k = k + 1;
        }
        i = i + 1;
    }
    assert(s@.take(n as int) =~= s@);
    k
}

/// How many copies of `c` stand at the start of `s`.
pub fn leading_count(s: &[char], c: char) -> (r: usize)
    ensures
        r == leading(s@, c),
        r <= s@.len(),
{
    let n = s.len();
    let mut k: usize = 0;
    assert(s@.skip(0) =~= s@);
    while k < n && s[k] == c
        invariant
            k <= n,
            n == s@.len(),
            leading(s@, c) == k + leading(s@.skip(k as int), c),
        decreases n - k,
    {
        assert(s@.skip(k as int).drop_first() =~= s@.skip(k + 1));
        k = k + 1;
    }
    k
}

/// The index of the first `c` in `s`, or the length of `s` where there is none.
pub fn first_index_of(s: &[char], c: char) -> (r: usize)
    ensures
        r == first_index(s@, c),
        r <= s@.len(),
{
    let n = s.len();
    let mut k: usize = 0;
    assert(s@.skip(0) =~= s@);
    while k < n && s[k] != c
        invariant
            k <= n,
            n == s@.len(),
            first_index(s@, c) == k + first_index(s@.skip(k as int), c),
        decreases n - k,
    {
        assert(s@.skip(k as int).drop_first() =~= s@.skip(k + 1));
        k = k + 1;
    }
    k
}

/// Whether the literal `p` is a prefix of `s`.
pub fn has_prefix(s: &[char], p: &str) -> (r: bool)
    ensures
        r == p@.is_prefix_of(s@),
{
    let m = p.unicode_len();
    if m > s.len() {
        return false;
    }
    let mut j: usize = 0;
    while j < m
        invariant
            j <= m,
            m == p@.len(),
            m <= s@.len(),
            forall|t: int| 0 <= t < j ==> p@[t] == s@[t],
        decreases m - j,
    {
        if p.get_char(j) != s[j] {
            assert(p@[j as int] != s@.subrange(0, m as int)[j as int]);
            return false;
        }
        j = j + 1;
    }
    assert(p@ =~= s@.subrange(0, m as int));
    true
}

/// The parts joined, with `sep` between each two neighbours.
pub fn join_strings(parts: &Vec<String>, sep: &str) -> (r: String)
    ensures
        r@ == join(string_views(parts@), sep@),
{
    let mut r = String::new();
    let n = parts.len();
    let mut i: usize = 0;
    assert(string_views(parts@).take(0) =~= Seq::<Seq<char>>::empty());
    while i < n
        invariant
            i <= n,
            n == parts@.len(),
            r@ == join(string_views(parts@).take(i as int), sep@),
        decreases n - i,
    {
        assert(string_views(parts@).take(i + 1).drop_last() =~= string_views(parts@).take(
            i as int,
        ));
        if i > 0 {
            r.append(sep);
        }
        r.append(parts[i].as_str());
        i = i + 1;
    }
    assert(string_views(parts@).take(n as int) =~= string_views(parts@));
    r
}

/// The parts, one after the other.
pub fn concat_strings(parts: &Vec<String>) -> (r: String)
    ensures
        r@ == concat(string_views(parts@)),
{
    let mut r = String::new();
    let n = parts.len();
    let mut i: usize = 0;
    assert(string_views(parts@).take(0) =~= Seq::<Seq<char>>::empty());
    while i < n
        invariant
            i <= n,
            n == parts@.len(),
            r@ == concat(string_views(parts@).take(i as int)),
        decreases n - i,
    {
        assert(string_views(parts@).take(i + 1).drop_last() =~= string_views(parts@).take(
            i as int,
        ));
        r.append(parts[i].as_str());
        i = i + 1;
    }
    assert(string_views(parts@).take(n as int) =~= string_views(parts@));
    r
}

/// Appends `k` copies of `*` to `s`.
pub fn append_stars(s: &mut String, k: usize)
    ensures
        final(s)@ == old(s)@ + repeat_char('*', k as nat),
{
    proof {
        reveal_strlit("*");
    }
    let ghost start = s@;
    let mut j: usize = 0;
    assert(s@ =~= start + repeat_char('*', 0));
    while j < k
        invariant
            j <= k,
            s@ =~= start + repeat_char('*', j as nat),
            "*"@ =~= seq!['*'],
        decreases k - j,
    {
        s.append("*");
        assert(repeat_char('*', j as nat).push('*') =~= repeat_char('*', (j + 1) as nat));
        j = j + 1;
    }
}

} // verus!
