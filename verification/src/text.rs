use vstd::prelude::*;

verus! {

/// Characters treated as blank space when lines are trimmed.
pub open spec fn is_space_char(c: char) -> bool {
    c == ' ' || c == '\t' || c == '\r' || c == '\n'
}

/// `s` with its leading space characters removed.
pub open spec fn trim_start_spec(s: Seq<char>) -> Seq<char>
    decreases s.len(),
{
    if s.len() > 0 && is_space_char(s[0]) {
        trim_start_spec(s.drop_first())
    } else {
        s
    }
}

/// `s` with its trailing space characters removed.
pub open spec fn trim_end_spec(s: Seq<char>) -> Seq<char>
    decreases s.len(),
{
    if s.len() > 0 && is_space_char(s.last()) {
        trim_end_spec(s.drop_last())
    } else {
        s
    }
}

/// `s` with leading and trailing space characters removed.
pub open spec fn trim_spec(s: Seq<char>) -> Seq<char> {
    trim_end_spec(trim_start_spec(s))
}

pub fn is_space(c: char) -> (r: bool)
    ensures
        r == is_space_char(c),
{
    c == ' ' || c == '\t' || c == '\r' || c == '\n'
}

proof fn lemma_trim_start_skip(s: Seq<char>, a: int)
    requires
        0 <= a <= s.len(),
        forall|i: int| 0 <= i < a ==> is_space_char(s[i]),
        a < s.len() ==> !is_space_char(s[a]),
    ensures
        trim_start_spec(s) == s.skip(a),
    decreases a,
{
    if a == 0 {
        assert(s.skip(0) =~= s);
    } else {
        lemma_trim_start_skip(s.drop_first(), a - 1);
        assert(s.drop_first().skip(a - 1) =~= s.skip(a));
    }
}

proof fn lemma_trim_end_take(s: Seq<char>, b: int)
    requires
        0 <= b <= s.len(),
        forall|i: int| b <= i < s.len() ==> is_space_char(s[i]),
        b > 0 ==> !is_space_char(s[b - 1]),
    ensures
        trim_end_spec(s) == s.take(b),
    decreases s.len() - b,
{
    if b == s.len() {
        assert(s.take(b) =~= s);
    } else {
        lemma_trim_end_take(s.drop_last(), b);
        assert(s.drop_last().take(b) =~= s.take(b));
    }
}

/// A fresh trimmed slice of `s`, as `str::trim` would give it for
/// ordinary blank characters.
pub fn trim_str<'a>(s: &'a str) -> (r: &'a str)
    ensures
        r@ == trim_spec(s@),
{
    let n = s.unicode_len();
    let mut a: usize = 0;
    loop
        invariant
            a <= n,
            n == s@.len(),
            forall|i: int| 0 <= i < a ==> is_space_char(s@[i]),
        ensures
            a <= n,
            forall|i: int| 0 <= i < a ==> is_space_char(s@[i]),
            a < n ==> !is_space_char(s@[a as int]),
        decreases n - a,
    {
        if a >= n {
            break ;
        }
        if !is_space(s.get_char(a)) {
            break ;
        }
        a = a + 1;
    }
    proof {
        lemma_trim_start_skip(s@, a as int);
    }
    if a == n {
        proof {
            assert(s@.skip(a as int) =~= Seq::<char>::empty());
            assert(trim_end_spec(Seq::<char>::empty()) == Seq::<char>::empty());
            assert(s@.subrange(a as int, a as int) =~= Seq::<char>::empty());
        }
        return s.substring_char(a, a);
    }
    let mut b: usize = n;
    loop
        invariant
            a < b <= n,
            n == s@.len(),
            a < n,
            !is_space_char(s@[a as int]),
            forall|i: int| b <= i < n ==> is_space_char(s@[i]),
        ensures
            a < b <= n,
            forall|i: int| b <= i < n ==> is_space_char(s@[i]),
            !is_space_char(s@[b - 1]),
        decreases b,
    {
        if !is_space(s.get_char(b - 1)) {
            break ;
        }
        b = b - 1;
    }
    let r = s.substring_char(a, b);
    proof {
        let t = s@.skip(a as int);
        lemma_trim_end_take(t, b - a);
        assert(t.take(b - a) =~= s@.subrange(a as int, b as int));
    }
    r
}

/// Index of the first occurrence of `c` in `s`, or `-1` if `s` has none.
pub open spec fn find_char_spec(s: Seq<char>, c: char) -> int
    decreases s.len(),
{
    if s.len() == 0 {
        -1
    } else if s[0] == c {
        0
    } else {
        let r = find_char_spec(s.drop_first(), c);
        if r < 0 {
            -1
        } else {
            1 + r
        }
    }
}

pub proof fn lemma_find_char_at(s: Seq<char>, c: char, i: int)
    requires
        0 <= i < s.len(),
        s[i] == c,
        forall|j: int| 0 <= j < i ==> s[j] != c,
    ensures
        find_char_spec(s, c) == i,
    decreases i,
{
    if i > 0 {
        lemma_find_char_at(s.drop_first(), c, i - 1);
    }
}

pub proof fn lemma_find_char_none(s: Seq<char>, c: char)
    requires
        forall|j: int| 0 <= j < s.len() ==> s[j] != c,
    ensures
        find_char_spec(s, c) == -1,
    decreases s.len(),
{
    if s.len() > 0 {
        lemma_find_char_none(s.drop_first(), c);
    }
}

/// First index of `c` in `s`, if any.
pub fn find_char(s: &str, c: char) -> (r: Option<usize>)
    ensures
        r matches Some(i) ==> find_char_spec(s@, c) == i,
        r is None ==> find_char_spec(s@, c) == -1,
        r matches Some(i) ==> i < s@.len(),
{
    let n = s.unicode_len();
    let mut i: usize = 0;
    while i < n
        invariant
            i <= n,
            n == s@.len(),
            forall|j: int| 0 <= j < i ==> s@[j] != c,
        decreases n - i,
    {
        if s.get_char(i) == c {
            proof {
                lemma_find_char_at(s@, c, i as int);
            }
            return Some(i);
        }
        i = i + 1;
    }
    proof {
        lemma_find_char_none(s@, c);
    }
    None
}

/// Index of the last occurrence of `c` in `s`, or `-1` if `s` has none.
pub open spec fn last_index_of(s: Seq<char>, c: char) -> int
    decreases s.len(),
{
    if s.len() == 0 {
        -1
    } else if s.last() == c {
        s.len() - 1
    } else {
        last_index_of(s.drop_last(), c)
    }
}

pub proof fn lemma_last_index_at(s: Seq<char>, c: char, i: int)
    requires
        0 <= i < s.len(),
        s[i] == c,
        forall|j: int| i < j < s.len() ==> s[j] != c,
    ensures
        last_index_of(s, c) == i,
    decreases s.len(),
{
    if i < s.len() - 1 {
        lemma_last_index_at(s.drop_last(), c, i);
    }
}

pub proof fn lemma_last_index_none(s: Seq<char>, c: char)
    requires
        forall|j: int| 0 <= j < s.len() ==> s[j] != c,
    ensures
        last_index_of(s, c) == -1,
    decreases s.len(),
{
    if s.len() > 0 {
        lemma_last_index_none(s.drop_last(), c);
    }
}

/// Last index of `c` in `s`, if any.
pub fn rfind_char(s: &str, c: char) -> (r: Option<usize>)
    ensures
        r matches Some(i) ==> last_index_of(s@, c) == i,
        r is None ==> last_index_of(s@, c) == -1,
        r matches Some(i) ==> i < s@.len(),
{
    let n = s.unicode_len();
    let mut i: usize = n;
    while i > 0
        invariant
            i <= n,
            n == s@.len(),
            forall|j: int| i <= j < n ==> s@[j] != c,
        decreases i,
    {
        i = i - 1;
        if s.get_char(i) == c {
            proof {
                lemma_last_index_at(s@, c, i as int);
            }
            return Some(i);
        }
    }
    proof {
        lemma_last_index_none(s@, c);
    }
    None
}

/// True when `p` stands at the start of `s`.
pub open spec fn is_prefix(p: Seq<char>, s: Seq<char>) -> bool {
    p.len() <= s.len() && s.take(p.len() as int) == p
}

/// Whether `s` starts with `p`, compared character by character.
pub fn has_prefix(s: &str, p: &str) -> (r: bool)
    ensures
        r == is_prefix(p@, s@),
{
    let n = s.unicode_len();
    let m = p.unicode_len();
    if m > n {
        return false;
    }
    let mut i: usize = 0;
    while i < m
        invariant
            i <= m <= n,
            n == s@.len(),
            m == p@.len(),
            forall|j: int| 0 <= j < i ==> s@[j] == p@[j],
        decreases m - i,
    {
        if s.get_char(i) != p.get_char(i) {
            assert(s@.take(m as int)[i as int] != p@[i as int]);
            return false;
        }
        i = i + 1;
    }
    proof {
        assert(s@.take(m as int) =~= p@);
    }
    true
}

/// Whether `a` and `b` hold the same characters.
pub fn str_eq_str(a: &str, b: &str) -> (r: bool)
    ensures
        r == (a@ == b@),
{
    let n = a.unicode_len();
    let m = b.unicode_len();
    if m != n {
        return false;
    }
    let r = has_prefix(a, b);
    proof {
        if a@ == b@ {
            assert(a@.take(m as int) =~= b@);
        }
        if is_prefix(b@, a@) {
            assert(a@.take(m as int) =~= a@);
        }
    }
    r
}

/// The sequence of character sequences that a sequence of strings holds.
pub open spec fn views_of(v: Seq<String>) -> Seq<Seq<char>> {
    v.map_values(|x: String| x@)
}

pub proof fn lemma_views_push(v: Seq<String>, x: String)
    ensures
        views_of(v.push(x)) == views_of(v).push(x@),
{
    assert(views_of(v.push(x)) =~= views_of(v).push(x@));
}

/// A line with a trailing carriage return removed, as `str::lines` strips it.
pub open spec fn strip_cr(l: Seq<char>) -> Seq<char> {
    if l.len() > 0 && l.last() == '\r' {
        l.drop_last()
    } else {
        l
    }
}

/// The lines of `s`: pieces between newline characters, each with a
/// trailing carriage return removed, the piece after a final newline
/// kept only when it is not empty.
pub proof fn lemma_find_char_bounds(s: Seq<char>, c: char)
    ensures
        find_char_spec(s, c) == -1 || (0 <= find_char_spec(s, c) < s.len()),
    decreases s.len(),
{
    if s.len() > 0 && s[0] != c {
        lemma_find_char_bounds(s.drop_first(), c);
    }
}

pub open spec fn split_lines_spec(s: Seq<char>) -> Seq<Seq<char>>
    decreases s.len(),
    via split_lines_decreases
{
    if s.len() == 0 {
        Seq::empty()
    } else {
        let i = find_char_spec(s, '\n');
        if i < 0 {
            seq![strip_cr(s)]
        } else {
            seq![strip_cr(s.take(i))] + split_lines_spec(s.skip(i + 1))
        }
    }
}

#[via_fn]
proof fn split_lines_decreases(s: Seq<char>) {
    lemma_find_char_bounds(s, '\n');
}

/// Splits `s` into its lines.
pub fn split_lines(s: &str) -> (r: Vec<String>)
    ensures
        views_of(r@) == split_lines_spec(s@),
{
    let mut out: Vec<String> = Vec::new();
    let mut rest: &str = s;
    loop
        invariant
            views_of(out@) + split_lines_spec(rest@) == split_lines_spec(s@),
        ensures
            rest@.len() == 0,
        decreases rest@.len(),
    {
        let n = rest.unicode_len();
        if n == 0 {
            break ;
        }
        let ghost prev = out@;
        match find_char(rest, '\n') {
            Some(i) => {
                let end = if i > 0 && rest.get_char(i - 1) == '\r' {
                    i - 1
                } else {
                    i
                };
                let line = rest.substring_char(0, end);
                proof {
                    assert(rest@.subrange(0, end as int) =~= strip_cr(rest@.take(i as int)));
                }
                out.push(line.to_owned());
                let tail = rest.substring_char(i + 1, n);
                proof {
                    assert(rest@.subrange(i + 1, n as int) =~= rest@.skip(i + 1));
                    lemma_views_push(prev, out@.last());
                    assert(views_of(out@) + split_lines_spec(tail@) =~= views_of(prev) + (seq![
                        strip_cr(rest@.take(i as int)),
                    ] + split_lines_spec(rest@.skip(i + 1))));
                }
                rest = tail;
            },
            None => {
                let end = if rest.get_char(n - 1) == '\r' {
                    n - 1
                } else {
                    n
                };
                let line = rest.substring_char(0, end);
                proof {
                    assert(rest@.subrange(0, end as int) =~= strip_cr(rest@));
                }
                out.push(line.to_owned());
                proof {
                    lemma_views_push(prev, out@.last());
                    assert(views_of(out@) + split_lines_spec(Seq::<char>::empty()) =~= views_of(
                        prev,
                    ) + seq![strip_cr(rest@)]);
                }
                let tail = rest.substring_char(n, n);
                proof {
                    assert(rest@.subrange(n as int, n as int) =~= Seq::<char>::empty());
                }
                rest = tail;
            },
        }
    }
    proof {
        assert(views_of(out@) + split_lines_spec(rest@) =~= views_of(out@));
    }
    out
}

/// Length of the run of non-space characters at the start of `s`.
pub open spec fn nonspace_run(s: Seq<char>) -> int
    decreases s.len(),
{
    if s.len() == 0 || is_space_char(s[0]) {
        0
    } else {
        1 + nonspace_run(s.drop_first())
    }
}

pub proof fn lemma_nonspace_run_bounds(s: Seq<char>)
    ensures
        0 <= nonspace_run(s) <= s.len(),
    decreases s.len(),
{
    if s.len() > 0 && !is_space_char(s[0]) {
        lemma_nonspace_run_bounds(s.drop_first());
    }
}

pub proof fn lemma_nonspace_run_at(s: Seq<char>, e: int)
    requires
        0 <= e <= s.len(),
        forall|j: int| 0 <= j < e ==> !is_space_char(s[j]),
        e < s.len() ==> is_space_char(s[e]),
    ensures
        nonspace_run(s) == e,
    decreases e,
{
    if e > 0 {
        lemma_nonspace_run_at(s.drop_first(), e - 1);
    }
}

/// The whitespace-separated tokens of `s`, in order.
pub open spec fn tokens_of(s: Seq<char>) -> Seq<Seq<char>>
    decreases s.len(),
    via tokens_decreases
{
    if s.len() == 0 {
        Seq::empty()
    } else if is_space_char(s[0]) {
        tokens_of(s.drop_first())
    } else {
        seq![s.take(nonspace_run(s))] + tokens_of(s.skip(nonspace_run(s)))
    }
}

#[via_fn]
proof fn tokens_decreases(s: Seq<char>) {
    lemma_nonspace_run_bounds(s);
    if s.len() > 0 && !is_space_char(s[0]) {
        lemma_nonspace_run_bounds(s.drop_first());
    }
}

/// Splits `s` into its whitespace-separated tokens.
pub fn split_ws(s: &str) -> (r: Vec<String>)
    ensures
        views_of(r@) == tokens_of(s@),
{
    let mut out: Vec<String> = Vec::new();
    let mut rest: &str = s;
    loop
        invariant
            views_of(out@) + tokens_of(rest@) == tokens_of(s@),
        ensures
            rest@.len() == 0,
        decreases rest@.len(),
    {
        let n = rest.unicode_len();
        if n == 0 {
            break ;
        }
        if is_space(rest.get_char(0)) {
            let tail = rest.substring_char(1, n);
            proof {
                assert(rest@.subrange(1, n as int) =~= rest@.drop_first());
            }
            rest = tail;
        } else {
            let mut e: usize = 1;
            while e < n
                invariant
                    1 <= e <= n,
                    n == rest@.len(),
                    forall|j: int| 0 <= j < e ==> !is_space_char(rest@[j]),
                ensures
                    1 <= e <= n,
                    forall|j: int| 0 <= j < e ==> !is_space_char(rest@[j]),
                    e < n ==> is_space_char(rest@[e as int]),
                decreases n - e,
            {
                if is_space(rest.get_char(e)) {
                    break ;
                }
                e = e + 1;
            }
            proof {
                lemma_nonspace_run_at(rest@, e as int);
            }
            let ghost prev = out@;
            let tok = rest.substring_char(0, e);
            proof {
                assert(rest@.subrange(0, e as int) =~= rest@.take(e as int));
            }
            out.push(tok.to_owned());
            let tail = rest.substring_char(e, n);
            proof {
                assert(rest@.subrange(e as int, n as int) =~= rest@.skip(e as int));
                lemma_views_push(prev, out@.last());
                assert(views_of(out@) + tokens_of(tail@) =~= views_of(prev) + (seq![
                    rest@.take(e as int),
                ] + tokens_of(rest@.skip(e as int))));
            }
            rest = tail;
        }
    }
    proof {
        assert(views_of(out@) + tokens_of(rest@) =~= views_of(out@));
    }
    out
}

/// The sequences of `ls` joined with single newline characters.
pub open spec fn join_nl(ls: Seq<Seq<char>>) -> Seq<char>
    decreases ls.len(),
{
    if ls.len() == 0 {
        Seq::empty()
    } else if ls.len() == 1 {
        ls[0]
    } else {
        join_nl(ls.drop_last()) + seq!['\n'] + ls.last()
    }
}

/// Joins the strings of `v` with single newline characters.
pub fn join_lines(v: &Vec<String>) -> (r: String)
    ensures
        r@ == join_nl(views_of(v@)),
{
    let mut acc = String::new();
    let mut i: usize = 0;
    proof {
        assert(views_of(v@).take(0) =~= Seq::<Seq<char>>::empty());
    }
    while i < v.len()
        invariant
            i <= v@.len(),
            acc@ == join_nl(views_of(v@).take(i as int)),
        decreases v@.len() - i,
    {
        if i > 0 {
            push_char(&mut acc, '\n');
        }
        acc.append(v[i].as_str());
        proof {
            let vs = views_of(v@);
            assert(vs.take(i + 1).drop_last() =~= vs.take(i as int));
            assert(vs.take(i + 1).last() == v@[i as int]@);
            if i > 0 {
                assert(acc@ == join_nl(vs.take(i as int)) + seq!['\n'] + v@[i as int]@);
            } else {
                assert(acc@ =~= v@[0]@);
            }
        }
        i = i + 1;
    }
    proof {
        assert(views_of(v@).take(v@.len() as int) =~= views_of(v@));
    }
    acc
}

/// Index of the first occurrence of `p` as a contiguous part of `s`,
/// or `-1` if there is none.
pub open spec fn find_sub_spec(s: Seq<char>, p: Seq<char>) -> int
    decreases s.len(),
{
    if p.len() > s.len() {
        -1
    } else if s.take(p.len() as int) == p {
        0
    } else if s.len() == 0 {
        -1
    } else {
        let r = find_sub_spec(s.drop_first(), p);
        if r < 0 {
            -1
        } else {
            1 + r
        }
    }
}

pub proof fn lemma_find_sub_at(s: Seq<char>, p: Seq<char>, i: int)
    requires
        0 <= i,
        i + p.len() <= s.len(),
        s.subrange(i, i + p.len() as int) == p,
        forall|j: int| 0 <= j < i ==> #[trigger] s.subrange(j, j + p.len() as int) != p,
    ensures
        find_sub_spec(s, p) == i,
    decreases i,
{
    assert(s.take(p.len() as int) =~= s.subrange(0, p.len() as int));
    if i == 0 {
    } else {
        assert(s.subrange(0, 0 + p.len() as int) != p);
        let t = s.drop_first();
        assert forall|j: int| 0 <= j < i - 1 implies #[trigger] t.subrange(j, j + p.len() as int) != p by {
            assert(t.subrange(j, j + p.len() as int) =~= s.subrange(j + 1, j + 1 + p.len() as int));
        }
        assert(t.subrange(i - 1, i - 1 + p.len() as int) =~= s.subrange(i, i + p.len() as int));
        lemma_find_sub_at(t, p, i - 1);
    }
}

pub proof fn lemma_find_sub_none(s: Seq<char>, p: Seq<char>)
    requires
        forall|j: int| 0 <= j && j + p.len() <= s.len() ==> #[trigger] s.subrange(j, j + p.len() as int) != p,
    ensures
        find_sub_spec(s, p) == -1,
    decreases s.len(),
{
    if p.len() <= s.len() {
        assert(s.subrange(0, 0 + p.len() as int) != p);
        assert(s.take(p.len() as int) =~= s.subrange(0, p.len() as int));
        if s.len() > 0 {
            let t = s.drop_first();
            assert forall|j: int| 0 <= j && j + p.len() <= t.len() implies #[trigger] t.subrange(
                j,
                j + p.len() as int,
            ) != p by {
                assert(t.subrange(j, j + p.len() as int) =~= s.subrange(
                    j + 1,
                    j + 1 + p.len() as int,
                ));
            }
            lemma_find_sub_none(t, p);
        }
    }
}

/// First index at which `p` occurs inside `s`, if any.
pub fn find_sub(s: &str, p: &str) -> (r: Option<usize>)
    ensures
        r matches Some(i) ==> find_sub_spec(s@, p@) == i,
        r is None ==> find_sub_spec(s@, p@) == -1,
        r matches Some(i) ==> i + p@.len() <= s@.len(),
{
    let n = s.unicode_len();
    let m = p.unicode_len();
    if m > n {
        proof {
            lemma_find_sub_none(s@, p@);
        }
        return None;
    }
    if m == 0 {
        proof {
            assert(s@.take(0) =~= p@);
        }
        return Some(0);
    }
    let mut i: usize = 0;
    while i <= n - m
        invariant
            0 <= i <= n - m + 1,
            1 <= m <= n,
            n == s@.len(),
            m == p@.len(),
            forall|j: int| 0 <= j < i ==> #[trigger] s@.subrange(j, j + p@.len() as int) != p@,
        decreases n + 1 - i,
    {
        let tail = s.substring_char(i, n);
        if has_prefix(tail, p) {
            proof {
                assert(tail@.take(m as int) =~= s@.subrange(i as int, i + m));
                lemma_find_sub_at(s@, p@, i as int);
            }
            return Some(i);
        }
        proof {
            assert(tail@.take(m as int) =~= s@.subrange(i as int, i + m));
        }
        i = i + 1;
    }
    proof {
        lemma_find_sub_none(s@, p@);
    }
    None
}

/// `t` with the first occurrence of `p`, if there is one, replaced by `c`.
pub open spec fn replace_first_spec(t: Seq<char>, p: Seq<char>, c: Seq<char>) -> Seq<char> {
    let i = find_sub_spec(t, p);
    if i < 0 {
        t
    } else {
        t.take(i) + c + t.skip(i + p.len() as int)
    }
}

/// `template` with the first occurrence of `p` replaced by `c`; the
/// template itself where `p` does not occur in it.
pub fn replace_first(template: &str, p: &str, c: &str) -> (r: String)
    ensures
        r@ == replace_first_spec(template@, p@, c@),
{
    let n = template.unicode_len();
    match find_sub(template, p) {
        Some(i) => {
            let mut acc = template.substring_char(0, i).to_owned();
            acc.append(c);
            acc.append(template.substring_char(i + p.unicode_len(), n));
            proof {
                assert(template@.subrange(0, i as int) =~= template@.take(i as int));
                assert(template@.subrange(i + p@.len() as int, n as int) =~= template@.skip(
                    i + p@.len() as int,
                ));
            }
            acc
        },
        None => template.to_owned(),
    }
}

/// Relies on `String::push`: it appends the one character to the string.
#[verifier::external_body]
pub fn push_char(s: &mut String, c: char)
    ensures
        final(s)@ == old(s)@.push(c),
{
    s.push(c);
}

} // verus!
