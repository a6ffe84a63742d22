//! The `LIKE` operator of `SHOW ... LIKE` and `SHOW ... WHERE`.

use vstd::prelude::*;

use crate::text;

verus! {

/// The pattern from position `i` on matches the text from position `j` on: `%`
/// stands for any run of characters, the empty one too, `_` for any one
/// character, and every other character for itself.
pub open spec fn matches_from(p: Seq<char>, t: Seq<char>, i: int, j: int) -> bool
    decreases p.len() - i + t.len() - j,
{
    if i >= p.len() || i < 0 || j < 0 || j > t.len() {
        i == p.len() && j == t.len()
    } else if p[i] == '%' {
        matches_from(p, t, i + 1, j) || (j < t.len() && matches_from(p, t, i, j + 1))
    } else {
        j < t.len() && (p[i] == '_' || p[i] == t[j]) && matches_from(p, t, i + 1, j + 1)
    }
}

/// `text` is like `pattern`, letters compared without regard to ASCII case.
pub open spec fn like(pattern: Seq<char>, text: Seq<char>) -> bool {
    matches_from(text::lowered(pattern), text::lowered(text), 0, 0)
}

/// The pattern characters `i..i + n` are not `%` and match the text at `j`.
spec fn run_matches(p: Seq<char>, t: Seq<char>, i: int, j: int, n: int) -> bool {
    &&& 0 <= i && i + n <= p.len() && 0 <= j && j + n <= t.len() && 0 <= n
    &&& forall|k: int| 0 <= k < n ==> #[trigger] p[i + k] != '%' && (p[i + k] == '_' || p[i + k] == t[j
        + k])
}

/// What a `%` matches at a later position it also matches from an earlier one.
proof fn star_absorbs(p: Seq<char>, t: Seq<char>, i: int, j: int, m: int)
    requires
        0 <= i < p.len(),
        p[i] == '%',
        0 <= j <= m <= t.len(),
        matches_from(p, t, i, m),
    ensures
        matches_from(p, t, i, j),
    decreases m - j,
{
    if j < m {
        star_absorbs(p, t, i, j + 1, m);
    }
}

/// A `%` that matches leaves the rest of the pattern to match somewhere.
proof fn star_splits(p: Seq<char>, t: Seq<char>, i: int, j: int) -> (k: int)
    requires
        0 <= i < p.len(),
        p[i] == '%',
        0 <= j <= t.len(),
        matches_from(p, t, i, j),
    ensures
        j <= k <= t.len(),
        matches_from(p, t, i + 1, k),
    decreases t.len() - j,
{
    if matches_from(p, t, i + 1, j) {
        j
    } else {
        star_splits(p, t, i, j + 1)
    }
}

/// A run without `%` takes as many characters of the text as it has.
proof fn run_consumes(p: Seq<char>, t: Seq<char>, i: int, j: int, n: int)
    requires
        0 <= i,
        0 <= n,
        i + n <= p.len(),
        0 <= j <= t.len(),
        forall|k: int| 0 <= k < n ==> #[trigger] p[i + k] != '%',
        matches_from(p, t, i, j),
    ensures
        j + n <= t.len(),
        matches_from(p, t, i + n, j + n),
    decreases n,
{
    if n > 0 {
        assert(p[i + 0] != '%');
        assert forall|k: int| 0 <= k < n - 1 implies #[trigger] p[(i + 1) + k] != '%' by {
            assert(p[i + (k + 1)] != '%');
        }
        run_consumes(p, t, i + 1, j + 1, n - 1);
    }
}

/// The pattern from `i` on matches nothing unless it is `%` to its end.
proof fn only_stars_match_nothing(p: Seq<char>, t: Seq<char>, i: int, e: int)
    requires
        0 <= i <= e <= p.len(),
        forall|k: int| i <= k < e ==> p[k] == '%',
        e < p.len() ==> p[e] != '%',
    ensures
        matches_from(p, t, i, t.len() as int) == (e == p.len()),
    decreases e - i,
{
    if i < e {
        only_stars_match_nothing(p, t, i + 1, e);
    }
}

/// Matches `text` against a `LIKE` pattern without regard to ASCII case. There
/// is no escape character.
pub fn like_match(pattern: &str, text: &str) -> (r: bool)
    ensures
        r == like(pattern@, text@),
{
    let p = text::to_lower(&text::chars_of(pattern));
    let t = text::to_lower(&text::chars_of(text));
    let mut pi: usize = 0;
    let mut ti: usize = 0;
    let mut star: Option<usize> = None;
    let mut star_ti: usize = 0;
    while ti < t.len()
        invariant
            p@ == text::lowered(pattern@),
            t@ == text::lowered(text@),
            pi <= p.len(),
            ti <= t.len(),
            star_ti <= ti,
            match star {
                None => matches_from(p@, t@, 0, 0) == matches_from(p@, t@, pi as int, ti as int),
                Some(s) => {
                    &&& s < p.len() && p@[s as int] == '%' && s < pi
                    &&& ti - star_ti == pi - (s + 1)
                    &&& matches_from(p@, t@, 0, 0) == matches_from(
                        p@,
                        t@,
                        s as int,
                        star_ti as int,
                    )
                    &&& run_matches(p@, t@, s + 1, star_ti as int, ti - star_ti)
                },
            },
        decreases t.len() - star_ti, t.len() - ti, p.len() - pi,
    {
        if pi < p.len() && p[pi] == '%' {
            proof {
                if let Some(s) = star {
                    // An earlier `%` need not be tried again: whatever follows
                    // it this one can absorb.
                    let n = ti - star_ti;
                    if matches_from(p@, t@, s as int, star_ti as int) {
                        let k = star_splits(p@, t@, s as int, star_ti as int);
                        run_consumes(p@, t@, s + 1, k, n);
                        star_absorbs(p@, t@, pi as int, ti as int, k + n);
                    }
                    if matches_from(p@, t@, pi as int, ti as int) {
                        run_extends(p@, t@, s + 1, star_ti as int, n);
                    }
                }
            }
            star = Some(pi);
            star_ti = ti;
            pi = pi + 1;
        } else if pi < p.len() && (p[pi] == '_' || p[pi] == t[ti]) {
            proof {
                if let Some(s) = star {
                    assert(p@[(s + 1) + (ti - star_ti)] == p@[pi as int]);
                }
            }
            pi = pi + 1;
            ti = ti + 1;
        } else if let Some(s) = star {
            proof {
                let n = ti - star_ti;
                if matches_from(p@, t@, s + 1, star_ti as int) {
                    run_consumes(p@, t@, s + 1, star_ti as int, n);
                }
            }
            pi = s + 1;
            star_ti = star_ti + 1;
            ti = star_ti;
        } else {
            return false;
        }
    }
    let ghost start = pi as int;
    while pi < p.len() && p[pi] == '%'
        invariant
            start <= pi <= p.len(),
            forall|k: int| start <= k < pi ==> p@[k] == '%',
        decreases p.len() - pi,
    {
        pi = pi + 1;
    }
    proof {
        only_stars_match_nothing(p@, t@, start, pi as int);
        if let Some(s) = star {
            let n = ti - star_ti;
            if matches_from(p@, t@, s as int, star_ti as int) {
                let k = star_splits(p@, t@, s as int, star_ti as int);
                run_consumes(p@, t@, s + 1, k, n);
            }
            if matches_from(p@, t@, start, ti as int) {
                run_extends(p@, t@, s + 1, star_ti as int, n);
            }
        }
    }
    pi == p.len()
}

/// A run that matches, followed by a match, is a match.
proof fn run_extends(p: Seq<char>, t: Seq<char>, i: int, j: int, n: int)
    requires
        run_matches(p, t, i, j, n),
        matches_from(p, t, i + n, j + n),
    ensures
        matches_from(p, t, i, j),
    decreases n,
{
    if n > 0 {
        assert(p[i + 0] != '%' && (p[i + 0] == '_' || p[i + 0] == t[j + 0]));
        assert forall|k: int| 0 <= k < n - 1 implies #[trigger] p[(i + 1) + k] != '%' && (p[(i + 1)
            + k] == '_' || p[(i + 1) + k] == t[(j + 1) + k]) by {
            assert(p[i + (k + 1)] != '%');
        }
        run_extends(p, t, i + 1, j + 1, n - 1);
    }
}

/// The pattern `%` matches every text.
pub proof fn percent_matches_everything(t: Seq<char>)
    ensures
        like(seq!['%'], t),
{
    let p = text::lowered(seq!['%']);
    let l = text::lowered(t);
    assert(p =~= seq!['%']);
    assert(matches_from(p, l, 1, l.len() as int));
    assert(matches_from(p, l, 0, l.len() as int));
    star_absorbs(p, l, 0, 0, l.len() as int);
}

/// A pattern without wildcards matches exactly the texts that differ from it at
/// most in case.
pub proof fn plain_pattern_is_equality(p: Seq<char>, t: Seq<char>)
    requires
        forall|i: int| 0 <= i < p.len() ==> p[i] != '%' && p[i] != '_',
    ensures
        like(p, t) == text::fold_eq(p, t),
{
    let a = text::lowered(p);
    let b = text::lowered(t);
    assert forall|i: int| 0 <= i < a.len() implies a[i] != '%' && a[i] != '_' by {
        assert(p[i] != '%' && p[i] != '_');
    }
    plain_run(a, b, 0);
    assert(a.skip(0) =~= a);
    assert(b.skip(0) =~= b);
}

proof fn plain_run(p: Seq<char>, t: Seq<char>, i: int)
    requires
        0 <= i <= p.len(),
        i <= t.len(),
        forall|k: int| 0 <= k < p.len() ==> p[k] != '%' && p[k] != '_',
    ensures
        matches_from(p, t, i, i) == (p.skip(i) == t.skip(i)),
    decreases p.len() - i,
{
    let a = p.skip(i);
    let b = t.skip(i);
    if i < p.len() && i < t.len() {
        plain_run(p, t, i + 1);
        assert(p.skip(i + 1) =~= a.skip(1));
        assert(t.skip(i + 1) =~= b.skip(1));
        assert(a =~= seq![p[i]] + p.skip(i + 1));
        assert(b =~= seq![t[i]] + t.skip(i + 1));
        assert(p[i] != '%' && p[i] != '_');
        assert(a[0] == p[i] && b[0] == t[i]);
        assert(matches_from(p, t, i, i) == (p[i] == t[i] && matches_from(p, t, i + 1, i + 1)));
    } else if i < p.len() {
        assert(p[i] != '%' && p[i] != '_');
        assert(a.len() != b.len());
    } else if i < t.len() {
        assert(a.len() != b.len());
    } else {
        assert(a =~= b);
    }
}

// ---------------------------------------------------------------------------
// What each character of a pattern stands for
// ---------------------------------------------------------------------------
proof fn matching_shifts(
    x: Seq<char>,
    p: Seq<char>,
    y: Seq<char>,
    t: Seq<char>,
    i: int,
    j: int,
)
    requires
        0 <= i <= p.len(),
        0 <= j <= t.len(),
    ensures
        matches_from(x + p, y + t, x.len() + i, y.len() + j) == matches_from(p, t, i, j),
    decreases p.len() - i + t.len() - j,
{
    if i < p.len() {
        assert((x + p)[x.len() + i] == p[i]);
        if j < t.len() {
            assert((y + t)[y.len() + j] == t[j]);
        }
        if p[i] == '%' {
            matching_shifts(x, p, y, t, i + 1, j);
            if j < t.len() {
                matching_shifts(x, p, y, t, i, j + 1);
            }
        } else if j < t.len() {
            matching_shifts(x, p, y, t, i + 1, j + 1);
        }
    }
}

proof fn matching_the_rest(c: char, p: Seq<char>, t: Seq<char>, k: int)
    requires
        0 <= k <= t.len(),
    ensures
        matches_from(text::lowered(seq![c] + p), text::lowered(t), 1, k) == like(p, t.skip(k)),
{
    let a = text::lowered(p);
    let l = text::lowered(t);
    let x = seq![text::lower_char(c)];
    assert(text::lowered(seq![c] + p) =~= x + a);
    assert(text::lowered(t.skip(k)) =~= l.skip(k));
    assert(l =~= l.take(k) + l.skip(k));
    matching_shifts(x, a, l.take(k), l.skip(k), 0, 0);
}

/// An empty pattern matches the empty text only; `_` matches any one character; a
/// character that is no wildcard matches itself in either case.
pub proof fn characters_match_one(c: char, p: Seq<char>, t: Seq<char>)
    requires
        c != '%',
    ensures
        like(Seq::<char>::empty(), t) <==> t.len() == 0,
        like(seq!['_'] + p, t) <==> t.len() > 0 && like(p, t.skip(1)),
        c != '_' ==> (like(seq![c] + p, t) <==> t.len() > 0 && text::lower_char(c)
            == text::lower_char(t[0]) && like(p, t.skip(1))),
{
    let l = text::lowered(t);
    assert(text::lowered(Seq::<char>::empty()) =~= Seq::<char>::empty());
    let a = text::lowered(seq!['_'] + p);
    let b = text::lowered(seq![c] + p);
    assert(a[0] == '_');
    assert(b[0] == text::lower_char(c));
    if t.len() > 0 {
        matching_the_rest('_', p, t, 1);
        matching_the_rest(c, p, t, 1);
        assert(l[0] == text::lower_char(t[0]));
    }
}

/// `%` matches any run of characters, the empty one too: what follows it in the
/// pattern matches some end of the text.
pub proof fn percent_matches_any_run(p: Seq<char>, t: Seq<char>)
    ensures
        like(seq!['%'] + p, t) <==> exists|k: int|
            0 <= k <= t.len() && like(p, #[trigger] t.skip(k)),
{
    let a = text::lowered(seq!['%'] + p);
    let l = text::lowered(t);
    assert(a[0] == '%');
    if like(seq!['%'] + p, t) {
        let k = star_splits(a, l, 0, 0);
        matching_the_rest('%', p, t, k);
        assert(like(p, t.skip(k)));
    }
    if exists|k: int| 0 <= k <= t.len() && like(p, #[trigger] t.skip(k)) {
        let k = choose|k: int| 0 <= k <= t.len() && like(p, #[trigger] t.skip(k));
        matching_the_rest('%', p, t, k);
        assert(matches_from(a, l, 0, k));
        star_absorbs(a, l, 0, 0, k);
    }
}

} // verus!
