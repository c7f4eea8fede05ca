//! Substring replacement over character sequences.
use vstd::prelude::*;

verus! {

/// Whether `pat` occurs in `s` starting at index `i`.
pub open spec fn occurs_at(s: Seq<char>, pat: Seq<char>, i: int) -> bool {
    0 <= i && i + pat.len() <= s.len() && s.subrange(i, i + pat.len()) == pat
}

/// Whether `pat` occurs anywhere in `s`.
pub open spec fn occurs_in(s: Seq<char>, pat: Seq<char>) -> bool {
    exists|i: int| occurs_at(s, pat, i)
}

/// `s` with every occurrence of the non-empty `pat` replaced by `rep`, the
/// occurrences taken from left to right without overlap (as `str::replace`
/// does).
pub open spec fn replace_all(s: Seq<char>, pat: Seq<char>, rep: Seq<char>) -> Seq<char>
    decreases s.len(),
{
    if pat.len() == 0 || s.len() < pat.len() {
        s
    } else if s.take(pat.len() as int) == pat {
        rep + replace_all(s.skip(pat.len() as int), pat, rep)
    } else {
        seq![s[0]] + replace_all(s.skip(1), pat, rep)
    }
}

/// Replacing finds nothing to replace in a sequence where `pat` does not occur.
pub proof fn lemma_replace_all_absent(s: Seq<char>, pat: Seq<char>, rep: Seq<char>)
    requires
        pat.len() > 0,
        !occurs_in(s, pat),
    ensures
        replace_all(s, pat, rep) == s,
    decreases s.len(),
{
    if s.len() >= pat.len() {
        assert(s.take(pat.len() as int) == s.subrange(0, pat.len() as int));
        assert(!occurs_at(s, pat, 0));
        let t = s.skip(1);
        assert forall|k: int| !occurs_at(t, pat, k) by {
            if occurs_at(t, pat, k) {
                assert(s.subrange(k + 1, k + 1 + pat.len()) == t.subrange(k, k + pat.len()));
                assert(occurs_at(s, pat, k + 1));
            }
        }
        lemma_replace_all_absent(t, pat, rep);
        assert(s == seq![s[0]] + t);
    }
}

/// A non-empty sequence stays non-empty when the replacement is non-empty.
pub proof fn lemma_replace_all_nonempty(s: Seq<char>, pat: Seq<char>, rep: Seq<char>)
    requires
        pat.len() > 0,
        rep.len() > 0,
        s.len() > 0,
    ensures
        replace_all(s, pat, rep).len() > 0,
{
}

/// The window `out[k..k + n]` holds a character of `rep` or is a window of `s`.
pub open spec fn window_from(out: Seq<char>, s: Seq<char>, rep: Seq<char>, k: int, n: int) -> bool {
    ||| exists|m: int| k <= m < k + n && rep.contains(#[trigger] out[m])
    ||| exists|j: int| 0 <= j && j + n <= s.len() && out.subrange(k, k + n) == #[trigger] s.subrange(j, j + n)
}

/// Every window of `a + replace_all(s, pat, rep)` either holds a character of
/// `rep` or is a window of `a + s`.
proof fn lemma_replace_window(a: Seq<char>, s: Seq<char>, pat: Seq<char>, rep: Seq<char>, k: int, n: int)
    requires
        pat.len() > 0,
        rep.len() > 0,
        0 <= k,
        0 < n,
        k + n <= (a + replace_all(s, pat, rep)).len(),
    ensures
        window_from(a + replace_all(s, pat, rep), a + s, rep, k, n),
    decreases s.len(),
{
    let out = a + replace_all(s, pat, rep);
    let la = a.len() as int;
    if s.len() < pat.len() {
        assert(out.subrange(k, k + n) == (a + s).subrange(k, k + n));
        assert(window_from(out, a + s, rep, k, n));
    } else if s.take(pat.len() as int) == pat {
        let t = s.skip(pat.len() as int);
        let r1 = replace_all(t, pat, rep);
        let lr = rep.len() as int;
        assert(out == a + rep + r1);
        if k + n <= la {
            assert(out.subrange(k, k + n) == (a + s).subrange(k, k + n));
            assert(window_from(out, a + s, rep, k, n));
        } else if k < la + lr {
            let m = if k < la {
                la
            } else {
                k
            };
            assert(out[m] == rep[m - la]);
            assert(rep.contains(out[m]));
            assert(window_from(out, a + s, rep, k, n));
        } else {
            let e = Seq::<char>::empty();
            let k1 = k - la - lr;
            assert(e + r1 == r1);
            assert(e + t == t);
            lemma_replace_window(e, t, pat, rep, k1, n);
            assert(window_from(r1, t, rep, k1, n));
            if exists|m: int| k1 <= m < k1 + n && rep.contains(#[trigger] r1[m]) {
                let m = choose|m: int| k1 <= m < k1 + n && rep.contains(#[trigger] r1[m]);
                assert(out[m + la + lr] == r1[m]);
                assert(rep.contains(out[m + la + lr]));
            } else {
                let j = choose|j: int|
                    0 <= j && j + n <= t.len() && r1.subrange(k1, k1 + n) == #[trigger] t.subrange(j, j + n);
                assert(out.subrange(k, k + n) == r1.subrange(k1, k1 + n));
                assert(t.subrange(j, j + n) == (a + s).subrange(la + pat.len() + j, la + pat.len() + j + n));
            }
            assert(window_from(out, a + s, rep, k, n));
        }
    } else {
        let a2 = a.push(s[0]);
        let t = s.skip(1);
        assert(out == a2 + replace_all(t, pat, rep));
        assert(a2 + t == a + s);
        lemma_replace_window(a2, t, pat, rep, k, n);
        assert(window_from(out, a + s, rep, k, n));
    }
}

/// A pattern with no character of `rep` that does not occur before replacing
/// does not occur after.
pub proof fn lemma_replace_keeps_absent(s: Seq<char>, pat: Seq<char>, rep: Seq<char>, p: Seq<char>)
    requires
        pat.len() > 0,
        rep.len() > 0,
        p.len() > 0,
        forall|i: int| 0 <= i < p.len() ==> !rep.contains(#[trigger] p[i]),
        !occurs_in(s, p),
    ensures
        !occurs_in(replace_all(s, pat, rep), p),
{
    let out = replace_all(s, pat, rep);
    let e = Seq::<char>::empty();
    assert(e + out == out);
    assert(e + s == s);
    assert forall|k: int| !occurs_at(out, p, k) by {
        if occurs_at(out, p, k) {
            lemma_replace_window(e, s, pat, rep, k, p.len() as int);
            if exists|m: int| k <= m < k + p.len() && rep.contains((e + out)[m]) {
                let m = choose|m: int| k <= m < k + p.len() && rep.contains((e + out)[m]);
                assert(out[m] == out.subrange(k, k + p.len())[m - k]);
            } else {
                let j = choose|j: int|
                    0 <= j && j + p.len() <= (e + s).len() && (e + out).subrange(k, k + p.len())
                        == #[trigger] (e + s).subrange(j, j + p.len());
                assert(occurs_at(s, p, j));
            }
        }
    }
}

/// After replacing, `pat` occurs nowhere in `a + replace_all(s, pat, rep)`,
/// when it occurs in `a + s` at no index inside `a` and shares no character
/// with `rep`.
proof fn lemma_replace_removes(a: Seq<char>, s: Seq<char>, pat: Seq<char>, rep: Seq<char>)
    requires
        pat.len() > 0,
        rep.len() > 0,
        forall|i: int| 0 <= i < pat.len() ==> !rep.contains(#[trigger] pat[i]),
        forall|k: int| 0 <= k < a.len() ==> !occurs_at(a + s, pat, k),
    ensures
        !occurs_in(a + replace_all(s, pat, rep), pat),
    decreases s.len(),
{
    let out = a + replace_all(s, pat, rep);
    let la = a.len() as int;
    let lp = pat.len() as int;
    if s.len() < pat.len() {
        assert forall|k: int| !occurs_at(out, pat, k) by {
            if occurs_at(out, pat, k) && k < la {
                assert(occurs_at(a + s, pat, k));
            }
        }
    } else if s.take(pat.len() as int) == pat {
        let t = s.skip(pat.len() as int);
        let r1 = replace_all(t, pat, rep);
        let lr = rep.len() as int;
        let e = Seq::<char>::empty();
        assert(e + r1 == r1);
        assert(e + t == t);
        lemma_replace_removes(e, t, pat, rep);
        assert(out == a + rep + r1);
        assert forall|k: int| !occurs_at(out, pat, k) by {
            if occurs_at(out, pat, k) {
                if k + lp <= la {
                    assert(out.subrange(k, k + lp) == (a + s).subrange(k, k + lp));
                    assert(occurs_at(a + s, pat, k));
                } else if k < la + lr {
                    let m = if k < la {
                        la
                    } else {
                        k
                    };
                    assert(out[m] == rep[m - la]);
                    assert(out[m] == out.subrange(k, k + lp)[m - k]);
                    assert(rep.contains(pat[m - k]));
                } else {
                    assert(out.subrange(k, k + lp) == r1.subrange(k - la - lr, k - la - lr + lp));
                    assert(occurs_at(r1, pat, k - la - lr));
                }
            }
        }
    } else {
        let a2 = a.push(s[0]);
        let t = s.skip(1);
        assert(out == a2 + replace_all(t, pat, rep));
        assert(a2 + t == a + s);
        assert(s.take(lp) == (a + s).subrange(la, la + lp));
        lemma_replace_removes(a2, t, pat, rep);
    }
}

/// Replacing `pat` by a `rep` that shares no character with it leaves no
/// occurrence of `pat`.
pub proof fn lemma_replace_all_leaves_none(s: Seq<char>, pat: Seq<char>, rep: Seq<char>)
    requires
        pat.len() > 0,
        rep.len() > 0,
        forall|i: int| 0 <= i < pat.len() ==> !rep.contains(#[trigger] pat[i]),
    ensures
        !occurs_in(replace_all(s, pat, rep), pat),
{
    let e = Seq::<char>::empty();
    assert(e + s == s);
    assert(e + replace_all(s, pat, rep) == replace_all(s, pat, rep));
    lemma_replace_removes(e, s, pat, rep);
}

/// Whether every character of `p` is ASCII.
pub open spec fn is_ascii_seq(p: Seq<char>) -> bool {
    forall|i: int| 0 <= i < p.len() ==> #[trigger] p[i] <= '\x7f'
}

/// Every non-empty ASCII pattern absent from `s` is absent from `t` too.
pub open spec fn absences_kept(s: Seq<char>, t: Seq<char>) -> bool {
    forall|p: Seq<char>|
        p.len() > 0 && is_ascii_seq(p) && !occurs_in(s, p) ==> !#[trigger] occurs_in(t, p)
}

/// Replacing with a single non-ASCII character creates no ASCII pattern.
pub proof fn lemma_replace_glyph_keeps_absences(s: Seq<char>, pat: Seq<char>, c: char)
    requires
        pat.len() > 0,
        c > '\x7f',
    ensures
        absences_kept(s, replace_all(s, pat, seq![c])),
{
    assert forall|p: Seq<char>|
        p.len() > 0 && is_ascii_seq(p) && !occurs_in(s, p) implies !#[trigger] occurs_in(
        replace_all(s, pat, seq![c]),
        p,
    ) by {
        assert forall|i: int| 0 <= i < p.len() implies !seq![c].contains(#[trigger] p[i]) by {
            if seq![c].contains(p[i]) {
                let j = choose|j: int| 0 <= j < 1 && seq![c][j] == p[i];
                assert(p[i] <= '\x7f');
            }
        }
        lemma_replace_keeps_absent(s, pat, seq![c], p);
    }
}

/// Renaming characters by `g` commutes with replacing `pat`, when `g` keeps
/// every character of `pat` and renames nothing else into one.
pub proof fn lemma_replace_all_map(s: Seq<char>, pat: Seq<char>, rep: Seq<char>, g: spec_fn(char) -> char)
    requires
        pat.len() > 0,
        forall|i: int| 0 <= i < pat.len() ==> g(#[trigger] pat[i]) == pat[i],
        forall|c: char, i: int| 0 <= i < pat.len() && #[trigger] g(c) == #[trigger] pat[i] ==> c == pat[i],
    ensures
        replace_all(s, pat, rep).map_values(g) == replace_all(s.map_values(g), pat, rep.map_values(g)),
    decreases s.len(),
{
    let t = s.map_values(g);
    let lp = pat.len() as int;
    if s.len() < pat.len() {
    } else {
        let matched = s.take(lp) == pat;
        assert(t.take(lp) == pat <==> matched) by {
            if matched {
                assert forall|i: int| 0 <= i < lp implies t.take(lp)[i] == pat[i] by {
                    assert(s.take(lp)[i] == s[i]);
                }
                assert(t.take(lp) =~= pat);
            }
            if t.take(lp) == pat {
                assert forall|i: int| 0 <= i < lp implies s.take(lp)[i] == pat[i] by {
                    assert(t.take(lp)[i] == g(s[i]));
                }
                assert(s.take(lp) =~= pat);
            }
        }
        if matched {
            lemma_replace_all_map(s.skip(lp), pat, rep, g);
            assert(t.skip(lp) =~= s.skip(lp).map_values(g));
            assert((rep + replace_all(s.skip(lp), pat, rep)).map_values(g) =~= rep.map_values(g)
                + replace_all(s.skip(lp), pat, rep).map_values(g));
        } else {
            lemma_replace_all_map(s.skip(1), pat, rep, g);
            assert(t.skip(1) =~= s.skip(1).map_values(g));
            assert((seq![s[0]] + replace_all(s.skip(1), pat, rep)).map_values(g) =~= seq![t[0]]
                + replace_all(s.skip(1), pat, rep).map_values(g));
        }
    }
}

/// Whether `pat` occurs in `s` at index `i`.
pub fn matches_at(s: &[char], i: usize, pat: &[char]) -> (r: bool)
    requires
        i + pat@.len() <= s@.len(),
    ensures
        r == occurs_at(s@, pat@, i as int),
{
    let n = s.len();
    let mut k: usize = 0;
    while k < pat.len()
        invariant
            n == s@.len(),
            i + pat@.len() <= s@.len(),
            k <= pat@.len(),
            forall|m: int| 0 <= m < k ==> s@[i + m] == pat@[m],
        decreases pat.len() - k,
    {
        if s[i + k] != pat[k] {
            assert(s@.subrange(i as int, i + pat@.len())[k as int] != pat@[k as int]);
            return false;
        }
        k += 1;
    }
    assert(s@.subrange(i as int, i + pat@.len()) =~= pat@);
    true
}

/// Replaces every occurrence of `pat` in `s` by `rep`, left to right.
pub fn replace_all_chars(s: &[char], pat: &[char], rep: &[char]) -> (r: Vec<char>)
    requires
        pat@.len() > 0,
    ensures
        r@ == replace_all(s@, pat@, rep@),
{
    let mut out: Vec<char> = Vec::new();
    let mut i: usize = 0;
    assert(s@.skip(0) == s@);
    while i < s.len()
        invariant
            pat@.len() > 0,
            i <= s@.len(),
            out@ + replace_all(s@.skip(i as int), pat@, rep@) == replace_all(s@, pat@, rep@),
        decreases s.len() - i,
    {
        let ghost rest = s@.skip(i as int);
        if s.len() - i >= pat.len() && matches_at(s, i, pat) {
            assert(rest.take(pat@.len() as int) == s@.subrange(i as int, i + pat@.len()));
            assert(rest.skip(pat@.len() as int) == s@.skip(i + pat@.len()));
            let mut k: usize = 0;
            let ghost before = out@;
            while k < rep.len()
                invariant
                    k <= rep@.len(),
                    out@ == before + rep@.take(k as int),
                decreases rep.len() - k,
            {
                out.push(rep[k]);
                assert(rep@.take(k + 1) == rep@.take(k as int).push(rep@[k as int]));
                k += 1;
            }
            assert(rep@.take(rep@.len() as int) == rep@);
            assert(out@ + replace_all(s@.skip(i + pat@.len()), pat@, rep@) == before + (rep@
                + replace_all(rest.skip(pat@.len() as int), pat@, rep@)));
            i += pat.len();
        } else {
            if s.len() - i >= pat.len() {
                assert(rest.take(pat@.len() as int) == s@.subrange(i as int, i + pat@.len()));
            }
            assert(rest.skip(1) == s@.skip(i + 1));
            assert(rest == seq![rest[0]] + rest.skip(1));
            let ghost before = out@;
            out.push(s[i]);
            assert(out@ + replace_all(s@.skip(i + 1), pat@, rep@) == before + (seq![rest[0]]
                + replace_all(rest.skip(1), pat@, rep@)));
            i += 1;
        }
    }
    assert(s@.skip(s@.len() as int) == Seq::<char>::empty());
    assert(out@ + Seq::<char>::empty() == out@);
    out
}

} // verus!
