use vstd::prelude::*;

use core::cmp::Ordering;

use crate::text::is_digit_char;

verus! {

/// The opposite of a comparison outcome.
pub open spec fn flip(o: Ordering) -> Ordering {
    match o {
        Ordering::Less => Ordering::Greater,
        Ordering::Equal => Ordering::Equal,
        Ordering::Greater => Ordering::Less,
    }
}

/// Comparison of two integers.
pub open spec fn cmp_int(a: int, b: int) -> Ordering {
    if a < b {
        Ordering::Less
    } else if a == b {
        Ordering::Equal
    } else {
        Ordering::Greater
    }
}

/// Comparison of two characters, by code point.
pub open spec fn cmp_char(a: char, b: char) -> Ordering {
    if a < b {
        Ordering::Less
    } else if a == b {
        Ordering::Equal
    } else {
        Ordering::Greater
    }
}

/// Plain lexicographic comparison of two character sequences.
pub open spec fn cmp_lex(a: Seq<char>, b: Seq<char>) -> Ordering
    decreases a.len(),
{
    if a.len() == 0 && b.len() == 0 {
        Ordering::Equal
    } else if a.len() == 0 {
        Ordering::Less
    } else if b.len() == 0 {
        Ordering::Greater
    } else {
        match cmp_char(a[0], b[0]) {
            Ordering::Equal => cmp_lex(a.drop_first(), b.drop_first()),
            o => o,
        }
    }
}

/// The length of the run of digits that starts a sequence.
pub open spec fn run_len(s: Seq<char>) -> int
    decreases s.len(),
{
    if s.len() > 0 && is_digit_char(s[0]) {
        1 + run_len(s.drop_first())
    } else {
        0
    }
}

/// A sequence with its leading zero characters removed.
pub open spec fn strip_zeros(s: Seq<char>) -> Seq<char>
    decreases s.len(),
{
    if s.len() > 0 && s[0] == '0' {
        strip_zeros(s.drop_first())
    } else {
        s
    }
}

/// Numeric comparison of two digit runs: leading zeroes are ignored;
/// a longer remainder is the larger number, and remainders of equal
/// length compare digit by digit.
pub open spec fn cmp_runs(a: Seq<char>, b: Seq<char>) -> Ordering {
    let sa = strip_zeros(a);
    let sb = strip_zeros(b);
    if sa.len() != sb.len() {
        cmp_int(sa.len() as int, sb.len() as int)
    } else {
        cmp_lex(sa, sb)
    }
}

/// Natural-order comparison of two character sequences: runs of digits
/// are compared as numbers, everything else character by character.
pub open spec fn nat_cmp(a: Seq<char>, b: Seq<char>) -> Ordering
    decreases a.len() + b.len(),
    via nat_cmp_decreases
{
    if a.len() == 0 && b.len() == 0 {
        Ordering::Equal
    } else if a.len() == 0 {
        Ordering::Less
    } else if b.len() == 0 {
        Ordering::Greater
    } else if is_digit_char(a[0]) && is_digit_char(b[0]) {
        match cmp_runs(a.take(run_len(a)), b.take(run_len(b))) {
            Ordering::Equal => nat_cmp(a.skip(run_len(a)), b.skip(run_len(b))),
            o => o,
        }
    } else {
        match cmp_char(a[0], b[0]) {
            Ordering::Equal => nat_cmp(a.drop_first(), b.drop_first()),
            o => o,
        }
    }
}

/// The digit run of a sequence is never longer than the sequence, and
/// is non-empty exactly when the sequence starts with a digit.
pub proof fn lemma_run_len_bounds(s: Seq<char>)
    ensures
        0 <= run_len(s) <= s.len(),
        s.len() > 0 && is_digit_char(s[0]) ==> run_len(s) >= 1,
        forall|i: int| 0 <= i < run_len(s) ==> is_digit_char(s[i]),
        run_len(s) < s.len() ==> !is_digit_char(s[run_len(s)]),
    decreases s.len(),
{
    if s.len() > 0 && is_digit_char(s[0]) {
        lemma_run_len_bounds(s.drop_first());
        assert forall|i: int| 0 <= i < run_len(s) implies is_digit_char(s[i]) by {
            if i > 0 {
                assert(s.drop_first()[i - 1] == s[i]);
            }
        }
        if run_len(s) < s.len() {
            assert(s.drop_first()[run_len(s) - 1] == s[run_len(s)]);
        }
    }
}

#[via_fn]
proof fn nat_cmp_decreases(a: Seq<char>, b: Seq<char>) {
    lemma_run_len_bounds(a);
    lemma_run_len_bounds(b);
}

/// A run of digits placed before any suffix is what `run_len` finds,
/// when the suffix does not begin with a digit.
pub proof fn lemma_run_len_at(s: Seq<char>, k: int)
    requires
        0 <= k <= s.len(),
        forall|i: int| 0 <= i < k ==> is_digit_char(s[i]),
        k == s.len() || !is_digit_char(s[k]),
    ensures
        run_len(s) == k,
    decreases k,
{
    if k == 0 {
    } else {
        lemma_run_len_at(s.drop_first(), k - 1);
    }
}

/// Stripping zeroes removes exactly the leading zero characters.
pub proof fn lemma_strip_zeros_at(s: Seq<char>, k: int)
    requires
        0 <= k <= s.len(),
        forall|i: int| 0 <= i < k ==> s[i] == '0',
        k == s.len() || s[k] != '0',
    ensures
        strip_zeros(s) == s.skip(k),
    decreases k,
{
    if k == 0 {
        assert(s.skip(0) =~= s);
    } else {
        lemma_strip_zeros_at(s.drop_first(), k - 1);
        assert(s.drop_first().skip(k - 1) =~= s.skip(k));
    }
}

/// Exchanging the arguments of a lexicographic comparison flips its
/// outcome.
pub proof fn lemma_lex_flip(a: Seq<char>, b: Seq<char>)
    ensures
        cmp_lex(b, a) == flip(cmp_lex(a, b)),
    decreases a.len() + b.len(),
{
    if a.len() > 0 && b.len() > 0 {
        lemma_lex_flip(a.drop_first(), b.drop_first());
    }
}

/// Lexicographic comparison is transitive, and a strict outcome on
/// either side keeps the combined outcome strict.
pub proof fn lemma_lex_trans(a: Seq<char>, b: Seq<char>, c: Seq<char>)
    requires
        cmp_lex(a, b) != Ordering::Greater,
        cmp_lex(b, c) != Ordering::Greater,
    ensures
        cmp_lex(a, c) != Ordering::Greater,
        cmp_lex(a, b) == Ordering::Less || cmp_lex(b, c) == Ordering::Less ==> cmp_lex(a, c)
            == Ordering::Less,
    decreases a.len() + b.len() + c.len(),
{
    if a.len() == 0 {
        if c.len() > 0 {
        }
    } else {
        if b.len() == 0 {
            assert(cmp_lex(a, b) == Ordering::Greater);
        } else if c.len() == 0 {
            assert(cmp_lex(b, c) == Ordering::Greater);
        } else {
            if cmp_char(a[0], b[0]) == Ordering::Equal && cmp_char(b[0], c[0])
                == Ordering::Equal {
                lemma_lex_trans(a.drop_first(), b.drop_first(), c.drop_first());
            }
        }
    }
}

/// Exchanging the arguments of a run comparison flips its outcome.
pub proof fn lemma_runs_flip(a: Seq<char>, b: Seq<char>)
    ensures
        cmp_runs(b, a) == flip(cmp_runs(a, b)),
{
    lemma_lex_flip(strip_zeros(a), strip_zeros(b));
}

/// Run comparison is transitive, and a strict outcome on either side
/// keeps the combined outcome strict.
pub proof fn lemma_runs_trans(a: Seq<char>, b: Seq<char>, c: Seq<char>)
    requires
        cmp_runs(a, b) != Ordering::Greater,
        cmp_runs(b, c) != Ordering::Greater,
    ensures
        cmp_runs(a, c) != Ordering::Greater,
        cmp_runs(a, b) == Ordering::Less || cmp_runs(b, c) == Ordering::Less ==> cmp_runs(a, c)
            == Ordering::Less,
{
    let sa = strip_zeros(a);
    let sb = strip_zeros(b);
    let sc = strip_zeros(c);
    if sa.len() == sb.len() && sb.len() == sc.len() {
        lemma_lex_trans(sa, sb, sc);
    }
}

/// Exchanging the arguments of a natural-order comparison flips its
/// outcome.
pub proof fn lemma_nat_cmp_flip(a: Seq<char>, b: Seq<char>)
    ensures
        nat_cmp(b, a) == flip(nat_cmp(a, b)),
    decreases a.len() + b.len(),
{
    lemma_run_len_bounds(a);
    lemma_run_len_bounds(b);
    if a.len() == 0 || b.len() == 0 {
    } else if is_digit_char(a[0]) && is_digit_char(b[0]) {
        lemma_runs_flip(a.take(run_len(a)), b.take(run_len(b)));
        if cmp_runs(a.take(run_len(a)), b.take(run_len(b))) == Ordering::Equal {
            lemma_nat_cmp_flip(a.skip(run_len(a)), b.skip(run_len(b)));
        }
    } else {
        if cmp_char(a[0], b[0]) == Ordering::Equal {
            lemma_nat_cmp_flip(a.drop_first(), b.drop_first());
        }
    }
}

/// The first character of a digit run is a digit; what a non-digit
/// character compares against one digit it compares against all.
proof fn lemma_digit_char_split(d: char, c: char)
    requires
        is_digit_char(d),
        !is_digit_char(c),
    ensures
        c < d ==> c < '0',
        d < c ==> '9' < c,
        c != d,
{
}

/// Natural-order comparison is transitive.
pub proof fn lemma_nat_cmp_trans(a: Seq<char>, b: Seq<char>, c: Seq<char>)
    requires
        nat_cmp(a, b) != Ordering::Greater,
        nat_cmp(b, c) != Ordering::Greater,
    ensures
        nat_cmp(a, c) != Ordering::Greater,
    decreases a.len() + b.len() + c.len(),
{
    lemma_run_len_bounds(a);
    lemma_run_len_bounds(b);
    lemma_run_len_bounds(c);
    if a.len() == 0 {
        // `a` compares at or below everything.
    } else if b.len() == 0 {
        assert(nat_cmp(a, b) == Ordering::Greater);
    } else if c.len() == 0 {
        assert(nat_cmp(b, c) == Ordering::Greater);
    } else {
        let da = is_digit_char(a[0]);
        let db = is_digit_char(b[0]);
        let dc = is_digit_char(c[0]);
        if da && db && dc {
            let ra = a.take(run_len(a));
            let rb = b.take(run_len(b));
            let rc = c.take(run_len(c));
            lemma_runs_trans(ra, rb, rc);
            if cmp_runs(ra, rb) == Ordering::Equal && cmp_runs(rb, rc) == Ordering::Equal {
                lemma_nat_cmp_trans(
                    a.skip(run_len(a)),
                    b.skip(run_len(b)),
                    c.skip(run_len(c)),
                );
            }
        } else if da && db && !dc {
            // `b` starts with a digit and sits at or below `c`, so
            // `c`'s first character lies above every digit.
            lemma_digit_char_split(b[0], c[0]);
            lemma_digit_char_split(a[0], c[0]);
        } else if da && !db && dc {
            // Impossible: a non-digit above a digit lies above every
            // digit, and below one lies below every digit.
            lemma_digit_char_split(a[0], b[0]);
            lemma_digit_char_split(c[0], b[0]);
        } else if da && !db && !dc {
            lemma_digit_char_split(a[0], b[0]);
        } else if !da && db && dc {
            lemma_digit_char_split(b[0], a[0]);
            lemma_digit_char_split(c[0], a[0]);
        } else if !da && db && !dc {
            lemma_digit_char_split(b[0], a[0]);
            lemma_digit_char_split(b[0], c[0]);
        } else if !da && !db && dc {
            lemma_digit_char_split(c[0], b[0]);
        } else {
            if cmp_char(a[0], b[0]) == Ordering::Equal && cmp_char(b[0], c[0])
                == Ordering::Equal {
                lemma_nat_cmp_trans(a.drop_first(), b.drop_first(), c.drop_first());
            }
        }
    }
}


/// Whether a character is a decimal digit.
fn is_digit(c: char) -> (r: bool)
    ensures
        r == is_digit_char(c),
{
    '0' <= c && c <= '9'
}

/// The position at which the digit run starting at `start` ends.
fn run_end(v: &Vec<char>, start: usize) -> (r: usize)
    requires
        start <= v@.len(),
    ensures
        start <= r <= v@.len(),
        r - start == run_len(v@.skip(start as int)),
        forall|k: int| start <= k < r ==> is_digit_char(v@[k]),
        r < v@.len() ==> !is_digit_char(v@[r as int]),
{
    let n = v.len();
    let mut e = start;
    while e < n && is_digit(v[e])
        invariant
            start <= e <= n,
            n == v@.len(),
            forall|k: int| start <= k < e ==> is_digit_char(v@[k]),
        decreases n - e,
    {
        e = e + 1;
    }
    proof {
        let s = v@.skip(start as int);
        assert forall|k: int| 0 <= k < e - start implies is_digit_char(s[k]) by {
            assert(s[k] == v@[start + k]);
        }
        if e < n {
            assert(s[e - start] == v@[e as int]);
        }
        lemma_run_len_at(s, e - start);
    }
    e
}

/// Compares the digit runs `a[ai..ae)` and `b[bi..be)` as numbers.
fn compare_runs(a: &Vec<char>, ai: usize, ae: usize, b: &Vec<char>, bi: usize, be: usize) -> (r:
    Ordering)
    requires
        ai <= ae <= a@.len(),
        bi <= be <= b@.len(),
    ensures
        r == cmp_runs(a@.subrange(ai as int, ae as int), b@.subrange(bi as int, be as int)),
{
    let ghost ra = a@.subrange(ai as int, ae as int);
    let ghost rb = b@.subrange(bi as int, be as int);
    let mut zi = ai;
    while zi < ae && a[zi] == '0'
        invariant
            ai <= zi <= ae <= a@.len(),
            forall|k: int| ai <= k < zi ==> a@[k] == '0',
        decreases ae - zi,
    {
        zi = zi + 1;
    }
    let mut zj = bi;
    while zj < be && b[zj] == '0'
        invariant
            bi <= zj <= be <= b@.len(),
            forall|k: int| bi <= k < zj ==> b@[k] == '0',
        decreases be - zj,
    {
        zj = zj + 1;
    }
    proof {
        assert forall|k: int| 0 <= k < zi - ai implies ra[k] == '0' by {
            assert(ra[k] == a@[ai + k]);
        }
        if zi < ae {
            assert(ra[zi - ai] == a@[zi as int]);
        }
        lemma_strip_zeros_at(ra, zi - ai);
        assert(strip_zeros(ra) =~= a@.subrange(zi as int, ae as int));
        assert forall|k: int| 0 <= k < zj - bi implies rb[k] == '0' by {
            assert(rb[k] == b@[bi + k]);
        }
        if zj < be {
            assert(rb[zj - bi] == b@[zj as int]);
        }
        lemma_strip_zeros_at(rb, zj - bi);
        assert(strip_zeros(rb) =~= b@.subrange(zj as int, be as int));
    }
    let ghost za = strip_zeros(ra);
    let ghost zb = strip_zeros(rb);
    let la = ae - zi;
    let lb = be - zj;
    if la < lb {
        return Ordering::Less;
    } else if la > lb {
        return Ordering::Greater;
    }
    let mut k: usize = 0;
    assert(za.skip(0) =~= za);
    assert(zb.skip(0) =~= zb);
    while k < la
        invariant
            0 <= k <= la,
            la == lb,
            ai <= zi,
            bi <= zj,
            zi + la == ae <= a@.len(),
            zj + lb == be <= b@.len(),
            ra == a@.subrange(ai as int, ae as int),
            rb == b@.subrange(bi as int, be as int),
            za == a@.subrange(zi as int, ae as int),
            zb == b@.subrange(zj as int, be as int),
            za.len() == la,
            zb.len() == lb,
            cmp_runs(ra, rb) == cmp_lex(za.skip(k as int), zb.skip(k as int)),
        decreases la - k,
    {
        let ca = a[zi + k];
        let cb = b[zj + k];
        let ghost ska = za.skip(k as int);
        let ghost skb = zb.skip(k as int);
        proof {
            assert(ska[0] == za[k as int] && za[k as int] == a@[zi + k]);
            assert(skb[0] == zb[k as int] && zb[k as int] == b@[zj + k]);
        }
        if ca < cb {
            proof {
                assert(ska.len() > 0 && skb.len() > 0);
                assert(cmp_char(ska[0], skb[0]) == Ordering::Less);
                assert(cmp_lex(ska, skb) == Ordering::Less);
                assert(cmp_runs(ra, rb) == Ordering::Less);
            }
            return Ordering::Less;
        } else if cb < ca {
            proof {
                assert(ska.len() > 0 && skb.len() > 0);
                assert(cmp_char(ska[0], skb[0]) == Ordering::Greater);
                assert(cmp_lex(ska, skb) == Ordering::Greater);
                assert(cmp_runs(ra, rb) == Ordering::Greater);
            }
            return Ordering::Greater;
        }
        proof {
            assert(cmp_char(ska[0], skb[0]) == Ordering::Equal);
            assert(ska.drop_first() =~= za.skip(k + 1));
            assert(skb.drop_first() =~= zb.skip(k + 1));
        }
        k = k + 1;
    }
    proof {
        assert(za.skip(la as int) =~= Seq::<char>::empty());
        assert(zb.skip(lb as int) =~= Seq::<char>::empty());
    }
    Ordering::Equal
}

/// Natural-order comparison over character vectors, the executable
/// form of `nat_cmp`.
pub fn natural_compare_chars(a: &Vec<char>, b: &Vec<char>) -> (r: Ordering)
    ensures
        r == nat_cmp(a@, b@),
{
    let na = a.len();
    let nb = b.len();
    let mut i: usize = 0;
    let mut j: usize = 0;
    assert(a@.skip(0) =~= a@);
    assert(b@.skip(0) =~= b@);
    loop
        invariant
            0 <= i <= na,
            0 <= j <= nb,
            na == a@.len(),
            nb == b@.len(),
            nat_cmp(a@, b@) == nat_cmp(a@.skip(i as int), b@.skip(j as int)),
        decreases na - i + nb - j,
    {
        let ghost sa = a@.skip(i as int);
        let ghost sb = b@.skip(j as int);
        if i == na && j == nb {
            return Ordering::Equal;
        } else if i == na {
            return Ordering::Less;
        } else if j == nb {
            return Ordering::Greater;
        }
        assert(sa[0] == a@[i as int] && sb[0] == b@[j as int]);
        if is_digit(a[i]) && is_digit(b[j]) {
            let ei = run_end(a, i);
            let ej = run_end(b, j);
            proof {
                lemma_run_len_bounds(sa);
                lemma_run_len_bounds(sb);
                assert(a@.skip(i as int).subrange(0, ei - i) =~= a@.subrange(
                    i as int,
                    ei as int,
                ));
                assert(b@.skip(j as int).subrange(0, ej - j) =~= b@.subrange(
                    j as int,
                    ej as int,
                ));
                assert(sa.take(run_len(sa)) =~= a@.subrange(i as int, ei as int));
                assert(sb.take(run_len(sb)) =~= b@.subrange(j as int, ej as int));
            }
            let o = compare_runs(a, i, ei, b, j, ej);
            if matches!(o, Ordering::Equal) {
                proof {
                    assert(o == Ordering::Equal);
                    assert(sa.skip(run_len(sa)) =~= a@.skip(ei as int));
                    assert(sb.skip(run_len(sb)) =~= b@.skip(ej as int));
                    assert(nat_cmp(sa, sb) == nat_cmp(a@.skip(ei as int), b@.skip(ej as int)));
                }
                i = ei;
                j = ej;
            } else {
                assert(nat_cmp(sa, sb) == o);
                return o;
            }
        } else {
            let ca = a[i];
            let cb = b[j];
            proof {
                assert(sa[0] == ca && sb[0] == cb);
                assert(!(is_digit_char(sa[0]) && is_digit_char(sb[0])));
            }
            if ca < cb {
                assert(nat_cmp(sa, sb) == Ordering::Less);
                return Ordering::Less;
            } else if cb < ca {
                assert(nat_cmp(sa, sb) == Ordering::Greater);
                return Ordering::Greater;
            }
            proof {
                assert(cmp_char(sa[0], sb[0]) == Ordering::Equal);
                assert(sa.drop_first() =~= a@.skip(i + 1));
                assert(sb.drop_first() =~= b@.skip(j + 1));
                assert(nat_cmp(sa, sb) == nat_cmp(a@.skip(i + 1), b@.skip(j + 1)));
            }
            i = i + 1;
            j = j + 1;
        }
    }
}

/// Natural-order comparison of two strings, the executable form of
/// `nat_cmp`.
pub fn natural_compare(a: &str, b: &str) -> (r: Ordering)
    ensures
        r == nat_cmp(a@, b@),
{
    let av = crate::text::chars_of(a);
    let bv = crate::text::chars_of(b);
    natural_compare_chars(&av, &bv)
}

} // verus!
