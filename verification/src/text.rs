use vstd::prelude::*;

verus! {

/// The character for one decimal digit value.
pub open spec fn dec_digit(d: int) -> char
    recommends
        0 <= d < 10,
{
    ((d + 48) as u8) as char
}

/// The numeric value of one decimal digit character.
pub open spec fn digit_val(c: char) -> int {
    (c as int) - 48
}

/// Whether a character is a decimal digit.
pub open spec fn is_digit_char(c: char) -> bool {
    '0' <= c && c <= '9'
}

/// The decimal rendering of a natural number, most significant digit
/// first, with no leading zeroes (`0` renders as "0").
pub open spec fn dec_str(n: nat) -> Seq<char>
    decreases n,
{
    if n < 10 {
        seq![dec_digit(n as int)]
    } else {
        dec_str(n / 10) + seq![dec_digit((n % 10) as int)]
    }
}

/// The decimal rendering of an integer: a possible `-` sign, then the
/// digits of its magnitude.
pub open spec fn int_str(n: int) -> Seq<char> {
    if n < 0 {
        seq!['-'] + dec_str((-n) as nat)
    } else {
        dec_str(n as nat)
    }
}

/// The value of a sequence of decimal digit characters, read most
/// significant first.
pub open spec fn digits_val(s: Seq<char>) -> nat
    decreases s.len(),
{
    if s.len() == 0 {
        0
    } else {
        digits_val(s.drop_last()) * 10 + digit_val(s.last()) as nat
    }
}

/// Whether every character of a sequence is a decimal digit.
pub open spec fn all_digits(s: Seq<char>) -> bool {
    forall|i: int| 0 <= i < s.len() ==> is_digit_char(s[i])
}

/// A run of `n` space characters.
pub open spec fn spaces_seq(n: int) -> Seq<char> {
    Seq::new(n as nat, |i: int| ' ')
}

/// Appends the decimal rendering of `n` to `out`.
pub fn push_u64(out: &mut String, n: u64)
    ensures
        final(out)@ == old(out)@ + dec_str(n as nat),
    decreases n,
{
    if n < 10 {
        crate::fs::push_char(out, ((n as u8) + 48) as char);
    } else {
        push_u64(out, n / 10);
        crate::fs::push_char(out, (((n % 10) as u8) + 48) as char);
    }
}

/// The decimal rendering of an unsigned number.
pub fn u64_string(n: u64) -> (r: String)
    ensures
        r@ == dec_str(n as nat),
{
    let mut out = String::new();
    push_u64(&mut out, n);
    assert(out@ =~= dec_str(n as nat));
    out
}

/// The decimal rendering of a signed number.
pub fn i64_string(n: i64) -> (r: String)
    ensures
        r@ == int_str(n as int),
{
    if n < 0 {
        let m: u64 = (-(n as i128)) as u64;
        let mut out = String::from_str("-");
        proof {
            reveal_strlit("-");
            assert(out@ =~= seq!['-']);
        }
        push_u64(&mut out, m);
        out
    } else {
        u64_string(n as u64)
    }
}

/// A string of `n` spaces.
pub fn spaces(n: usize) -> (r: String)
    ensures
        r@ == spaces_seq(n as int),
{
    let mut out = String::new();
    let mut i: usize = 0;
    while i < n
        invariant
            0 <= i <= n,
            out@ =~= spaces_seq(i as int),
        decreases n - i,
    {
        crate::fs::push_char(&mut out, ' ');
        assert(out@ =~= spaces_seq(i + 1 as int));
        i = i + 1;
    }
    out
}

/// The characters of a string, as a vector.
pub fn chars_of(s: &str) -> (r: Vec<char>)
    ensures
        r@ == s@,
{
    let n = s.unicode_len();
    let mut out: Vec<char> = Vec::new();
    let mut i: usize = 0;
    while i < n
        invariant
            0 <= i <= n,
            n == s@.len(),
            out@ =~= s@.take(i as int),
        decreases n - i,
    {
        out.push(s.get_char(i));
        assert(out@ =~= s@.take(i + 1 as int));
        i = i + 1;
    }
    assert(out@ =~= s@);
    out
}

/// Whether two strings hold the same characters.
pub fn str_eq(a: &str, b: &str) -> (r: bool)
    ensures
        r == (a@ == b@),
{
    let na = a.unicode_len();
    let nb = b.unicode_len();
    if na != nb {
        proof {
            assert(a@ != b@);
        }
        return false;
    }
    let mut i: usize = 0;
    while i < na
        invariant
            0 <= i <= na,
            na == a@.len(),
            na == b@.len(),
            forall|k: int| 0 <= k < i ==> a@[k] == b@[k],
        decreases na - i,
    {
        if a.get_char(i) != b.get_char(i) {
            proof {
                assert(a@[i as int] != b@[i as int]);
            }
            return false;
        }
        i = i + 1;
    }
    proof {
        assert(a@ =~= b@);
    }
    true
}

/// The view of an optional borrowed text.
pub open spec fn opt_str_view(s: Option<&str>) -> Option<Seq<char>> {
    match s {
        Option::Some(t) => Option::Some(t@),
        Option::None => Option::None,
    }
}

/// The view of an optional owned text.
pub open spec fn opt_string_view(s: Option<String>) -> Option<Seq<char>> {
    match s {
        Option::Some(t) => Option::Some(t@),
        Option::None => Option::None,
    }
}

/// The body of a numeric literal: the whole text, or what follows one
/// leading `+` sign.
pub open spec fn num_body(s: Seq<char>) -> Seq<char> {
    if s.len() > 0 && s[0] == '+' {
        s.drop_first()
    } else {
        s
    }
}

/// Whether a text is a well-formed unsigned decimal numeral whose value
/// fits in `usize`: an optional `+`, then at least one digit, with a
/// value at most `usize::MAX`.
pub open spec fn valid_usize_str(s: Seq<char>) -> bool {
    &&& num_body(s).len() > 0
    &&& all_digits(num_body(s))
    &&& digits_val(num_body(s)) <= usize::MAX
}

/// A digit prefix never exceeds the value of the whole digit string.
proof fn lemma_digits_val_prefix(s: Seq<char>, i: int)
    requires
        0 <= i <= s.len(),
    ensures
        digits_val(s.take(i)) <= digits_val(s),
    decreases s.len() - i,
{
    if i == s.len() {
        assert(s.take(i) =~= s);
    } else {
        assert(s.take(i + 1).drop_last() =~= s.take(i));
        assert(s.take(i + 1).last() == s[i]);
        assert(digits_val(s.take(i + 1)) == digits_val(s.take(i)) * 10 + digit_val(s[i]) as nat);
        lemma_digits_val_prefix(s, i + 1);
    }
}

/// Parses an unsigned decimal numeral, accepting exactly the texts
/// that `valid_usize_str` describes.
pub fn parse_usize(s: &str) -> (r: Result<usize, ()>)
    ensures
        match r {
            Ok(n) => valid_usize_str(s@) && n as nat == digits_val(num_body(s@)),
            Err(_) => !valid_usize_str(s@),
        },
{
    let n = s.unicode_len();
    let start: usize = if n > 0 && s.get_char(0) == '+' {
        1
    } else {
        0
    };
    assert(num_body(s@) =~= s@.skip(start as int));
    if start == n {
        return Err(());
    }
    let ghost body = s@.skip(start as int);
    let mut acc: usize = 0;
    let mut i: usize = start;
    while i < n
        invariant
            start <= i <= n,
            n == s@.len(),
            start < n,
            body == s@.skip(start as int),
            body == num_body(s@),
            all_digits(body.take(i - start)),
            acc as nat == digits_val(body.take(i - start)),
        decreases n - i,
    {
        let c = s.get_char(i);
        if !(c >= '0' && c <= '9') {
            assert(body[i - start] == c);
            assert(!is_digit_char(body[i - start]));
            return Err(());
        }
        let d: u64 = (c as u32 as u64) - 48;
        assert(d as int == digit_val(body[i - start]));
        assert(0 <= d < 10);
        let wide: u128 = (acc as u128) * 10 + (d as u128);
        proof {
            assert(body.take(i - start + 1).drop_last() =~= body.take(i - start));
            assert(body.take(i - start + 1).last() == body[i - start]);
        }
        if wide > (usize::MAX as u128) {
            proof {
                lemma_digits_val_prefix(body, i - start + 1);
            }
            return Err(());
        }
        acc = wide as usize;
        i = i + 1;
    }
    assert(body.take(n - start) =~= body);
    Ok(acc)
}

} // verus!
