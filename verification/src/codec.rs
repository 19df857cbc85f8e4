//! Byte-level primitives of the canonical payload encoding: decimal integers
//! and escaped byte strings.
//!
//! Each primitive has a spec-level encoder, a spec-level parser, and
//! executable counterparts proved equal to them.  Parsing inverts encoding
//! exactly; the round-trip lemmas here are the base cases for the round-trip
//! proof of whole payload trees.

use vstd::prelude::*;

verus! {

/// Double quote, the string delimiter.
pub const QUOTE: u8 = 34;

/// Backslash, the escape character.
pub const ESCAPE: u8 = 92;

/// Comma, the list separator.
pub const COMMA: u8 = 44;

/// Minus sign.
pub const MINUS: u8 = 45;

// ---------------------------------------------------------------------------
// Decimal integers
// ---------------------------------------------------------------------------

/// Is `b` an ASCII decimal digit?
pub open spec fn is_digit(b: u8) -> bool {
    48 <= b && b <= 57
}

/// Length of the run of digits at the front of `s`.
pub open spec fn digit_run(s: Seq<u8>) -> int
    decreases s,
{
    if s.len() == 0 || !is_digit(s[0]) {
        0
    } else {
        1 + digit_run(s.drop_first())
    }
}

/// Numeric value of a sequence of digits.
pub open spec fn digits_val(s: Seq<u8>) -> int
    decreases s,
{
    if s.len() == 0 {
        0
    } else {
        digits_val(s.drop_last()) * 10 + (s.last() - 48)
    }
}

/// Canonical decimal digits of `n` (meaningful for `n >= 0`).
pub open spec fn enc_nat(n: int) -> Seq<u8>
    decreases n,
{
    if n < 10 {
        seq![(48 + n) as u8]
    } else {
        enc_nat(n / 10).push((48 + n % 10) as u8)
    }
}

/// Canonical decimal encoding of `n`, with a leading minus sign if negative.
pub open spec fn enc_int(n: int) -> Seq<u8> {
    if n < 0 {
        seq![MINUS] + enc_nat(-n)
    } else {
        enc_nat(n)
    }
}

/// Powers of ten.
pub open spec fn pow10(k: nat) -> int
    decreases k,
{
    if k == 0 {
        1
    } else {
        10 * pow10((k - 1) as nat)
    }
}

/// `enc_nat(n)` produces only digits, has no leading zero unless `n` itself
/// is zero, and its digits evaluate back to `n`.
pub proof fn lemma_enc_nat_form(n: int)
    requires
        n >= 0,
    ensures
        enc_nat(n).len() >= 1,
        forall|i: int| 0 <= i < enc_nat(n).len() ==> is_digit(#[trigger] enc_nat(n)[i]),
        n >= 10 ==> enc_nat(n)[0] == enc_nat(n / 10)[0],
        n >= 1 ==> enc_nat(n)[0] != 48,
        digits_val(enc_nat(n)) == n,
    decreases n,
{
    if n < 10 {
        let s = enc_nat(n);
        assert(s.last() == (48 + n) as u8);
        assert(s.drop_last().len() == 0);
        assert(digits_val(s.drop_last()) == 0);
        assert(digits_val(s) == 0 * 10 + ((48 + n) as u8 - 48));
    } else {
        lemma_enc_nat_form(n / 10);
        let s = enc_nat(n);
        assert(s == enc_nat(n / 10).push((48 + n % 10) as u8));
        assert(s.drop_last() == enc_nat(n / 10));
        assert(digits_val(s) == (n / 10) * 10 + n % 10);
        assert((n / 10) * 10 + n % 10 == n) by (nonlinear_arith)
            requires n >= 10,
        ;
    }
}

/// `enc_nat` is never empty.
pub proof fn lemma_enc_nat_len_pos(n: int)
    ensures
        enc_nat(n).len() >= 1,
{
    if n < 10 {
        assert(enc_nat(n).len() == 1);
    } else {
        assert(enc_nat(n) == enc_nat(n / 10).push((48 + n % 10) as u8));
    }
}

/// Digit count of `n` is bounded by the exponent that bounds `n`.
pub proof fn lemma_enc_nat_len(n: int, k: nat)
    requires
        0 <= n,
        k >= 1,
        n < pow10(k),
    ensures
        enc_nat(n).len() <= k,
    decreases n,
{
    if n >= 10 {
        assert(pow10(k) == 10 * pow10((k - 1) as nat));
        assert(n / 10 < pow10((k - 1) as nat)) by (nonlinear_arith)
            requires n < 10 * pow10((k - 1) as nat), n >= 10,
        ;
        lemma_enc_nat_len(n / 10, (k - 1) as nat);
    }
}

/// A digit run stops exactly at the first non-digit.
pub proof fn lemma_digit_run_concat(a: Seq<u8>, b: Seq<u8>)
    requires
        forall|i: int| 0 <= i < a.len() ==> is_digit(#[trigger] a[i]),
        b.len() == 0 || !is_digit(b[0]),
    ensures
        digit_run(a + b) == a.len(),
    decreases a,
{
    if a.len() == 0 {
        assert(a + b == b);
    } else {
        assert((a + b)[0] == a[0]);
        assert((a + b).drop_first() == a.drop_first() + b);
        lemma_digit_run_concat(a.drop_first(), b);
    }
}

/// The value of a digit sequence is unchanged by what follows it.
pub proof fn lemma_digits_val_take(a: Seq<u8>, b: Seq<u8>)
    ensures
        (a + b).take(a.len() as int) == a,
{
    assert((a + b).take(a.len() as int) =~= a);
}

// ---------------------------------------------------------------------------
// Escaped byte strings
// ---------------------------------------------------------------------------

/// Escape of one byte: quotes and backslashes get a backslash prefix,
/// everything else passes through.
pub open spec fn esc_byte(b: u8) -> Seq<u8> {
    if b == QUOTE || b == ESCAPE {
        seq![ESCAPE, b]
    } else {
        seq![b]
    }
}

/// Escape of a whole byte string.
pub open spec fn esc(s: Seq<u8>) -> Seq<u8>
    decreases s,
{
    if s.len() == 0 {
        Seq::empty()
    } else {
        esc_byte(s[0]) + esc(s.drop_first())
    }
}

/// Escaping distributes over concatenation.
pub proof fn lemma_esc_concat(a: Seq<u8>, b: Seq<u8>)
    ensures
        esc(a + b) == esc(a) + esc(b),
    decreases a,
{
    if a.len() == 0 {
        assert(a + b == b);
        assert(esc(a) + esc(b) == esc(b));
    } else {
        assert((a + b)[0] == a[0]);
        assert((a + b).drop_first() == a.drop_first() + b);
        lemma_esc_concat(a.drop_first(), b);
        assert(esc_byte(a[0]) + (esc(a.drop_first()) + esc(b)) == (esc_byte(a[0]) + esc(
            a.drop_first(),
        )) + esc(b));
    }
}

// ---------------------------------------------------------------------------
// Spec parsers
// ---------------------------------------------------------------------------

/// Parse an unsigned decimal: a canonical run of at most 19 digits.
/// Returns the value and the unconsumed remainder.
pub open spec fn parse_uint(s: Seq<u8>) -> Option<(int, Seq<u8>)> {
    let k = digit_run(s);
    if k == 0 || k > 19 {
        None
    } else if k > 1 && s[0] == 48 {
        None
    } else {
        Some((digits_val(s.take(k)), s.skip(k)))
    }
}

/// Parse a signed decimal within the 64-bit signed range.
pub open spec fn parse_int(s: Seq<u8>) -> Option<(int, Seq<u8>)> {
    if s.len() > 0 && s[0] == MINUS {
        match parse_uint(s.drop_first()) {
            Some((n, r)) => if 1 <= n && n <= 0x8000_0000_0000_0000 {
                Some((-n, r))
            } else {
                None
            },
            None => None,
        }
    } else {
        match parse_uint(s) {
            Some((n, r)) => if n <= i64::MAX {
                Some((n, r))
            } else {
                None
            },
            None => None,
        }
    }
}

/// Parse the body of a string, after its opening quote, up to and including
/// its closing quote.  Returns the unescaped content and the remainder.
pub open spec fn parse_strbody(s: Seq<u8>) -> Option<(Seq<u8>, Seq<u8>)>
    decreases s.len(),
{
    if s.len() == 0 {
        None
    } else if s[0] == QUOTE {
        Some((Seq::empty(), s.drop_first()))
    } else if s[0] == ESCAPE {
        if s.len() >= 2 && (s[1] == QUOTE || s[1] == ESCAPE) {
            match parse_strbody(s.skip(2)) {
                Some((c, r)) => Some((seq![s[1]] + c, r)),
                None => None,
            }
        } else {
            None
        }
    } else {
        match parse_strbody(s.drop_first()) {
            Some((c, r)) => Some((seq![s[0]] + c, r)),
            None => None,
        }
    }
}

// ---------------------------------------------------------------------------
// Round trips
// ---------------------------------------------------------------------------

/// Parsing inverts the canonical integer encoding, whatever follows it,
/// as long as what follows does not begin with a digit.
pub proof fn lemma_parse_int_rt(n: int, rest: Seq<u8>)
    requires
        i64::MIN <= n <= i64::MAX,
        rest.len() == 0 || !is_digit(rest[0]),
    ensures
        parse_int(enc_int(n) + rest) == Some((n, rest)),
{
    reveal_with_fuel(pow10, 20);
    assert(pow10(19) == 10_000_000_000_000_000_000);
    if n >= 0 {
        let e = enc_nat(n);
        let s = e + rest;
        lemma_enc_nat_form(n);
        lemma_enc_nat_len(n, 19);
        lemma_digit_run_concat(e, rest);
        let k = digit_run(s);
        assert(k == e.len());
        assert(s[0] == e[0]);
        assert(s[0] != MINUS);
        if k > 1 {
            assert(n >= 10);
            assert(e[0] != 48);
        }
        lemma_digits_val_take(e, rest);
        assert(s.take(k) == e);
        assert(s.skip(k) =~= rest);
        assert(parse_uint(s) == Some((n, rest)));
    } else {
        let m = -n;
        let e = enc_nat(m);
        let s = seq![MINUS] + e + rest;
        assert(enc_int(n) + rest =~= s);
        assert(s[0] == MINUS);
        assert(s.drop_first() =~= e + rest);
        lemma_enc_nat_form(m);
        lemma_enc_nat_len(m, 19);
        lemma_digit_run_concat(e, rest);
        let t = e + rest;
        let k = digit_run(t);
        assert(k == e.len());
        if k > 1 {
            assert(m >= 10);
        }
        lemma_digits_val_take(e, rest);
        assert(t.take(k) == e);
        assert(t.skip(k) =~= rest);
        assert(parse_uint(t) == Some((m, rest)));
        assert(1 <= m && m <= 0x8000_0000_0000_0000);
    }
}

/// Parsing inverts escaping: the escaped content, a closing quote, and any
/// remainder parse back to the content and the remainder.
pub proof fn lemma_parse_strbody_rt(c: Seq<u8>, rest: Seq<u8>)
    ensures
        parse_strbody(esc(c) + seq![QUOTE] + rest) == Some((c, rest)),
    decreases c,
{
    let s = esc(c) + seq![QUOTE] + rest;
    if c.len() == 0 {
        assert(esc(c).len() == 0);
        assert(s =~= seq![QUOTE] + rest);
        assert(s[0] == QUOTE);
        assert(s.drop_first() =~= rest);
    } else {
        let b = c[0];
        let tail = c.drop_first();
        assert(esc(c) == esc_byte(b) + esc(tail));
        lemma_parse_strbody_rt(tail, rest);
        let inner = esc(tail) + seq![QUOTE] + rest;
        if b == QUOTE || b == ESCAPE {
            assert(s =~= seq![ESCAPE, b] + inner);
            assert(s[0] == ESCAPE);
            assert(s[1] == b);
            assert(s.skip(2) =~= inner);
            assert(seq![s[1]] + tail =~= c);
        } else {
            assert(s =~= seq![b] + inner);
            assert(s[0] == b);
            assert(s[0] != QUOTE && s[0] != ESCAPE);
            assert(s.drop_first() =~= inner);
            assert(seq![s[0]] + tail =~= c);
        }
    }
}

// ---------------------------------------------------------------------------
// Executable encoders
// ---------------------------------------------------------------------------

/// Append the canonical digits of `n` to `out`.
pub fn push_nat(out: &mut Vec<u8>, n: u64)
    ensures
        final(out)@ == old(out)@ + enc_nat(n as int),
    decreases n,
{
    if n < 10 {
        out.push((48 + n) as u8);
        assert(out@ =~= old(out)@ + enc_nat(n as int));
    } else {
        push_nat(out, n / 10);
        out.push((48 + (n % 10)) as u8);
        assert(out@ =~= old(out)@ + enc_nat(n as int));
    }
}

/// Append the canonical decimal encoding of `n` to `out`.
pub fn push_int(out: &mut Vec<u8>, n: i64)
    ensures
        final(out)@ == old(out)@ + enc_int(n as int),
{
    if n < 0 {
        out.push(MINUS);
        let m: u64 = (-(n as i128)) as u64;
        push_nat(out, m);
        assert(out@ =~= old(out)@ + enc_int(n as int));
    } else {
        push_nat(out, n as u64);
    }
}

/// Append the escaped form of `s`, between quotes, to `out`.
pub fn push_string(out: &mut Vec<u8>, s: &Vec<u8>)
    ensures
        final(out)@ == old(out)@ + seq![QUOTE] + esc(s@) + seq![QUOTE],
{
    out.push(QUOTE);
    let mut t: usize = 0;
    while t < s.len()
        invariant
            t <= s.len(),
            out@ == old(out)@ + seq![QUOTE] + esc(s@.take(t as int)),
        decreases s.len() - t,
    {
        let b = s[t];
        if b == QUOTE || b == ESCAPE {
            out.push(ESCAPE);
            out.push(b);
        } else {
            out.push(b);
        }
        proof {
            assert(s@.take(t + 1) =~= s@.take(t as int) + seq![s@[t as int]]);
            lemma_esc_concat(s@.take(t as int), seq![s@[t as int]]);
            let one = seq![s@[t as int]];
            assert(one.drop_first() =~= Seq::<u8>::empty());
            assert(esc(one.drop_first()).len() == 0);
            assert(esc(one) =~= esc_byte(s@[t as int]));
            assert(out@ =~= old(out)@ + seq![QUOTE] + esc(s@.take(t + 1)));
        }
        t = t + 1;
    }
    assert(s@.take(s@.len() as int) =~= s@);
    out.push(QUOTE);
    assert(out@ =~= old(out)@ + seq![QUOTE] + esc(s@) + seq![QUOTE]);
}

// ---------------------------------------------------------------------------
// Executable parsers
// ---------------------------------------------------------------------------

/// Parse a signed decimal at position `i`, per [`parse_int`].
pub fn parse_int_at(v: &Vec<u8>, i: usize) -> (r: Option<(i64, usize)>)
    requires
        i <= v.len(),
    ensures
        match r {
            Some(p) => i <= p.1 <= v.len() && parse_int(v@.skip(i as int)) == Some(
                (p.0 as int, v@.skip(p.1 as int)),
            ),
            None => parse_int(v@.skip(i as int)) is None,
        },
{
    proof {
        reveal_with_fuel(pow10, 20);
        assert(pow10(19) == 10_000_000_000_000_000_000);
    }
    let s = Ghost(v@.skip(i as int));
    let neg = i < v.len() && v[i] == MINUS;
    let start = if neg { i + 1 } else { i };
    proof {
        if neg {
            assert(s@[0] == MINUS);
            assert(v@.skip(start as int) =~= s@.drop_first());
        }
    }
    let u = Ghost(v@.skip(start as int));
    // find the digit run
    let mut k: usize = 0;
    while start + k < v.len() && 48 <= v[start + k] && v[start + k] <= 57
        invariant
            i <= start <= v.len(),
            start + k <= v.len(),
            u@ == v@.skip(start as int),
            forall|t: int| 0 <= t < k ==> is_digit(#[trigger] u@[t]),
        decreases v.len() - start - k,
    {
        k = k + 1;
    }
    proof {
        let a = u@.take(k as int);
        let b = u@.skip(k as int);
        assert(a + b =~= u@);
        lemma_digit_run_concat(a, b);
        assert(digit_run(u@) == k);
    }
    if k == 0 || k > 19 {
        return None;
    }
    if k > 1 && v[start] == 48 {
        return None;
    }
    // accumulate the value
    let mut acc: u64 = 0;
    let mut t: usize = 0;
    while t < k
        invariant
            i <= start,
            start + k <= v.len(),
            t <= k <= 19,
            u@ == v@.skip(start as int),
            forall|q: int| 0 <= q < k ==> is_digit(#[trigger] u@[q]),
            acc == digits_val(u@.take(t as int)),
            acc < pow10(t as nat),
            pow10(19) == 10_000_000_000_000_000_000,
        decreases k - t,
    {
        proof {
            assert(pow10(t as nat) <= pow10(18)) by {
                lemma_pow10_mono(t as nat, 18);
            }
            assert(pow10(19) == 10 * pow10(18));
            assert(pow10((t + 1) as nat) == 10 * pow10(t as nat));
            assert(is_digit(u@[t as int]));
            assert(u@[t as int] == v@[(start + t) as int]);
            assert(u@.take(t + 1).drop_last() =~= u@.take(t as int));
            assert(u@.take(t + 1).last() == u@[t as int]);
        }
        let d = v[start + t];
        acc = acc * 10 + ((d - 48) as u64);
        t = t + 1;
    }
    proof {
        assert(digits_val(u@.take(digit_run(u@))) == acc);
    }
    if neg {
        if acc == 0 || acc > 0x8000_0000_0000_0000 {
            return None;
        }
        let n: i64 = (-(acc as i128)) as i64;
        proof {
            assert(u@.skip(k as int) =~= v@.skip((start + k) as int));
        }
        Some((n, start + k))
    } else {
        if acc > i64::MAX as u64 {
            return None;
        }
        proof {
            assert(u@.skip(k as int) =~= v@.skip((start + k) as int));
        }
        Some((acc as i64, start + k))
    }
}

/// `pow10` is monotone in its exponent.
pub proof fn lemma_pow10_mono(a: nat, b: nat)
    requires
        a <= b,
    ensures
        pow10(a) <= pow10(b),
        pow10(a) >= 1,
    decreases b,
{
    if a < b {
        lemma_pow10_mono(a, (b - 1) as nat);
    } else if b > 0 {
        lemma_pow10_mono((a - 1) as nat, (b - 1) as nat);
    }
}

/// Prepend `p` to the content of a string-parse outcome.
pub open spec fn prepend_content(p: Seq<u8>, o: Option<(Seq<u8>, Seq<u8>)>) -> Option<
    (Seq<u8>, Seq<u8>),
> {
    match o {
        Some((c, r)) => Some((p + c, r)),
        None => None,
    }
}

/// Parse a string body at position `i` (after the opening quote), per
/// [`parse_strbody`].
pub fn parse_strbody_at(v: &Vec<u8>, i: usize) -> (r: Option<(Vec<u8>, usize)>)
    requires
        i <= v.len(),
    ensures
        match r {
            Some(p) => i <= p.1 <= v.len() && parse_strbody(v@.skip(i as int)) == Some(
                (p.0@, v@.skip(p.1 as int)),
            ),
            None => parse_strbody(v@.skip(i as int)) is None,
        },
{
    let mut content: Vec<u8> = Vec::new();
    let mut cur: usize = i;
    loop
        invariant
            i <= cur <= v.len(),
            parse_strbody(v@.skip(i as int)) == prepend_content(
                content@,
                parse_strbody(v@.skip(cur as int)),
            ),
        decreases v.len() - cur,
    {
        if cur >= v.len() {
            return None;
        }
        let b = v[cur];
        proof {
            assert(v@.skip(cur as int)[0] == b);
        }
        if b == QUOTE {
            proof {
                assert(v@.skip(cur as int).drop_first() =~= v@.skip(cur + 1));
                assert(content@ + Seq::<u8>::empty() =~= content@);
            }
            return Some((content, cur + 1));
        } else if b == ESCAPE {
            if cur + 1 >= v.len() {
                return None;
            }
            let e = v[cur + 1];
            proof {
                assert(v@.skip(cur as int)[1] == e);
            }
            if e == QUOTE || e == ESCAPE {
                proof {
                    assert(v@.skip(cur as int).skip(2) =~= v@.skip(cur + 2));
                    assert(parse_strbody(v@.skip(cur as int)) == prepend_content(
                        seq![e],
                        parse_strbody(v@.skip(cur + 2)),
                    ));
                    lemma_prepend_prepend(content@, seq![e], parse_strbody(v@.skip(cur + 2)));
                    assert(content@ + seq![e] =~= content@.push(e));
                }
                content.push(e);
                cur = cur + 2;
            } else {
                return None;
            }
        } else {
            proof {
                assert(v@.skip(cur as int).drop_first() =~= v@.skip(cur + 1));
                assert(parse_strbody(v@.skip(cur as int)) == prepend_content(
                    seq![b],
                    parse_strbody(v@.skip(cur + 1)),
                ));
                lemma_prepend_prepend(content@, seq![b], parse_strbody(v@.skip(cur + 1)));
                assert(content@ + seq![b] =~= content@.push(b));
            }
            content.push(b);
            cur = cur + 1;
        }
    }
}

/// Prepending twice is prepending the concatenation.
pub proof fn lemma_prepend_prepend(a: Seq<u8>, b: Seq<u8>, o: Option<(Seq<u8>, Seq<u8>)>)
    ensures
        prepend_content(a, prepend_content(b, o)) == prepend_content(a + b, o),
{
    match o {
        Some(p) => {
            assert(a + (b + p.0) =~= (a + b) + p.0);
        },
        None => {},
    }
}

} // verus!
