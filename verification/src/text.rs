//! Decimal rendering and parsing of signed integers, over bytes, plus the
//! whitespace tokenizer the device protocol uses.

use vstd::prelude::*;
use vstd::string::StringExecFns;

verus! {

/// One byte of ASCII whitespace, the protocol's token separator.
pub open spec fn is_ws(b: u8) -> bool {
    b == 32 || b == 9 || b == 10 || b == 12 || b == 13
}

pub open spec fn is_digit(b: u8) -> bool {
    48 <= b <= 57
}

/// The decimal digits of `n`, most significant first.
pub open spec fn dec_digits(n: nat) -> Seq<u8>
    decreases n,
{
    if n < 10 {
        seq![(48 + n) as u8]
    } else {
        dec_digits(n / 10) + seq![(48 + n % 10) as u8]
    }
}

/// The decimal rendering of a signed value: a minus sign before the
/// digits of the magnitude when negative.
pub open spec fn render_int(v: int) -> Seq<u8> {
    if v < 0 {
        seq![45u8] + dec_digits((-v) as nat)
    } else {
        dec_digits(v as nat)
    }
}

/// The rendering of a value as characters, for human-readable messages.
pub open spec fn render_chars(v: int) -> Seq<char> {
    render_int(v).map_values(|b: u8| b as char)
}

pub open spec fn all_digits(s: Seq<u8>) -> bool {
    forall|i: int| 0 <= i < s.len() ==> is_digit(#[trigger] s[i])
}

/// The number the digit string stands for, most significant digit first.
pub open spec fn dec_value(s: Seq<u8>) -> nat
    decreases s.len(),
{
    if s.len() == 0 {
        0
    } else {
        (dec_value(s.drop_last()) * 10 + (s.last() - 48)) as nat
    }
}

/// What `str::parse` accepts for a signed integer type, before the range
/// check: an optional sign, then one or more digits and nothing else.
pub open spec fn parse_signed(t: Seq<u8>) -> Option<int> {
    if t.len() == 0 {
        None
    } else {
        let neg = t[0] == 45;
        let ds = if t[0] == 45 || t[0] == 43 {
            t.skip(1)
        } else {
            t
        };
        if ds.len() == 0 || !all_digits(ds) {
            None
        } else if neg {
            Some(-(dec_value(ds) as int))
        } else {
            Some(dec_value(ds) as int)
        }
    }
}

/// What `str::parse` accepts for an unsigned type: as `parse_signed`,
/// but a minus sign is refused even before a zero.
pub open spec fn parse_unsigned(t: Seq<u8>) -> Option<nat> {
    if t.len() == 0 {
        None
    } else {
        let ds = if t[0] == 43 {
            t.skip(1)
        } else {
            t
        };
        if t[0] == 45 || ds.len() == 0 || !all_digits(ds) {
            None
        } else {
            Some(dec_value(ds))
        }
    }
}

/// `str::parse::<i32>` on the bytes of a token.
pub open spec fn parse_i32(t: Seq<u8>) -> Option<i32> {
    match parse_signed(t) {
        Some(v) => if i32::MIN <= v <= i32::MAX {
            Some(v as i32)
        } else {
            None
        },
        None => None,
    }
}

/// `str::parse::<usize>` on the bytes of a token.
pub open spec fn parse_usize(t: Seq<u8>) -> Option<usize> {
    match parse_unsigned(t) {
        Some(v) => if v <= usize::MAX {
            Some(v as usize)
        } else {
            None
        },
        None => None,
    }
}

pub proof fn lemma_dec_digits_all_digits(n: nat)
    ensures
        dec_digits(n).len() >= 1,
        all_digits(dec_digits(n)),
    decreases n,
{
    if n >= 10 {
        lemma_dec_digits_all_digits(n / 10);
        assert(all_digits(dec_digits(n))) by {
            let s = dec_digits(n / 10);
            let w = dec_digits(n);
            assert(forall|i: int| 0 <= i < s.len() ==> w[i] == s[i]);
        }
    }
}

pub proof fn lemma_dec_value_of_digits(n: nat)
    ensures
        dec_value(dec_digits(n)) == n,
    decreases n,
{
    if n < 10 {
        let s = dec_digits(n);
        assert(s.drop_last() =~= Seq::<u8>::empty());
        assert(dec_value(Seq::<u8>::empty()) == 0);
    } else {
        lemma_dec_value_of_digits(n / 10);
        let s = dec_digits(n / 10);
        let w = dec_digits(n);
        assert(w.drop_last() =~= s);
        assert(dec_value(w) == dec_value(s) * 10 + (n % 10));
    }
}

/// Rendering a signed value and parsing the result gives the value back.
pub proof fn lemma_parse_render_i32(v: i32)
    ensures
        parse_i32(render_int(v as int)) == Some(v),
{
    let t = render_int(v as int);
    if v < 0 {
        let m = (-(v as int)) as nat;
        lemma_dec_digits_all_digits(m);
        lemma_dec_value_of_digits(m);
        assert(t[0] == 45);
        assert(t.skip(1) =~= dec_digits(m));
    } else {
        let m = v as nat;
        lemma_dec_digits_all_digits(m);
        lemma_dec_value_of_digits(m);
        assert(t =~= dec_digits(m));
        assert(is_digit(t[0]));
    }
}

/// Rendering an index in `0..=9` and parsing it back as `usize`.
pub proof fn lemma_parse_render_usize(n: usize)
    ensures
        parse_usize(render_int(n as int)) == Some(n),
{
    lemma_dec_digits_all_digits(n as nat);
    lemma_dec_value_of_digits(n as nat);
    let t = render_int(n as int);
    assert(t =~= dec_digits(n as nat));
    assert(is_digit(t[0]));
}

/// Appends the decimal digits of `n` to `out`.
pub fn push_dec_u64(out: &mut Vec<u8>, n: u64)
    ensures
        final(out)@ == old(out)@ + dec_digits(n as nat),
    decreases n,
{
    if n >= 10 {
        push_dec_u64(out, n / 10);
    }
    out.push((48 + (n % 10)) as u8);
    proof {
        if n < 10 {
            assert(out@ =~= old(out)@ + dec_digits(n as nat));
        } else {
            assert(out@ =~= old(out)@ + dec_digits(n as nat));
        }
    }
}

/// Appends the decimal rendering of `v`, sign included, to `out`.
pub fn push_dec_i32(out: &mut Vec<u8>, v: i32)
    ensures
        final(out)@ == old(out)@ + render_int(v as int),
{
    if v < 0 {
        out.push(45u8);
        let m: u64 = (-(v as i64)) as u64;
        push_dec_u64(out, m);
        proof {
            assert(out@ =~= old(out)@ + render_int(v as int));
        }
    } else {
        push_dec_u64(out, v as u64);
    }
}

proof fn lemma_dec_value_append(s: Seq<u8>, d: u8)
    requires
        48 <= d,
    ensures
        dec_value(s.push(d)) == dec_value(s) * 10 + (d - 48),
{
    assert(s.push(d).drop_last() =~= s);
    assert(s.push(d).last() == d);
}

/// Parses a digit run as `str::parse` does for an unsigned value, with an
/// accumulator that saturates one past `u64::MAX`, standing in for the
/// overflow check: any saturated value is out of range for every caller.
fn parse_digits(t: &[u8], from: usize) -> (r: Option<u128>)
    requires
        from <= t@.len(),
    ensures
        match r {
            Some(v) => {
                let ds = t@.skip(from as int);
                &&& ds.len() > 0
                &&& all_digits(ds)
                &&& if dec_value(ds) <= 0x1_0000_0000_0000_0000u128 {
                    v == dec_value(ds)
                } else {
                    v == 0x1_0000_0000_0000_0000u128
                }
                &&& v <= dec_value(ds)
            },
            None => {
                let ds = t@.skip(from as int);
                ds.len() == 0 || !all_digits(ds)
            },
        },
{
    let len = t.len();
    if from >= len {
        return None;
    }
    let mut acc: u128 = 0;
    let mut i: usize = from;
    while i < len
        invariant
            from <= i <= len,
            len == t@.len(),
            all_digits(t@.subrange(from as int, i as int)),
            if dec_value(t@.subrange(from as int, i as int)) <= 0x1_0000_0000_0000_0000u128 {
                acc == dec_value(t@.subrange(from as int, i as int))
            } else {
                acc == 0x1_0000_0000_0000_0000u128
            },
            acc <= 0x1_0000_0000_0000_0000u128,
            acc <= dec_value(t@.subrange(from as int, i as int)),
        decreases len - i,
    {
        let b = t[i];
        if !(48 <= b && b <= 57) {
            proof {
                assert(t@.skip(from as int)[i - from] == t@[i as int]);
            }
            return None;
        }
        proof {
            lemma_dec_value_append(t@.subrange(from as int, i as int), b);
            assert(t@.subrange(from as int, i as int).push(b) =~= t@.subrange(
                from as int,
                i as int + 1,
            ));
        }
        let next = acc * 10 + ((b - 48) as u128);
        acc = if next > 0x1_0000_0000_0000_0000u128 {
            0x1_0000_0000_0000_0000u128
        } else {
            next
        };
        i += 1;
    }
    proof {
        assert(t@.subrange(from as int, len as int) =~= t@.skip(from as int));
    }
    Some(acc)
}

/// `str::parse::<i32>` over the bytes of one token.
pub fn parse_i32_bytes(t: &[u8]) -> (r: Option<i32>)
    ensures
        r == parse_i32(t@),
{
    let len = t.len();
    if len == 0 {
        return None;
    }
    let first = t[0];
    let neg = first == 45;
    let from: usize = if first == 45 || first == 43 {
        1
    } else {
        0
    };
    proof {
        if from == 0 {
            assert(t@.skip(0) =~= t@);
        }
    }
    match parse_digits(t, from) {
        None => None,
        Some(v) => {
            if neg {
                if v <= 0x8000_0000 {
                    Some((-(v as i64)) as i32)
                } else {
                    None
                }
            } else {
                if v <= 0x7fff_ffff {
                    Some(v as i32)
                } else {
                    None
                }
            }
        },
    }
}

/// `str::parse::<usize>` over the bytes of one token.
pub fn parse_usize_bytes(t: &[u8]) -> (r: Option<usize>)
    ensures
        r == parse_usize(t@),
{
    let len = t.len();
    if len == 0 {
        return None;
    }
    let first = t[0];
    if first == 45 {
        return None;
    }
    let from: usize = if first == 43 {
        1
    } else {
        0
    };
    proof {
        if from == 0 {
            assert(t@.skip(0) =~= t@);
        }
    }
    match parse_digits(t, from) {
        None => None,
        Some(v) => {
            if v <= usize::MAX as u128 {
                Some(v as usize)
            } else {
                None
            }
        },
    }
}

/// No byte of `s` is a token separator.
pub open spec fn no_ws(s: Seq<u8>) -> bool {
    forall|i: int| 0 <= i < s.len() ==> !is_ws(#[trigger] s[i])
}

/// A rendered value is a nonempty token: no separator occurs in it.
pub proof fn lemma_render_no_ws(v: int)
    ensures
        render_int(v).len() > 0,
        no_ws(render_int(v)),
{
    if v < 0 {
        lemma_dec_digits_all_digits((-v) as nat);
        let t = render_int(v);
        let ds = dec_digits((-v) as nat);
        assert forall|i: int| 0 <= i < t.len() implies !is_ws(#[trigger] t[i]) by {
            if i >= 1 {
                assert(t[i] == ds[i - 1]);
                assert(is_digit(ds[i - 1]));
            }
        }
    } else {
        lemma_dec_digits_all_digits(v as nat);
        let t = render_int(v);
        assert forall|i: int| 0 <= i < t.len() implies !is_ws(#[trigger] t[i]) by {
            assert(is_digit(t[i]));
        }
    }
}

pub open spec fn pow10(k: nat) -> nat
    decreases k,
{
    if k == 0 {
        1
    } else {
        10 * pow10((k - 1) as nat)
    }
}

/// A value below `pow10(k)` renders to at most `k` digits.
pub proof fn lemma_dec_digits_len(n: nat, k: nat)
    requires
        k >= 1,
        n < pow10(k),
    ensures
        dec_digits(n).len() <= k,
    decreases k,
{
    if n >= 10 {
        assert(pow10(k) == 10 * pow10((k - 1) as nat));
        assert(n / 10 < pow10((k - 1) as nat)) by (nonlinear_arith)
            requires
                n < 10 * pow10((k - 1) as nat),
        ;
        lemma_dec_digits_len(n / 10, (k - 1) as nat);
    }
}

/// An `i32` renders to at most 11 bytes, sign included.
pub proof fn lemma_render_i32_len(v: i32)
    ensures
        render_int(v as int).len() <= 11,
{
    assert(pow10(0) == 1);
    assert(pow10(1) == 10);
    assert(pow10(2) == 100);
    assert(pow10(3) == 1000);
    assert(pow10(4) == 10000);
    assert(pow10(5) == 100000);
    assert(pow10(6) == 1000000);
    assert(pow10(7) == 10000000);
    assert(pow10(8) == 100000000);
    assert(pow10(9) == 1000000000);
    assert(pow10(10) == 10000000000);
    if v < 0 {
        lemma_dec_digits_len((-(v as int)) as nat, 10);
    } else {
        lemma_dec_digits_len(v as nat, 10);
    }
}

/// The decimal digits of `n` as characters.
pub open spec fn dec_chars(n: nat) -> Seq<char> {
    dec_digits(n).map_values(|b: u8| b as char)
}

fn digit_str(d: u64) -> (r: &'static str)
    requires
        d < 10,
    ensures
        r@.len() == 1,
        r@[0] == (48 + d) as u8 as char,
{
    if d == 0 {
        proof {
            reveal_strlit("0");
        }
        "0"
    } else if d == 1 {
        proof {
            reveal_strlit("1");
        }
        "1"
    } else if d == 2 {
        proof {
            reveal_strlit("2");
        }
        "2"
    } else if d == 3 {
        proof {
            reveal_strlit("3");
        }
        "3"
    } else if d == 4 {
        proof {
            reveal_strlit("4");
        }
        "4"
    } else if d == 5 {
        proof {
            reveal_strlit("5");
        }
        "5"
    } else if d == 6 {
        proof {
            reveal_strlit("6");
        }
        "6"
    } else if d == 7 {
        proof {
            reveal_strlit("7");
        }
        "7"
    } else if d == 8 {
        proof {
            reveal_strlit("8");
        }
        "8"
    } else {
        proof {
            reveal_strlit("9");
        }
        "9"
    }
}

/// Appends the decimal digits of `n`, as characters, to `s`.
pub fn push_dec_chars(s: &mut String, n: u64)
    ensures
        final(s)@ == old(s)@ + dec_chars(n as nat),
    decreases n,
{
    if n >= 10 {
        push_dec_chars(s, n / 10);
    }
    s.append(digit_str(n % 10));
    proof {
        assert(s@ =~= old(s)@ + dec_chars(n as nat));
    }
}

/// Appends the decimal rendering of `v`, sign included and as
/// characters, to `s`.
pub fn push_int_chars(s: &mut String, v: i32)
    ensures
        final(s)@ == old(s)@ + render_chars(v as int),
{
    if v < 0 {
        proof {
            reveal_strlit("-");
        }
        s.append("-");
        let m: u64 = (-(v as i64)) as u64;
        push_dec_chars(s, m);
        proof {
            assert(s@ =~= old(s)@ + render_chars(v as int));
        }
    } else {
        push_dec_chars(s, v as u64);
        proof {
            assert(s@ =~= old(s)@ + render_chars(v as int));
        }
    }
}

/// The position of the first separator at or after `i`; the end of the
/// token that starts there.
pub open spec fn token_end(s: Seq<u8>, i: int) -> int
    decreases s.len() - i,
{
    if i < 0 || i >= s.len() || is_ws(s[i]) {
        i
    } else {
        token_end(s, i + 1)
    }
}

pub proof fn lemma_token_end(s: Seq<u8>, i: int)
    requires
        0 <= i <= s.len(),
    ensures
        i <= token_end(s, i) <= s.len(),
        i < s.len() && !is_ws(s[i]) ==> token_end(s, i) > i,
    decreases s.len() - i,
{
    if i < s.len() && !is_ws(s[i]) {
        lemma_token_end(s, i + 1);
    }
}

/// The whitespace-separated tokens of `s` from position `i` on.
pub open spec fn tokens_from(s: Seq<u8>, i: int) -> Seq<Seq<u8>>
    decreases s.len() - i,
    when 0 <= i <= s.len()
    via tokens_from_decreases
{
    if i >= s.len() {
        Seq::empty()
    } else if is_ws(s[i]) {
        tokens_from(s, i + 1)
    } else {
        seq![s.subrange(i, token_end(s, i))] + tokens_from(s, token_end(s, i))
    }
}

#[via_fn]
proof fn tokens_from_decreases(s: Seq<u8>, i: int) {
    if 0 <= i <= s.len() {
        lemma_token_end(s, i);
    }
}

/// What `split_whitespace` yields on the trimmed line.
pub open spec fn tokens(s: Seq<u8>) -> Seq<Seq<u8>> {
    tokens_from(s, 0)
}

/// Splits a line into its whitespace-separated tokens.
pub fn tokenize(line: &[u8]) -> (ts: Vec<Vec<u8>>)
    ensures
        ts@.map_values(|v: Vec<u8>| v@) == tokens(line@),
{
    let len = line.len();
    let mut ts: Vec<Vec<u8>> = Vec::new();
    let mut i: usize = 0;
    while i < len
        invariant
            0 <= i <= len,
            len == line@.len(),
            tokens(line@) == ts@.map_values(|v: Vec<u8>| v@) + tokens_from(line@, i as int),
        decreases len - i,
    {
        let b = line[i];
        if b == 32 || b == 9 || b == 10 || b == 12 || b == 13 {
            i += 1;
        } else {
            let mut tok: Vec<u8> = Vec::new();
            let start = i;
            while i < len
                invariant
                    start <= i <= len,
                    len == line@.len(),
                    tok@ == line@.subrange(start as int, i as int),
                    token_end(line@, start as int) == token_end(line@, i as int),
                ensures
                    start <= i <= len,
                    len == line@.len(),
                    tok@ == line@.subrange(start as int, i as int),
                    token_end(line@, start as int) == token_end(line@, i as int),
                    i == len || is_ws(line@[i as int]),
                decreases len - i,
            {
                let c = line[i];
                if c == 32 || c == 9 || c == 10 || c == 12 || c == 13 {
                    break;
                }
                tok.push(c);
                proof {
                    assert(line@.subrange(start as int, i as int).push(line@[i as int]) =~= line@
                        .subrange(start as int, i as int + 1));
                }
                i += 1;
            }
            proof {
                assert(token_end(line@, i as int) == i as int);
                let mapped = ts@.map_values(|v: Vec<u8>| v@);
                assert((ts@.push(tok)).map_values(|v: Vec<u8>| v@) =~= mapped + seq![tok@]);
                assert(seq![tok@] + tokens_from(line@, i as int) =~= tokens_from(
                    line@,
                    start as int,
                ));
                assert(mapped + seq![tok@] + tokens_from(line@, i as int) =~= mapped + (
                seq![tok@] + tokens_from(line@, i as int)));
            }
            ts.push(tok);
        }
    }
    ts
}

/// Tokens pass through a leading whitespace byte.
pub proof fn lemma_tokens_ws(c: u8, rest: Seq<u8>)
    requires
        is_ws(c),
    ensures
        tokens(seq![c] + rest) == tokens(rest),
    decreases rest.len(),
{
    let s = seq![c] + rest;
    lemma_tokens_shift(seq![c], rest, 1);
    assert(tokens_from(s, 1) == tokens_from(rest, 0));
}

/// Positions past a prefix see only the suffix: both `token_end` and
/// `tokens_from` on the concatenation agree with the suffix alone.
pub proof fn lemma_tokens_shift(pre: Seq<u8>, rest: Seq<u8>, i: int)
    requires
        pre.len() <= i <= pre.len() + rest.len(),
    ensures
        token_end(pre + rest, i) == pre.len() + token_end(rest, i - pre.len()),
        tokens_from(pre + rest, i) == tokens_from(rest, i - pre.len()),
    decreases (pre + rest).len() - i,
{
    let s = pre + rest;
    let j = i - pre.len();
    if i >= s.len() {
        assert(token_end(s, i) == i);
        assert(token_end(rest, j) == j);
    } else if is_ws(s[i]) {
        lemma_tokens_shift(pre, rest, i + 1);
    } else {
        lemma_token_end_shift(pre, rest, i);
        lemma_token_end(rest, j);
        lemma_tokens_shift(pre, rest, pre.len() + token_end(rest, j));
        assert(s.subrange(i, token_end(s, i)) =~= rest.subrange(j, token_end(rest, j)));
    }
}

proof fn lemma_token_end_shift(pre: Seq<u8>, rest: Seq<u8>, i: int)
    requires
        pre.len() <= i <= pre.len() + rest.len(),
    ensures
        token_end(pre + rest, i) == pre.len() + token_end(rest, i - pre.len()),
    decreases (pre + rest).len() - i,
{
    let s = pre + rest;
    if i >= s.len() || is_ws(s[i]) {
    } else {
        lemma_token_end_shift(pre, rest, i + 1);
    }
}

/// A token followed by a separator (or the end) stands first in the
/// token list of the concatenation.
pub proof fn lemma_tokens_cons(t: Seq<u8>, rest: Seq<u8>)
    requires
        t.len() > 0,
        forall|i: int| 0 <= i < t.len() ==> !is_ws(#[trigger] t[i]),
        rest.len() == 0 || is_ws(rest[0]),
    ensures
        tokens(t + rest) == seq![t] + tokens(rest),
{
    let s = t + rest;
    assert(!is_ws(s[0]));
    lemma_token_end_zero(t, rest);
    lemma_tokens_shift(t, rest, t.len() as int);
    assert(s.subrange(0, t.len() as int) =~= t);
}

proof fn lemma_token_end_zero(t: Seq<u8>, rest: Seq<u8>)
    requires
        forall|i: int| 0 <= i < t.len() ==> !is_ws(#[trigger] t[i]),
        rest.len() == 0 || is_ws(rest[0]),
    ensures
        forall|i: int|
            0 <= i <= t.len() ==> #[trigger] token_end(t + rest, i) == t.len(),
{
    let s = t + rest;
    assert forall|i: int| 0 <= i <= t.len() implies #[trigger] token_end(s, i) == t.len() by {
        lemma_token_end_zero_at(t, rest, i);
    }
}

proof fn lemma_token_end_zero_at(t: Seq<u8>, rest: Seq<u8>, i: int)
    requires
        forall|i: int| 0 <= i < t.len() ==> !is_ws(#[trigger] t[i]),
        rest.len() == 0 || is_ws(rest[0]),
        0 <= i <= t.len(),
    ensures
        token_end(t + rest, i) == t.len(),
    decreases t.len() - i,
{
    if i < t.len() {
        lemma_token_end_zero_at(t, rest, i + 1);
    }
}

} // verus!
