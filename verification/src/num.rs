//! Decimal numbers: executable parsing and formatting, proved against the
//! spec functions of `model`, and the round-trip facts about them.

use vstd::prelude::*;

use crate::model::{
    all_digits, dec_digits, dec_val, digit_chr, digit_val, i32_in_range, int_dec, is_digit,
    spec_parse_i32, spec_parse_int, spec_parse_uint, spec_parse_usize,
};

verus! {

// ---------------------------------------------------------------------------
// Facts about digit sequences
// ---------------------------------------------------------------------------

pub proof fn lemma_dec_val_nonneg(s: Seq<char>)
    requires
        all_digits(s),
    ensures
        dec_val(s) >= 0,
    decreases s.len(),
{
    if s.len() > 0 {
        assert(all_digits(s.drop_last()));
        lemma_dec_val_nonneg(s.drop_last());
    }
}

pub proof fn lemma_dec_val_push(s: Seq<char>, c: char)
    ensures
        dec_val(s.push(c)) == dec_val(s) * 10 + digit_val(c),
{
    assert(s.push(c).drop_last() =~= s);
    assert(s.push(c).last() == c);
}

// ---------------------------------------------------------------------------
// Parsing
// ---------------------------------------------------------------------------

/// Reads the digits of `v` from `start` to the end.  `Some(n)` exactly when
/// that range is non-empty, holds digits only, and its value fits a `usize`.
fn parse_digits(v: &Vec<char>, start: usize) -> (r: Option<usize>)
    requires
        start <= v@.len(),
    ensures
        ({
            let ds = v@.subrange(start as int, v@.len() as int);
            match r {
                Some(n) => ds.len() >= 1 && all_digits(ds) && n as int == dec_val(ds),
                None => ds.len() == 0 || !all_digits(ds) || dec_val(ds) > usize::MAX,
            }
        }),
{
    let ghost ds = v@.subrange(start as int, v@.len() as int);
    if start == v.len() {
        return None;
    }
    let mut acc: usize = 0;
    let mut over: bool = false;
    let mut i: usize = start;
    while i < v.len()
        invariant
            start <= i <= v@.len(),
            ds == v@.subrange(start as int, v@.len() as int),
            all_digits(v@.subrange(start as int, i as int)),
            !over ==> acc as int == dec_val(v@.subrange(start as int, i as int)),
            over ==> dec_val(v@.subrange(start as int, i as int)) > usize::MAX,
        decreases v@.len() - i,
    {
        let c = v[i];
        if c < '0' || c > '9' {
            assert(!is_digit(v@[i as int]));
            assert(!all_digits(ds)) by {
                assert(ds[i - start] == v@[i as int]);
            }
            return None;
        }
        let d: usize = ((c as u32) - 48) as usize;
        assert(d == digit_val(c));
        let ghost pre = v@.subrange(start as int, i as int);
        let ghost post = v@.subrange(start as int, i + 1 as int);
        proof {
            assert(pre.push(v@[i as int]) =~= post);
            lemma_dec_val_push(pre, v@[i as int]);
            assert(is_digit(v@[i as int]));
            assert(forall|j: int| 0 <= j < post.len() ==> is_digit(#[trigger] post[j]));
        }
        if over {
            proof {
                lemma_dec_val_nonneg(post);
                assert(dec_val(pre) * 10 >= dec_val(pre)) by (nonlinear_arith)
                    requires dec_val(pre) >= 0;
                assert(dec_val(pre) * 10 + digit_val(v@[i as int]) > usize::MAX) by {
                    assert(dec_val(pre) > usize::MAX);
                    assert(dec_val(pre) * 10 >= dec_val(pre));
                    assert(digit_val(v@[i as int]) >= 0);
                }
            }
        } else if acc > (usize::MAX - d) / 10 {
            over = true;
            proof {
                let m = usize::MAX as int;
                let a = acc as int;
                let dd = d as int;
                assert(a * 10 + dd > m) by (nonlinear_arith)
                    requires
                        a > (m - dd) / 10,
                        0 <= dd <= 9,
                        m >= 10,
                ;
                assert(dec_val(post) == a * 10 + digit_val(v@[i as int]));
                assert(digit_val(v@[i as int]) == dd);
            }
        } else {
            proof {
                let m = usize::MAX as int;
                let a = acc as int;
                let dd = d as int;
                assert(a * 10 + dd <= m) by (nonlinear_arith)
                    requires
                        a <= (m - dd) / 10,
                        0 <= dd <= 9,
                        m >= 10,
                ;
                assert(digit_val(v@[i as int]) == dd);
            }
            acc = acc * 10 + d;
        }
        i = i + 1;
    }
    proof {
        assert(v@.subrange(start as int, v@.len() as int) =~= ds);
    }
    if over {
        None
    } else {
        Some(acc)
    }
}

/// Reads `v` as a signed decimal in the `i32` range, as the protocol's
/// integer fields are read: an optional sign, then at least one digit.
pub(crate) fn parse_i32_chars(v: &Vec<char>) -> (r: Option<i32>)
    ensures
        ({
            match spec_parse_i32(v@) {
                Some(x) => r == Some(x as i32),
                None => r is None,
            }
        }),
{
    let n = v.len();
    let mut start: usize = 0;
    let mut neg: bool = false;
    if n > 0 && (v[0] == '+' || v[0] == '-') {
        neg = v[0] == '-';
        start = 1;
    }
    let ghost ds = if start == 1 { v@.drop_first() } else { v@ };
    proof {
        if start == 1 {
            assert(ds =~= v@.subrange(1, v@.len() as int));
        } else {
            assert(ds =~= v@.subrange(0, v@.len() as int));
        }
    }
    match parse_digits(v, start) {
        Some(m) => {
            proof {
                lemma_dec_val_nonneg(ds);
            }
            if neg {
                if m <= 0x8000_0000usize {
                    Some((-(m as i64)) as i32)
                } else {
                    None
                }
            } else {
                if m <= 0x7fff_ffffusize {
                    Some(m as i32)
                } else {
                    None
                }
            }
        },
        None => {
            proof {
                if ds.len() >= 1 && all_digits(ds) {
                    lemma_dec_val_nonneg(ds);
                }
            }
            None
        },
    }
}

/// Reads `v` as an unsigned decimal in the `usize` range, as the protocol's
/// array length field is read: an optional `+`, then at least one digit.
pub(crate) fn parse_usize_chars(v: &Vec<char>) -> (r: Option<usize>)
    ensures
        ({
            match spec_parse_usize(v@) {
                Some(x) => r == Some(x as usize),
                None => r is None,
            }
        }),
{
    let n = v.len();
    let mut start: usize = 0;
    if n > 0 && v[0] == '+' {
        start = 1;
    }
    let ghost ds = if start == 1 { v@.drop_first() } else { v@ };
    proof {
        if start == 1 {
            assert(ds =~= v@.subrange(1, v@.len() as int));
        } else {
            assert(ds =~= v@.subrange(0, v@.len() as int));
        }
    }
    match parse_digits(v, start) {
        Some(m) => {
            proof {
                lemma_dec_val_nonneg(ds);
            }
            Some(m)
        },
        None => None,
    }
}

// ---------------------------------------------------------------------------
// Formatting
// ---------------------------------------------------------------------------

/// Appends the decimal digits of `n`, most significant first.
pub(crate) fn push_dec_digits(out: &mut Vec<char>, n: usize)
    ensures
        final(out)@ == old(out)@ + dec_digits(n as int),
    decreases n,
{
    if n < 10 {
        let c = ((48 + n) as u8) as char;
        assert(c == digit_chr(n as int));
        out.push(c);
        assert(final(out)@ =~= old(out)@ + dec_digits(n as int));
    } else {
        push_dec_digits(out, n / 10);
        let d = n % 10;
        let c = ((48 + d) as u8) as char;
        assert(c == digit_chr(n as int % 10));
        out.push(c);
        assert(final(out)@ =~= old(out)@ + dec_digits(n as int));
    }
}

/// Appends the canonical decimal rendering of `v`.
pub(crate) fn push_i32_dec(out: &mut Vec<char>, v: i32)
    ensures
        final(out)@ == old(out)@ + int_dec(v as int),
{
    if v < 0 {
        out.push('-');
        let mag = (-(v as i64)) as usize;
        push_dec_digits(out, mag);
        assert(final(out)@ =~= old(out)@ + int_dec(v as int));
    } else {
        push_dec_digits(out, v as usize);
    }
}

/// Appends the decimal rendering of a length.
pub(crate) fn push_usize_dec(out: &mut Vec<char>, n: usize)
    ensures
        final(out)@ == old(out)@ + int_dec(n as int),
{
    push_dec_digits(out, n);
}

/// The canonical decimal rendering of `v`, as a string.
pub(crate) fn i32_to_string(v: i32) -> (r: String)
    ensures
        r@ == int_dec(v as int),
{
    let mut out: Vec<char> = Vec::new();
    push_i32_dec(&mut out, v);
    crate::text::chars_to_string(&out)
}

// ---------------------------------------------------------------------------
// Round-trip facts about decimals
// ---------------------------------------------------------------------------

pub proof fn lemma_dec_digits_wf(n: int)
    requires
        n >= 0,
    ensures
        dec_digits(n).len() >= 1,
        all_digits(dec_digits(n)),
        dec_val(dec_digits(n)) == n,
    decreases n,
{
    if n < 10 {
        let s = dec_digits(n);
        assert(s =~= seq![digit_chr(n)]);
        assert(s.drop_last() =~= Seq::<char>::empty());
        assert(dec_val(s) == dec_val(s.drop_last()) * 10 + digit_val(s.last()));
        assert(digit_val(digit_chr(n)) == n);
    } else {
        lemma_dec_digits_wf(n / 10);
        let s = dec_digits(n / 10);
        lemma_dec_val_push(s, digit_chr(n % 10));
        assert(dec_digits(n) == s.push(digit_chr(n % 10)));
        assert(digit_val(digit_chr(n % 10)) == n % 10);
        assert(dec_val(dec_digits(n)) == (n / 10) * 10 + n % 10);
        assert((n / 10) * 10 + n % 10 == n) by (nonlinear_arith)
            requires n >= 0;
        assert(forall|i: int| 0 <= i < dec_digits(n).len()
            ==> is_digit(#[trigger] dec_digits(n)[i])) by {
            assert(forall|i: int| 0 <= i < s.len() ==> is_digit(#[trigger] s[i]));
            assert(is_digit(digit_chr(n % 10)));
            assert(forall|i: int| 0 <= i < dec_digits(n).len() ==> #[trigger] dec_digits(n)[i]
                == if i < s.len() { s[i] } else { digit_chr(n % 10) });
        }
    }
}

/// The canonical decimal of an in-range integer reads back as that integer.
pub proof fn lemma_parse_int_dec(v: int)
    requires
        i32_in_range(v),
    ensures
        spec_parse_i32(int_dec(v)) == Some(v),
{
    if v < 0 {
        lemma_dec_digits_wf(-v);
        let s = int_dec(v);
        assert(s[0] == '-');
        assert(s.drop_first() =~= dec_digits(-v));
        assert(spec_parse_int(s) == Some(-dec_val(dec_digits(-v))));
    } else {
        lemma_dec_digits_wf(v);
        let s = int_dec(v);
        assert(is_digit(s[0]));
        assert(s[0] != '+' && s[0] != '-');
        assert(spec_parse_int(s) == Some(dec_val(s)));
    }
}

/// The decimal of a length in the `usize` range reads back as that length.
pub proof fn lemma_parse_usize_dec(n: int)
    requires
        0 <= n <= usize::MAX,
    ensures
        spec_parse_usize(int_dec(n)) == Some(n),
{
    lemma_dec_digits_wf(n);
    let s = int_dec(n);
    assert(is_digit(s[0]));
    assert(s[0] != '+');
    assert(spec_parse_uint(s) == Some(dec_val(s)));
}

} // verus!
