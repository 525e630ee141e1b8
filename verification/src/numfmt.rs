use vstd::prelude::*;

verus! {

/// Decimal rendering and parsing of integers on byte strings, the numeric
/// layer of the credential payload codec.

pub open spec fn is_digit(b: u8) -> bool {
    48 <= b <= 57
}

/// The decimal digits of a natural number, most significant first.
pub open spec fn dec_digits(n: nat) -> Seq<u8>
    decreases n,
{
    if n < 10 {
        seq![(48 + n) as u8]
    } else {
        dec_digits(n / 10).push((48 + n % 10) as u8)
    }
}

/// The decimal rendering of an integer: a minus sign for negative values,
/// then the digits of its absolute value.
pub open spec fn dec_repr(n: int) -> Seq<u8> {
    if n < 0 {
        seq![45u8] + dec_digits((-n) as nat)
    } else {
        dec_digits(n as nat)
    }
}

/// The value of a digit string, read most significant first.
pub open spec fn digits_val(s: Seq<u8>) -> nat
    decreases s.len(),
{
    if s.len() == 0 {
        0
    } else {
        (digits_val(s.drop_last()) * 10 + (s.last() - 48)) as nat
    }
}

/// Where the run of digits starting at `i` ends.
pub open spec fn digit_run_end(s: Seq<u8>, i: int) -> int
    decreases s.len() - i,
{
    if 0 <= i < s.len() && is_digit(s[i]) {
        digit_run_end(s, i + 1)
    } else {
        i
    }
}

pub open spec fn pow10(k: nat) -> nat
    decreases k,
{
    if k == 0 {
        1
    } else {
        10 * pow10((k - 1) as nat)
    }
}

/// Parses an optionally signed decimal integer starting at `i`: the value
/// and the position after its last digit. Rejects an empty digit run and a
/// run with a leading zero.
pub open spec fn parse_int_at(s: Seq<u8>, i: int) -> Option<(int, int)> {
    let neg = 0 <= i < s.len() && s[i] == 45;
    let start = if neg {
        i + 1
    } else {
        i
    };
    let end = digit_run_end(s, start);
    if end == start {
        None
    } else if s[start] == 48 && end - start > 1 {
        None
    } else {
        let v = digits_val(s.subrange(start, end)) as int;
        Some(
            (
                if neg {
                    -v
                } else {
                    v
                },
                end,
            ),
        )
    }
}

/// Every byte of a decimal rendering's digit part is a digit.
pub proof fn lemma_dec_digits_are_digits(n: nat)
    ensures
        dec_digits(n).len() >= 1,
        forall|i: int| 0 <= i < dec_digits(n).len() ==> is_digit(#[trigger] dec_digits(n)[i]),
    decreases n,
{
    if n >= 10 {
        lemma_dec_digits_are_digits(n / 10);
    }
}

/// A positive number's rendering has no leading zero.
pub proof fn lemma_dec_digits_no_leading_zero(n: nat)
    ensures
        n > 0 ==> dec_digits(n)[0] != 48,
        n < 10 <==> dec_digits(n).len() == 1,
    decreases n,
{
    if n >= 10 {
        lemma_dec_digits_no_leading_zero(n / 10);
        assert(dec_digits(n)[0] == dec_digits(n / 10)[0]);
    }
}

/// Reading back the digits of `n` yields `n`.
pub proof fn lemma_digits_val_dec(n: nat)
    ensures
        digits_val(dec_digits(n)) == n,
    decreases n,
{
    if n < 10 {
        assert(dec_digits(n) =~= seq![(48 + n) as u8]);
        assert(dec_digits(n).drop_last() =~= Seq::<u8>::empty());
        assert(digits_val(Seq::<u8>::empty()) == 0);
        assert(dec_digits(n).last() == (48 + n) as u8);
        assert(((48 + n) as u8) as nat == 48 + n);
    } else {
        lemma_digits_val_dec(n / 10);
        assert(dec_digits(n).drop_last() =~= dec_digits(n / 10));
        assert(dec_digits(n).last() == (48 + n % 10) as u8);
        assert(((48 + n % 10) as u8) as nat == 48 + n % 10);
        assert(n / 10 * 10 + n % 10 == n);
    }
}

/// A digit string's value is below ten to its length.
pub proof fn lemma_digits_val_upper(s: Seq<u8>)
    requires
        forall|i: int| 0 <= i < s.len() ==> is_digit(#[trigger] s[i]),
    ensures
        digits_val(s) < pow10(s.len()),
    decreases s.len(),
{
    if s.len() > 0 {
        lemma_digits_val_upper(s.drop_last());
    }
}

/// A digit string with a nonzero leading digit has a value of at least ten
/// to one less than its length.
pub proof fn lemma_digits_val_lower(s: Seq<u8>)
    requires
        s.len() >= 1,
        forall|i: int| 0 <= i < s.len() ==> is_digit(#[trigger] s[i]),
        s[0] != 48,
    ensures
        digits_val(s) >= pow10((s.len() - 1) as nat),
    decreases s.len(),
{
    if s.len() == 1 {
    } else {
        lemma_digits_val_lower(s.drop_last());
    }
}

/// A digit run bounded by a non-digit (or the end) stops exactly there.
pub proof fn lemma_digit_run_end(s: Seq<u8>, a: int, b: int)
    requires
        0 <= a <= b <= s.len(),
        forall|i: int| a <= i < b ==> is_digit(#[trigger] s[i]),
        b == s.len() || !is_digit(s[b]),
    ensures
        digit_run_end(s, a) == b,
    decreases b - a,
{
    if a < b {
        lemma_digit_run_end(s, a + 1, b);
    }
}

/// Parsing right after rendering: if `s` carries `dec_repr(n)` at position
/// `i` and a non-digit follows it, the parse at `i` yields `n` and stops
/// right after the rendering.
pub proof fn lemma_parse_renders(s: Seq<u8>, i: int, n: int)
    requires
        0 <= i,
        i + dec_repr(n).len() < s.len(),
        s.subrange(i, i + dec_repr(n).len() as int) == dec_repr(n),
        !is_digit(s[i + dec_repr(n).len() as int]),
    ensures
        parse_int_at(s, i) == Some((n, i + dec_repr(n).len() as int)),
{
    let r = dec_repr(n);
    let m = if n < 0 {
        (-n) as nat
    } else {
        n as nat
    };
    lemma_dec_digits_are_digits(m);
    lemma_dec_digits_no_leading_zero(m);
    lemma_digits_val_dec(m);
    let start = if n < 0 {
        i + 1
    } else {
        i
    };
    let end = i + r.len() as int;
    assert forall|k: int| start <= k < end implies is_digit(#[trigger] s[k]) by {
        assert(s[k] == r[k - i]);
        if n < 0 {
            assert(r[k - i] == dec_digits(m)[k - i - 1]);
        } else {
            assert(r[k - i] == dec_digits(m)[k - i]);
        }
    }
    lemma_digit_run_end(s, start, end);
    assert forall|k: int| 0 <= k < end - start implies s.subrange(start, end)[k]
        == dec_digits(m)[k] by {
        assert(s[start + k] == r[start + k - i]);
        if n < 0 {
            assert(r[start + k - i] == dec_digits(m)[k]);
        } else {
            assert(r[start + k - i] == dec_digits(m)[k]);
        }
    }
    assert(s.subrange(start, end) =~= dec_digits(m));
    if n < 0 {
        assert(s[i] == r[0]);
        assert(r[0] == 45u8);
        assert(s[start] == dec_digits(m)[0]);
    } else {
        assert(s[i] == r[0]);
        assert(r[0] == dec_digits(m)[0]);
        assert(r[0] != 45u8);
    }
    if dec_digits(m).len() > 1 {
        assert(s[start] != 48);
    }
}

/// Appends the decimal digits of `n` to `out`.
pub fn push_u64_digits(n: u64, out: &mut Vec<u8>)
    ensures
        final(out)@ == old(out)@ + dec_digits(n as nat),
    decreases n,
{
    if n < 10 {
        out.push(48 + n as u8);
        assert(final(out)@ =~= old(out)@ + dec_digits(n as nat));
    } else {
        push_u64_digits(n / 10, out);
        out.push(48 + (n % 10) as u8);
        assert(final(out)@ =~= old(out)@ + dec_digits(n as nat));
    }
}

/// Appends the decimal rendering of `n` to `out`.
pub fn push_i64(n: i64, out: &mut Vec<u8>)
    ensures
        final(out)@ == old(out)@ + dec_repr(n as int),
{
    if n < 0 {
        out.push(45u8);
        let m: u64 = if n == i64::MIN {
            9223372036854775808u64
        } else {
            (-n) as u64
        };
        assert(m as nat == (-(n as int)) as nat);
        push_u64_digits(m, out);
        assert(final(out)@ =~= old(out)@ + dec_repr(n as int));
    } else {
        push_u64_digits(n as u64, out);
    }
}

/// Parses an optionally signed decimal integer at position `i`, as
/// `parse_int_at` describes, rejecting values outside the i64 range.
pub fn parse_i64_at(s: &Vec<u8>, i: usize) -> (r: Option<(i64, usize)>)
    requires
        i <= s@.len(),
    ensures
        match parse_int_at(s@, i as int) {
            None => r is None,
            Some((v, j)) => {
                if i64::MIN <= v <= i64::MAX {
                    r == Some((v as i64, j as usize))
                } else {
                    r is None
                }
            },
        },
        r matches Some(p) ==> p.1 <= s@.len(),
        parse_int_at(s@, i as int) matches Some(p) ==> 0 <= p.1 <= s@.len(),
{
    let ghost gs = s@;
    let n = s.len();
    let neg = i < n && s[i] == 45;
    let start: usize = if neg {
        i + 1
    } else {
        i
    };
    // find the end of the digit run
    let mut end: usize = start;
    while end < n && 48 <= s[end] && s[end] <= 57
        invariant
            start <= end <= n,
            n == gs.len(),
            gs == s@,
            forall|k: int| start <= k < end ==> is_digit(#[trigger] gs[k]),
        decreases n - end,
    {
        end += 1;
    }
    proof {
        lemma_digit_run_end(gs, start as int, end as int);
    }
    if end == start {
        return None;
    }
    if s[start] == 48 && end - start > 1 {
        return None;
    }
    proof {
        lemma_digits_val_upper(gs.subrange(start as int, end as int));
    }
    if end - start > 19 {
        // at least twenty digits with no leading zero: out of range
        proof {
            lemma_digits_val_lower(gs.subrange(start as int, end as int));
            lemma_pow10_19();
            lemma_pow10_mono(19, (gs.subrange(start as int, end as int).len() - 1) as nat);
        }
        return None;
    }
    // at most nineteen digits: the value fits in a u64
    proof {
        lemma_pow10_19();
        lemma_pow10_mono(gs.subrange(start as int, end as int).len(), 19);
    }
    let mut acc: u64 = 0;
    let mut k: usize = start;
    while k < end
        invariant
            start <= k <= end <= n,
            n == gs.len(),
            gs == s@,
            forall|j: int| start <= j < end ==> is_digit(#[trigger] gs[j]),
            acc as nat == digits_val(gs.subrange(start as int, k as int)),
            digits_val(gs.subrange(start as int, end as int)) < pow10(19),
            pow10(19) == 10000000000000000000,
        decreases end - k,
    {
        proof {
            lemma_digits_val_prefix(gs.subrange(start as int, end as int), k - start as int);
            assert(gs.subrange(start as int, end as int).subrange(0, k - start as int)
                =~= gs.subrange(start as int, k as int));
            assert(gs.subrange(start as int, end as int).subrange(0, k - start + 1 as int)
                =~= gs.subrange(start as int, k + 1 as int));
            assert(digits_val(gs.subrange(start as int, k + 1 as int)) == acc * 10 + (gs[
                k as int] - 48));
            assert(digits_val(gs.subrange(start as int, k + 1 as int)) <= digits_val(gs.subrange(
                start as int,
                end as int,
            )));
        }
        let d = s[k] - 48;
        acc = acc * 10 + d as u64;
        k += 1;
    }
    proof {
        assert(gs.subrange(start as int, end as int) =~= gs.subrange(start as int, end as int));
    }
    let v = digits_to_signed(acc, neg);
    match v {
        None => None,
        Some(x) => Some((x, end)),
    }
}

/// A prefix of a digit string has a value no larger than the whole.
proof fn lemma_digits_val_prefix(s: Seq<u8>, k: int)
    requires
        0 <= k < s.len(),
        forall|i: int| 0 <= i < s.len() ==> is_digit(#[trigger] s[i]),
    ensures
        digits_val(s.subrange(0, k)) <= digits_val(s),
        digits_val(s.subrange(0, k + 1)) <= digits_val(s),
        digits_val(s.subrange(0, k + 1)) == digits_val(s.subrange(0, k)) * 10 + (s[k] - 48),
    decreases s.len() - k,
{
    assert(s.subrange(0, k + 1).drop_last() =~= s.subrange(0, k));
    assert(s.subrange(0, k + 1).last() == s[k]);
    if k + 1 == s.len() {
        assert(s.subrange(0, k + 1) =~= s);
    } else {
        lemma_digits_val_prefix(s, k + 1);
    }
}

pub proof fn lemma_pow10_19()
    ensures
        pow10(19) == 10000000000000000000,
{
    reveal_with_fuel(pow10, 21);
}

pub proof fn lemma_pow10_mono(a: nat, b: nat)
    requires
        a <= b,
    ensures
        pow10(a) <= pow10(b),
    decreases b,
{
    if a < b {
        lemma_pow10_mono(a, (b - 1) as nat);
        assert(pow10(b) == 10 * pow10((b - 1) as nat));
    }
}

/// Applies the sign to an unsigned accumulator, rejecting i64 overflow.
fn digits_to_signed(acc: u64, neg: bool) -> (r: Option<i64>)
    ensures
        ({
            let v: int = if neg {
                -(acc as int)
            } else {
                acc as int
            };
            if i64::MIN <= v <= i64::MAX {
                r == Some(v as i64)
            } else {
                r is None
            }
        }),
{
    if neg {
        if acc > 9223372036854775808u64 {
            None
        } else if acc == 9223372036854775808u64 {
            Some(i64::MIN)
        } else {
            Some(-(acc as i64))
        }
    } else {
        if acc > 9223372036854775807u64 {
            None
        } else {
            Some(acc as i64)
        }
    }
}

/// Relies on String::from_utf8: it returns the string whose UTF-8 encoding
/// is the given bytes, and ASCII bytes are valid UTF-8.
#[verifier::external_body]
pub(crate) fn ascii_to_string(b: Vec<u8>) -> (r: String)
    requires
        forall|i: int| 0 <= i < b@.len() ==> b@[i] < 128,
    ensures
        vstd::utf8::encode_utf8(r@) == b@,
{
    String::from_utf8(b).expect("ASCII bytes are valid UTF-8")
}

} // verus!
