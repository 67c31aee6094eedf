//! Decimal numbers: what the bytes of a number mean, and how they are read.

use vstd::prelude::*;
use crate::chars::{digit, is_digit};
use crate::cursor::Cursor;
use crate::error::LexReason;
use crate::token::{Real, Token, TokenModel};

verus! {

/// Whether every byte of `d` is a decimal digit.
pub open spec fn all_digits(d: Seq<u8>) -> bool {
    forall|i: int| 0 <= i < d.len() ==> digit(#[trigger] d[i])
}

/// The number that a string of decimal digits writes, most significant first.
pub open spec fn digits_value(d: Seq<u8>) -> nat
    decreases d.len(),
{
    if d.len() == 0 {
        0
    } else {
        digits_value(d.drop_last()) * 10 + (d.last() - 0x30) as nat
    }
}

/// The index of the first dot in `body`, or its length where it holds none.
pub open spec fn first_dot(body: Seq<u8>) -> int
    decreases body.len(),
{
    if body.len() == 0 || body[0] == 0x2e {
        0
    } else {
        1 + first_dot(body.skip(1))
    }
}

/// 1 where `raw` starts with a sign, else 0.
pub open spec fn sign_len(raw: Seq<u8>) -> int {
    if raw.len() > 0 && (raw[0] == 0x2b || raw[0] == 0x2d) {
        1
    } else {
        0
    }
}

/// The digits of a number after its sign, with the dot taken out.
pub open spec fn number_digits(raw: Seq<u8>) -> Seq<u8> {
    let body = raw.skip(sign_len(raw));
    let k = first_dot(body);
    if k < body.len() {
        body.subrange(0, k) + body.subrange(k + 1, body.len() as int)
    } else {
        body
    }
}

/// How many digits follow the dot of a number; 0 where it has no dot.
pub open spec fn number_scale(raw: Seq<u8>) -> int {
    let body = raw.skip(sign_len(raw));
    let k = first_dot(body);
    if k < body.len() {
        body.len() - k - 1
    } else {
        0
    }
}

/// Whether a number holds a dot, which makes it a real.
pub open spec fn number_is_real(raw: Seq<u8>) -> bool {
    let body = raw.skip(sign_len(raw));
    first_dot(body) < body.len()
}

/// The digits of a number with its sign applied.
pub open spec fn number_signed(raw: Seq<u8>) -> int {
    if raw.len() > 0 && raw[0] == 0x2d {
        -(digits_value(number_digits(raw)) as int)
    } else {
        digits_value(number_digits(raw)) as int
    }
}

/// What the bytes `raw` mean as a number: an optional sign, then digits with
/// at most one dot among them and at least one digit. A dot makes the number
/// a real. The digits with the dot removed must fit an `i64`.
pub open spec fn number_value(raw: Seq<u8>) -> Result<TokenModel, LexReason> {
    let digits = number_digits(raw);
    let v = number_signed(raw);
    if digits.len() == 0 || !all_digits(digits) {
        Err(LexReason::MalformedNumber)
    } else if v < i64::MIN || v > i64::MAX {
        Err(LexReason::NumberOutOfRange)
    } else if number_is_real(raw) {
        Ok(TokenModel::Real(Real { mantissa: v as i64, scale: number_scale(raw) as usize }))
    } else {
        Ok(TokenModel::Integer(v as i64))
    }
}

/// `first_dot` is the one index before which no dot stands and at which one
/// does, if it is inside the sequence.
pub proof fn lemma_first_dot(body: Seq<u8>, k: int)
    requires
        0 <= k <= body.len(),
        forall|j: int| 0 <= j < k ==> body[j] != 0x2e,
    ensures
        k < body.len() && body[k] == 0x2e ==> first_dot(body) == k,
        k == body.len() ==> first_dot(body) == k,
        k <= first_dot(body) <= body.len(),
    decreases k,
{
    if k == 0 {
        lemma_first_dot_bound(body);
    } else {
        let rest = body.skip(1);
        assert forall|j: int| 0 <= j < k - 1 implies rest[j] != 0x2e by {
            assert(rest[j] == body[j + 1]);
        }
        lemma_first_dot(rest, k - 1);
        assert(body[0] != 0x2e);
        if k < body.len() {
            assert(rest[k - 1] == body[k]);
        }
    }
}

/// `first_dot` lies inside the sequence or at its end.
pub proof fn lemma_first_dot_bound(body: Seq<u8>)
    ensures
        0 <= first_dot(body) <= body.len(),
    decreases body.len(),
{
    if body.len() == 0 || body[0] == 0x2e {
    } else {
        lemma_first_dot_bound(body.skip(1));
    }
}

/// Appending one digit multiplies the value by ten and adds the digit.
pub proof fn lemma_digits_push(d: Seq<u8>, b: u8)
    ensures
        digits_value(d.push(b)) == digits_value(d) * 10 + (b - 0x30) as nat,
{
    assert(d.push(b).drop_last() =~= d);
}

/// Reads the bytes of a number, sign included, as `number_value` says.
pub fn parse_number(raw: &[u8]) -> (r: Result<Token, LexReason>)
    ensures
        match r {
            Ok(t) => number_value(raw@) == Ok::<TokenModel, LexReason>(t@),
            Err(e) => number_value(raw@) == Err::<TokenModel, LexReason>(e),
        },
{
    let n = raw.len();
    let negative = n > 0 && raw[0] == 0x2d;
    let start: usize = if n > 0 && (raw[0] == 0x2b || raw[0] == 0x2d) {
        1
    } else {
        0
    };
    let ghost body = raw@.skip(start as int);
    let mut i: usize = start;
    let mut acc: u64 = 0;
    let mut overflow = false;
    let mut seen_dot = false;
    let mut scale: usize = 0;
    let mut count: usize = 0;
    let ghost mut digits: Seq<u8> = Seq::empty();
    let ghost mut k: int = 0;
    while i < n
        invariant
            n == raw@.len(),
            start == sign_len(raw@),
            body == raw@.skip(start as int),
            start <= i <= n,
            !seen_dot ==> digits == body.subrange(0, i - start) && scale == 0 && (forall|
                j: int,
            |
                0 <= j < i - start ==> body[j] != 0x2e),
            seen_dot ==> 0 <= k < i - start && body[k] == 0x2e && (forall|j: int|
                0 <= j < k ==> body[j] != 0x2e) && digits == body.subrange(0, k) + body.subrange(
                k + 1,
                i - start,
            ) && scale == i - start - k - 1,
            all_digits(digits),
            count == digits.len(),
            count <= i - start,
            !overflow ==> acc == digits_value(digits),
            overflow ==> digits_value(digits) > u64::MAX,
        decreases n - i,
    {
        let b = raw[i];
        assert(body[i - start] == b);
        if is_digit(b) {
            let d: u64 = (b - 0x30) as u64;
            proof {
                lemma_digits_push(digits, b);
                if seen_dot {
                    assert(digits.push(b) =~= body.subrange(0, k) + body.subrange(
                        k + 1,
                        i - start + 1,
                    ));
                } else {
                    assert(digits.push(b) =~= body.subrange(0, i - start + 1));
                }
            }
            if !overflow {
                if acc > (u64::MAX - d) / 10 {
                    overflow = true;
                } else {
                    acc = acc * 10 + d;
                }
            }
            proof {
                digits = digits.push(b);
            }
            count = count + 1;
            if seen_dot {
                scale = scale + 1;
            }
        } else if b == 0x2e && !seen_dot {
            seen_dot = true;
            proof {
                k = i - start;
                assert(body.subrange(k + 1, i - start + 1) =~= Seq::<u8>::empty());
                assert(digits =~= body.subrange(0, k) + body.subrange(k + 1, i - start + 1));
            }
        } else {
            proof {
                let j = i - start;
                if seen_dot {
                    lemma_first_dot(body, k);
                    let full = body.subrange(0, k) + body.subrange(k + 1, body.len() as int);
                    assert(full[j - 1] == body[j]);
                    assert(!digit(full[j - 1]));
                } else {
                    lemma_first_dot(body, j);
                    let kk = first_dot(body);
                    assert(kk != j) by {
                        lemma_first_dot_is_dot(body);
                    }
                    if kk < body.len() {
                        let full = body.subrange(0, kk) + body.subrange(kk + 1, body.len() as int);
                        assert(full[j] == body[j]);
                        assert(!digit(full[j]));
                    } else {
                        assert(!digit(body[j]));
                    }
                }
            }
            return Err(LexReason::MalformedNumber);
        }
        i = i + 1;
    }
    proof {
        if seen_dot {
            lemma_first_dot(body, k);
        } else {
            lemma_first_dot(body, body.len() as int);
            assert(body.subrange(0, body.len() as int) =~= body);
        }
        assert(digits == number_digits(raw@));
    }
    if count == 0 {
        return Err(LexReason::MalformedNumber);
    }
    if overflow {
        return Err(LexReason::NumberOutOfRange);
    }
    let value: i64 = if negative {
        if acc > 0x8000_0000_0000_0000 {
            return Err(LexReason::NumberOutOfRange);
        } else if acc == 0x8000_0000_0000_0000 {
            i64::MIN
        } else {
            -(acc as i64)
        }
    } else {
        if acc > 0x7fff_ffff_ffff_ffff {
            return Err(LexReason::NumberOutOfRange);
        } else {
            acc as i64
        }
    };
    if seen_dot {
        Ok(Token::Real(Real { mantissa: value, scale }))
    } else {
        Ok(Token::Integer(value))
    }
}

/// Where `first_dot` lies inside the sequence, a dot stands there.
pub proof fn lemma_first_dot_is_dot(body: Seq<u8>)
    ensures
        first_dot(body) < body.len() ==> body[first_dot(body)] == 0x2e,
    decreases body.len(),
{
    if body.len() == 0 || body[0] == 0x2e {
    } else {
        lemma_first_dot_is_dot(body.skip(1));
        lemma_first_dot_bound(body.skip(1));
    }
}

/// The end of the run of decimal digits that starts at `pos`.
pub open spec fn digit_run_end(s: Seq<u8>, pos: int) -> int
    decreases s.len() - pos,
{
    if 0 <= pos < s.len() && digit(s[pos]) {
        digit_run_end(s, pos + 1)
    } else {
        pos
    }
}

/// The digits of the run that starts at `pos`; none where `pos` lies
/// outside the input.
pub open spec fn digit_run(s: Seq<u8>, pos: int) -> Seq<u8> {
    if 0 <= pos <= s.len() {
        s.subrange(pos, digit_run_end(s, pos))
    } else {
        Seq::empty()
    }
}

/// The number that digits write, if there is a digit and the number fits
/// a `u64`.
pub open spec fn unsigned_value(d: Seq<u8>) -> Option<u64> {
    if d.len() == 0 || digits_value(d) > u64::MAX {
        None
    } else {
        Some(digits_value(d) as u64)
    }
}

/// The unsigned number that the run of digits at `pos` writes.
pub open spec fn unsigned_at(s: Seq<u8>, pos: int) -> Option<u64> {
    unsigned_value(digit_run(s, pos))
}

/// The run of digits passes only digits, and stops on a byte that is none
/// or at the end of input.
pub proof fn lemma_digit_run_end(s: Seq<u8>, pos: int)
    requires
        0 <= pos,
    ensures
        pos <= digit_run_end(s, pos),
        pos <= s.len() ==> digit_run_end(s, pos) <= s.len(),
        forall|j: int| pos <= j < digit_run_end(s, pos) ==> digit(#[trigger] s[j]),
        digit_run_end(s, pos) < s.len() ==> !digit(s[digit_run_end(s, pos)]),
    decreases s.len() - pos,
{
    if pos < s.len() && digit(s[pos]) {
        lemma_digit_run_end(s, pos + 1);
    }
}

/// The number that the digits `data[start..end]` write, if it fits a `u64`.
pub(crate) fn digits_to_u64(data: &[u8], start: usize, end: usize) -> (r: Option<u64>)
    requires
        start <= end <= data@.len(),
        all_digits(data@.subrange(start as int, end as int)),
    ensures
        r == if digits_value(data@.subrange(start as int, end as int)) > u64::MAX {
            None
        } else {
            Some(digits_value(data@.subrange(start as int, end as int)) as u64)
        },
{
    let mut acc: u64 = 0;
    let mut i: usize = start;
    let ghost all = data@.subrange(start as int, end as int);
    assert(data@.subrange(start as int, start as int) =~= Seq::<u8>::empty());
    while i < end
        invariant
            start <= i <= end <= data@.len(),
            all == data@.subrange(start as int, end as int),
            all_digits(all),
            acc == digits_value(data@.subrange(start as int, i as int)),
        decreases end - i,
    {
        let b = data[i];
        assert(all[i - start] == b);
        let d: u64 = (b - 0x30) as u64;
        proof {
            lemma_digits_push(data@.subrange(start as int, i as int), b);
            assert(data@.subrange(start as int, i as int).push(b) =~= data@.subrange(
                start as int,
                i + 1,
            ));
        }
        if acc > (u64::MAX - d) / 10 {
            proof {
                lemma_digits_prefix(all, i - start + 1);
                assert(all.subrange(0, i - start + 1) =~= data@.subrange(start as int, i + 1));
            }
            return None;
        }
        acc = acc * 10 + d;
        i = i + 1;
    }
    Some(acc)
}

/// A prefix of digits writes no larger a number than all of them.
pub proof fn lemma_digits_prefix(d: Seq<u8>, n: int)
    requires
        0 <= n <= d.len(),
    ensures
        digits_value(d.subrange(0, n)) <= digits_value(d),
    decreases d.len() - n,
{
    if n == d.len() {
        assert(d.subrange(0, n) =~= d);
    } else {
        lemma_digits_prefix(d, n + 1);
        lemma_digits_push(d.subrange(0, n), d[n]);
        assert(d.subrange(0, n).push(d[n]) =~= d.subrange(0, n + 1));
    }
}

/// Reads the run of digits at the cursor as an unsigned number. The cursor
/// moves to the end of the run.
pub fn read_unsigned(c: &mut Cursor) -> (r: Option<u64>)
    ensures
        final(c).data == old(c).data,
        final(c).pos == digit_run_end(old(c).data@, old(c).pos as int),
        r == unsigned_at(old(c).data@, old(c).pos as int),
{
    let start = c.pos;
    proof {
        lemma_digit_run_end(c.data@, start as int);
    }
    while c.pos < c.data.len() && is_digit(c.data[c.pos])
        invariant
            c.data == old(c).data,
            start <= c.pos,
            digit_run_end(c.data@, c.pos as int) == digit_run_end(old(c).data@, old(c).pos as int),
        decreases c.data@.len() - c.pos,
    {
        c.pos = c.pos + 1;
    }
    let end = c.pos;
    if start >= end {
        return None;
    }
    digits_to_u64(c.data, start, end)
}

} // verus!
