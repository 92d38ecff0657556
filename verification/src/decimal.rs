//! Decimal text for the unsigned numbers inside addresses and versions.

use vstd::prelude::*;

verus! {

/// Whether a byte is an ASCII decimal digit.
pub open spec fn is_digit(b: u8) -> bool {
    0x30 <= b <= 0x39
}

/// Decimal text of an unsigned number, most significant digit first.
pub open spec fn spec_dec(n: nat) -> Seq<u8>
    decreases n,
{
    if n < 10 {
        seq![(0x30 + n) as u8]
    } else {
        spec_dec(n / 10) + seq![(0x30 + n % 10) as u8]
    }
}

/// Value of a digit string, read most significant digit first.
pub open spec fn dec_val(s: Seq<u8>) -> nat
    decreases s.len(),
{
    if s.len() == 0 {
        0
    } else {
        dec_val(s.drop_last()) * 10 + (if is_digit(s.last()) {
            (s.last() - 0x30) as nat
        } else {
            0
        })
    }
}

/// First index at or after `i` that holds no digit, or the length.
pub open spec fn digit_run_end(s: Seq<u8>, i: int) -> int
    decreases s.len() - i,
{
    if i < 0 {
        i
    } else if i >= s.len() || !is_digit(s[i]) {
        i
    } else {
        digit_run_end(s, i + 1)
    }
}

/// Reads the digit run starting at `i`: its value and the index just past
/// it; `None` where no digit stands at `i`.
pub open spec fn spec_parse_number(s: Seq<u8>, i: int) -> Option<(nat, int)> {
    let e = digit_run_end(s, i);
    if 0 <= i && e > i {
        Some((dec_val(s.subrange(i, e)), e))
    } else {
        None
    }
}

/// Every byte of a number's decimal text is a digit.
pub proof fn lemma_dec_digits(n: nat)
    ensures
        spec_dec(n).len() >= 1,
        forall|j: int| 0 <= j < spec_dec(n).len() ==> is_digit(#[trigger] spec_dec(n)[j]),
    decreases n,
{
    if n >= 10 {
        lemma_dec_digits(n / 10);
    }
}

/// Reading back a number's decimal text gives the number.
pub proof fn lemma_dec_val(n: nat)
    ensures
        dec_val(spec_dec(n)) == n,
    decreases n,
{
    if n < 10 {
        assert(spec_dec(n).drop_last() =~= Seq::<u8>::empty());
        assert(dec_val(Seq::<u8>::empty()) == 0);
        assert(dec_val(spec_dec(n)) == n);
    } else {
        lemma_dec_val(n / 10);
        assert(spec_dec(n).drop_last() =~= spec_dec(n / 10));
        assert(dec_val(spec_dec(n)) == n);
    }
}

/// A digit run bounded on both sides parses exactly: where the bytes from
/// `i` on spell the decimal text of `n` and the byte after it (if any) is
/// no digit, parsing at `i` yields `n` and stops right after the text.
pub proof fn lemma_parse_number_at(s: Seq<u8>, i: int, n: nat)
    requires
        0 <= i,
        i + spec_dec(n).len() <= s.len(),
        s.subrange(i, i + spec_dec(n).len() as int) == spec_dec(n),
        i + spec_dec(n).len() == s.len() || !is_digit(s[i + spec_dec(n).len()]),
    ensures
        spec_parse_number(s, i) == Some((n, i + spec_dec(n).len() as int)),
{
    let d = spec_dec(n);
    let e = i + d.len() as int;
    lemma_dec_digits(n);
    assert forall|j: int| i <= j < e implies is_digit(s[j]) by {
        assert(s[j] == d[j - i]);
    }
    lemma_digit_run_end(s, i, e);
    assert(digit_run_end(s, i) == e);
    lemma_dec_val(n);
    assert(s.subrange(i, e) == d);
}

/// The run of digits covering `[i, e)` with a non-digit boundary at `e`
/// ends exactly at `e`.
proof fn lemma_digit_run_end(s: Seq<u8>, i: int, e: int)
    requires
        0 <= i <= e <= s.len(),
        forall|j: int| i <= j < e ==> is_digit(s[j]),
        e == s.len() || !is_digit(s[e]),
    ensures
        digit_run_end(s, i) == e,
    decreases e - i,
{
    if i < e {
        lemma_digit_run_end(s, i + 1, e);
    }
}

/// How many digits a number's decimal text has, stepwise up to the ten
/// digits that cover a `u32`.
pub proof fn lemma_dec_len(n: nat)
    ensures
        n <= 9 ==> spec_dec(n).len() == 1,
        n <= 99 ==> spec_dec(n).len() <= 2,
        n <= 999 ==> spec_dec(n).len() <= 3,
        n <= 9999 ==> spec_dec(n).len() <= 4,
        n <= 99999 ==> spec_dec(n).len() <= 5,
        n <= 999999 ==> spec_dec(n).len() <= 6,
        n <= 9999999 ==> spec_dec(n).len() <= 7,
        n <= 99999999 ==> spec_dec(n).len() <= 8,
        n <= 999999999 ==> spec_dec(n).len() <= 9,
        n <= 9999999999 ==> spec_dec(n).len() <= 10,
    decreases n,
{
    if n >= 10 {
        lemma_dec_len(n / 10);
    }
}

/// The value of a digit string never shrinks when digits are appended.
pub proof fn lemma_dec_val_prefix(s: Seq<u8>, m: int)
    requires
        0 <= m <= s.len(),
    ensures
        dec_val(s.subrange(0, m)) <= dec_val(s),
    decreases s.len() - m,
{
    if m < s.len() {
        lemma_dec_val_prefix(s, m + 1);
        let a = s.subrange(0, m);
        let b = s.subrange(0, m + 1);
        assert(b.drop_last() =~= a);
        assert(dec_val(b) >= dec_val(a));
    } else {
        assert(s.subrange(0, m) =~= s);
    }
}

/// Appends the decimal text of `n` to `out`.
pub fn push_dec(out: &mut Vec<u8>, n: u32)
    ensures
        final(out)@ == old(out)@ + spec_dec(n as nat),
    decreases n,
{
    if n < 10 {
        out.push(0x30 + n as u8);
        assert(out@ =~= old(out)@ + spec_dec(n as nat));
    } else {
        push_dec(out, n / 10);
        out.push(0x30 + (n % 10) as u8);
        assert(out@ =~= old(out)@ + spec_dec(n as nat));
    }
}

/// Reads the digit run starting at `i` as a number no greater than
/// `u32::MAX`; `None` where no digit stands at `i` or the run's value is
/// too large.
pub fn parse_u32_at(s: &Vec<u8>, i: usize) -> (r: Option<(u32, usize)>)
    ensures
        match r {
            Some((v, e)) => spec_parse_number(s@, i as int) == Some((v as nat, e as int)) && i < e
                <= s@.len(),
            None => spec_parse_number(s@, i as int) is None || (spec_parse_number(
                s@,
                i as int,
            )->Some_0).0 > u32::MAX,
        },
{
    if i >= s.len() || !digit_exec(s[i]) {
        return None;
    }
    let ghost e = digit_run_end(s@, i as int);
    proof {
        lemma_digit_run_end_props(s@, i as int);
        lemma_digit_run_end_props(s@, i as int + 1);
        assert(e == digit_run_end(s@, i as int + 1));
        assert(e > i);
    }
    let mut j: usize = i;
    let mut acc: u64 = 0;
    while j < s.len() && digit_exec(s[j])
        invariant
            i <= j <= s.len(),
            j <= e,
            e == digit_run_end(s@, i as int),
            i as int <= e <= s@.len(),
            forall|k: int| i <= k < e ==> is_digit(s@[k]),
            e == s@.len() || !is_digit(s@[e]),
            forall|k: int| i <= k < j ==> is_digit(s@[k]),
            acc == dec_val(s@.subrange(i as int, j as int)),
            acc <= u32::MAX,
        decreases s.len() - j,
    {
        proof {
            if j as int == e {
                assert(is_digit(s@[e]));
                assert(false);
            }
        }
        let d = s[j] - 0x30;
        let next: u64 = acc * 10 + d as u64;
        proof {
            assert(s@.subrange(i as int, j as int + 1).drop_last() =~= s@.subrange(
                i as int,
                j as int,
            ));
        }
        if next > u32::MAX as u64 {
            proof {
                let whole = s@.subrange(i as int, e);
                let part = s@.subrange(i as int, j as int + 1);
                assert(part =~= whole.subrange(0, j as int + 1 - i));
                lemma_dec_val_prefix(whole, j as int + 1 - i);
            }
            return None;
        }
        acc = next;
        j = j + 1;
    }
    proof {
        if (j as int) < e {
            assert(is_digit(s@[j as int]));
        }
        assert(j as int == e);
        assert(i < j);
    }
    Some((acc as u32, j))
}

/// The end of a digit run lies in bounds, everything before it is a digit,
/// and it stops at the length or at a non-digit.
proof fn lemma_digit_run_end_props(s: Seq<u8>, i: int)
    requires
        0 <= i <= s.len(),
    ensures
        i <= digit_run_end(s, i) <= s.len(),
        forall|k: int| i <= k < digit_run_end(s, i) ==> is_digit(s[k]),
        digit_run_end(s, i) == s.len() || !is_digit(s[digit_run_end(s, i)]),
    decreases s.len() - i,
{
    if i < s.len() && is_digit(s[i]) {
        lemma_digit_run_end_props(s, i + 1);
    }
}

/// Whether a byte is an ASCII decimal digit.
fn digit_exec(b: u8) -> (r: bool)
    ensures
        r == is_digit(b),
{
    0x30 <= b && b <= 0x39
}

} // verus!
