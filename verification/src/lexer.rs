use vstd::prelude::*;

use crate::err::Error;
use crate::err::ErrorV;

verus! {

broadcast use vstd::group_vstd_default;

/// Whitespace bytes of the format: NUL, TAB, LF, FF, CR, SPACE.
pub open spec fn is_ws(b: u8) -> bool {
    b == 0x00 || b == 0x09 || b == 0x0a || b == 0x0c || b == 0x0d || b == 0x20
}

/// ASCII decimal digit.
pub open spec fn is_digit(b: u8) -> bool {
    0x30 <= b <= 0x39
}

/// Index of the first byte at or after `i` that is not whitespace.
pub open spec fn ws_end(s: Seq<u8>, i: int) -> int
    recommends
        0 <= i <= s.len(),
    decreases s.len() - i when 0 <= i <= s.len()
{
    if i >= s.len() {
        i
    } else if is_ws(s[i]) {
        ws_end(s, i + 1)
    } else {
        i
    }
}

/// Index of the first byte at or after `i` that is not a decimal digit.
pub open spec fn digits_end(s: Seq<u8>, i: int) -> int
    recommends
        0 <= i <= s.len(),
    decreases s.len() - i when 0 <= i <= s.len()
{
    if i >= s.len() {
        i
    } else if is_digit(s[i]) {
        digits_end(s, i + 1)
    } else {
        i
    }
}

/// Value of the decimal digit run `s[i..j)`.
pub open spec fn digits_val(s: Seq<u8>, i: int, j: int) -> int
    recommends
        0 <= i <= j <= s.len(),
    decreases j - i when i <= j
{
    if j <= i {
        0
    } else {
        digits_val(s, i, j - 1) * 10 + (s[j - 1] - 0x30)
    }
}

/// The next integer token at or after `i`: whitespace is skipped, then a
/// non-empty digit run is read.  Yields the token's value and the index just
/// past its last digit, or a malformed-stream error when no digit follows.
pub open spec fn spec_next_int(s: Seq<u8>, i: int) -> Result<(int, int), ErrorV> {
    let a = ws_end(s, i);
    let b = digits_end(s, a);
    if a == b {
        Err(ErrorV::MalformedTokenStream)
    } else {
        Ok((digits_val(s, a, b), b))
    }
}

/// When everything in `[from, i)` is whitespace and `i` is at the end or at a
/// non-whitespace byte, the whitespace run ends exactly at `i`.
proof fn lemma_ws_end_at(s: Seq<u8>, from: int, i: int)
    requires
        0 <= from <= i <= s.len(),
        forall|j: int| from <= j < i ==> is_ws(#[trigger] s[j]),
        i < s.len() ==> !is_ws(s[i]),
    ensures
        ws_end(s, from) == i,
    decreases i - from,
{
    if from < i {
        lemma_ws_end_at(s, from + 1, i);
    }
}

/// Characterization of `digits_end`: it stays within bounds, everything
/// before it is a digit, and it stops at the end or at a non-digit.
proof fn lemma_digits_end_props(s: Seq<u8>, from: int)
    requires
        0 <= from <= s.len(),
    ensures
        from <= digits_end(s, from) <= s.len(),
        forall|j: int| from <= j < digits_end(s, from) ==> is_digit(#[trigger] s[j]),
        digits_end(s, from) < s.len() ==> !is_digit(s[digits_end(s, from)]),
    decreases s.len() - from,
{
    if from < s.len() && is_digit(s[from]) {
        lemma_digits_end_props(s, from + 1);
    }
}

/// When everything in `[from, i)` is a digit and `i` is at the end or at a
/// non-digit byte, the digit run ends exactly at `i`.
proof fn lemma_digits_end_at(s: Seq<u8>, from: int, i: int)
    requires
        0 <= from <= i <= s.len(),
        forall|j: int| from <= j < i ==> is_digit(#[trigger] s[j]),
        i < s.len() ==> !is_digit(s[i]),
    ensures
        digits_end(s, from) == i,
    decreases i - from,
{
    if from < i {
        lemma_digits_end_at(s, from + 1, i);
    }
}

/// A digit run's value is non-negative.
proof fn lemma_digits_val_nonneg(s: Seq<u8>, i: int, j: int)
    requires
        0 <= i <= j <= s.len(),
        forall|t: int| i <= t < j ==> is_digit(#[trigger] s[t]),
    ensures
        digits_val(s, i, j) >= 0,
    decreases j - i,
{
    if i < j {
        lemma_digits_val_nonneg(s, i, j - 1);
    }
}

/// Reading more digits never makes the value smaller.
proof fn lemma_digits_val_mono(s: Seq<u8>, i: int, j: int, k: int)
    requires
        0 <= i <= j <= k <= s.len(),
        forall|t: int| i <= t < k ==> is_digit(#[trigger] s[t]),
    ensures
        digits_val(s, i, j) <= digits_val(s, i, k),
    decreases k - j,
{
    if j < k {
        lemma_digits_val_mono(s, i, j, k - 1);
        lemma_digits_val_nonneg(s, i, k - 1);
    }
}

/// True exactly on the format's whitespace bytes.
fn ws_byte(b: u8) -> (r: bool)
    ensures
        r == is_ws(b),
{
    b == 0x00 || b == 0x09 || b == 0x0a || b == 0x0c || b == 0x0d || b == 0x20
}

/// True exactly on ASCII decimal digits.
fn digit_byte(b: u8) -> (r: bool)
    ensures
        r == is_digit(b),
{
    0x30 <= b && b <= 0x39
}

/// Reads one whitespace-separated decimal integer token starting at `pos`,
/// returning its value and the index just past its last digit.  Fails with a
/// malformed-stream error when no digit follows the whitespace or when the
/// value does not fit in a `u64`.
pub fn next_u64(data: &Vec<u8>, pos: usize) -> (r: Result<(u64, usize), Error>)
    requires
        pos <= data@.len(),
    ensures
        match r {
            Ok(p) => {
                &&& spec_next_int(data@, pos as int) == Ok::<(int, int), ErrorV>(
                    (p.0 as int, p.1 as int),
                )
                &&& pos <= p.1 <= data@.len()
            },
            Err(e) => {
                &&& e@ == ErrorV::MalformedTokenStream
                &&& match spec_next_int(data@, pos as int) {
                    Err(e2) => e2 == ErrorV::MalformedTokenStream,
                    Ok(p) => p.0 > u64::MAX,
                }
            },
        },
{
    let len = data.len();
    let mut i = pos;
    while i < len && ws_byte(data[i])
        invariant
            pos <= i <= len,
            len == data@.len(),
            forall|j: int| pos <= j < i ==> is_ws(#[trigger] data@[j]),
        decreases len - i,
    {
        i += 1;
    }
    proof {
        lemma_ws_end_at(data@, pos as int, i as int);
    }
    let start = i;
    if i == len || !digit_byte(data[i]) {
        proof {
            lemma_digits_end_at(data@, start as int, start as int);
        }
        return Err(Error::MalformedTokenStream);
    }
    let mut acc: u128 = 0;
    while i < len && digit_byte(data[i])
        invariant
            pos <= start <= i <= len,
            len == data@.len(),
            ws_end(data@, pos as int) == start,
            forall|j: int| start <= j < i ==> is_digit(#[trigger] data@[j]),
            acc == digits_val(data@, start as int, i as int),
            acc <= u64::MAX,
        decreases len - i,
    {
        let d = data[i] - 0x30;
        acc = acc * 10 + (d as u128);
        if acc > (u64::MAX as u128) {
            proof {
                lemma_digits_end_props(data@, start as int);
                let b = digits_end(data@, start as int);
                assert(b >= i + 1) by {
                    if b < i + 1 {
                        assert(is_digit(data@[b]));
                    }
                }
                lemma_digits_val_mono(data@, start as int, i as int + 1, b);
                assert(digits_val(data@, start as int, b) > u64::MAX);
            }
            return Err(Error::MalformedTokenStream);
        }
        i += 1;
    }
    proof {
        lemma_digits_end_at(data@, start as int, i as int);
        lemma_digits_val_nonneg(data@, start as int, i as int);
    }
    Ok((acc as u64, i))
}

/// The offsets declared by `n` integer pairs `(object number, byte offset)`
/// read from index `i` on: the second components, in order of appearance.
/// Malformed when a token is missing or malformed, when an object number
/// does not fit in a `u64`, or when an offset does not fit in a `usize`.
pub open spec fn spec_parse_pairs(s: Seq<u8>, i: int, n: nat) -> Result<Seq<int>, ErrorV>
    decreases n,
{
    if n == 0 {
        Ok(Seq::empty())
    } else {
        match spec_next_int(s, i) {
            Err(e) => Err(e),
            Ok(p1) => if p1.0 > u64::MAX {
                Err(ErrorV::MalformedTokenStream)
            } else {
                match spec_next_int(s, p1.1) {
                    Err(e) => Err(e),
                    Ok(p2) => if p2.0 > usize::MAX {
                        Err(ErrorV::MalformedTokenStream)
                    } else {
                        match spec_parse_pairs(s, p2.1, (n - 1) as nat) {
                            Ok(rest) => Ok(seq![p2.0] + rest),
                            Err(e) => Err(e),
                        }
                    },
                }
            },
        }
    }
}

/// An offset table viewed as a sequence of unbounded integers.
pub open spec fn offsets_view(v: Seq<usize>) -> Seq<int> {
    v.map_values(|x: usize| x as int)
}

/// Reads `n` integer pairs `(object number, byte offset)` from the start of
/// `data` and returns the byte offsets in order of appearance.
pub fn parse_offsets(data: &Vec<u8>, n: u64) -> (r: Result<Vec<usize>, Error>)
    ensures
        match r {
            Ok(v) => {
                &&& spec_parse_pairs(data@, 0, n as nat) == Ok::<Seq<int>, ErrorV>(
                    offsets_view(v@),
                )
                &&& v@.len() == n
            },
            Err(e) => spec_parse_pairs(data@, 0, n as nat) == Err::<Seq<int>, ErrorV>(e@),
        },
{
    let mut out: Vec<usize> = Vec::new();
    let mut pos: usize = 0;
    let mut k: u64 = 0;
    while k < n
        invariant
            k <= n,
            pos <= data@.len(),
            out@.len() == k,
            match spec_parse_pairs(data@, pos as int, (n - k) as nat) {
                Ok(rest) => spec_parse_pairs(data@, 0, n as nat) == Ok::<Seq<int>, ErrorV>(
                    offsets_view(out@) + rest,
                ),
                Err(e) => spec_parse_pairs(data@, 0, n as nat) == Err::<Seq<int>, ErrorV>(e),
            },
        decreases n - k,
    {
        let ghost s = data@;
        let ghost m = (n - k) as nat;
        let ghost pos0 = pos as int;
        let ghost out0 = out@;
        let p1 = match next_u64(data, pos) {
            Ok(p) => p,
            Err(e) => {
                return Err(e);
            },
        };
        let p2 = match next_u64(data, p1.1) {
            Ok(p) => p,
            Err(e) => {
                return Err(e);
            },
        };
        if p2.0 > (usize::MAX as u64) {
            return Err(Error::MalformedTokenStream);
        }
        let off = p2.0 as usize;
        out.push(off);
        pos = p2.1;
        k += 1;
        proof {
            assert((n - k) as nat == (m - 1) as nat);
            let rest1 = spec_parse_pairs(s, pos as int, (m - 1) as nat);
            assert(spec_parse_pairs(s, pos0, m) == (match rest1 {
                Ok(rest) => Ok::<Seq<int>, ErrorV>(seq![off as int] + rest),
                Err(e) => Err::<Seq<int>, ErrorV>(e),
            }));
            if rest1 is Ok {
                let rest = rest1->Ok_0;
                assert(offsets_view(out@) =~= offsets_view(out0) + seq![off as int]);
                assert((offsets_view(out0) + seq![off as int]) + rest
                    =~= offsets_view(out0) + (seq![off as int] + rest));
            }
        }
    }
    proof {
        assert(offsets_view(out@) + Seq::<int>::empty() =~= offsets_view(out@));
    }
    Ok(out)
}

} // verus!
