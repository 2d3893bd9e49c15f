//! Fixed-width hexadecimal numerals over character sequences: the building
//! blocks of the persistence format. Every number is written as exactly 16
//! hex digits, least significant first, so records need no separators and
//! decoding is unambiguous; signed values carry one leading sign character.

use vstd::prelude::*;
use vstd::arithmetic::div_mod::lemma_fundamental_div_mod;

verus! {

/// Width, in characters, of every encoded number.
pub const NUM_WIDTH: usize = 16;

/// 16 to the `k`-th power: the number of values `k` hex digits can carry.
pub open spec fn pow16(k: nat) -> int
    decreases k,
{
    if k == 0 {
        1
    } else {
        16 * pow16((k - 1) as nat)
    }
}

/// 16 hex digits cover exactly the range of a 64-bit unsigned value.
pub proof fn lemma_pow16_u64()
    ensures
        pow16(16) == 0x1_0000_0000_0000_0000,
{
    reveal_with_fuel(pow16, 17);
}

/// Widths of digit sequences are positive counts of values.
pub proof fn lemma_pow16_pos(k: nat)
    ensures
        pow16(k) >= 1,
    decreases k,
{
    if k > 0 {
        lemma_pow16_pos((k - 1) as nat);
    }
}

/// `pow16` never shrinks as the width grows.
pub proof fn lemma_pow16_increases(j: nat, k: nat)
    requires
        j <= k,
    ensures
        1 <= pow16(j) <= pow16(k),
    decreases k,
{
    lemma_pow16_pos(j);
    if j < k {
        lemma_pow16_increases(j, (k - 1) as nat);
    }
}

/// The character for one hex digit value.
pub open spec fn hex_char_of(v: int) -> char
    recommends
        0 <= v < 16,
{
    if v == 0 {
        '0'
    } else if v == 1 {
        '1'
    } else if v == 2 {
        '2'
    } else if v == 3 {
        '3'
    } else if v == 4 {
        '4'
    } else if v == 5 {
        '5'
    } else if v == 6 {
        '6'
    } else if v == 7 {
        '7'
    } else if v == 8 {
        '8'
    } else if v == 9 {
        '9'
    } else if v == 10 {
        'a'
    } else if v == 11 {
        'b'
    } else if v == 12 {
        'c'
    } else if v == 13 {
        'd'
    } else if v == 14 {
        'e'
    } else {
        'f'
    }
}

/// The value of one hex digit character, or -1 when the character is not a
/// hex digit.
pub open spec fn hex_val_of(c: char) -> int {
    if c == '0' {
        0
    } else if c == '1' {
        1
    } else if c == '2' {
        2
    } else if c == '3' {
        3
    } else if c == '4' {
        4
    } else if c == '5' {
        5
    } else if c == '6' {
        6
    } else if c == '7' {
        7
    } else if c == '8' {
        8
    } else if c == '9' {
        9
    } else if c == 'a' {
        10
    } else if c == 'b' {
        11
    } else if c == 'c' {
        12
    } else if c == 'd' {
        13
    } else if c == 'e' {
        14
    } else if c == 'f' {
        15
    } else {
        -1
    }
}

/// Reading back the digit character of `v` yields `v`.
pub proof fn lemma_hex_char_val(v: int)
    requires
        0 <= v < 16,
    ensures
        hex_val_of(hex_char_of(v)) == v,
{
}

/// The `k` least-significant hex digits of `v`, least significant first.
pub open spec fn hex_digits(v: nat, k: nat) -> Seq<char>
    decreases k,
{
    if k == 0 {
        Seq::empty()
    } else {
        seq![hex_char_of((v % 16) as int)] + hex_digits(v / 16, (k - 1) as nat)
    }
}

/// Every character of `s` is a hex digit.
pub open spec fn all_hex(s: Seq<char>) -> bool {
    forall|i: int| 0 <= i < s.len() ==> hex_val_of(#[trigger] s[i]) >= 0
}

/// The number a least-significant-first digit sequence denotes.
pub open spec fn hex_value(s: Seq<char>) -> int
    decreases s.len(),
{
    if s.len() == 0 {
        0
    } else {
        hex_val_of(s[0]) + 16 * hex_value(s.drop_first())
    }
}

/// Round trip for unsigned numerals: the digits of `v` denote `v`.
pub proof fn lemma_hex_digits_value(v: nat, k: nat)
    requires
        v < pow16(k),
    ensures
        hex_digits(v, k).len() == k,
        all_hex(hex_digits(v, k)),
        hex_value(hex_digits(v, k)) == v,
    decreases k,
{
    if k > 0 {
        lemma_fundamental_div_mod(v as int, 16);
        assert(v / 16 < pow16((k - 1) as nat));
        lemma_hex_digits_value(v / 16, (k - 1) as nat);
        lemma_hex_char_val((v % 16) as int);
        let s = hex_digits(v, k);
        let rest = hex_digits(v / 16, (k - 1) as nat);
        assert(s.drop_first() =~= rest);
        assert(s[0] == hex_char_of((v % 16) as int));
        assert forall|i: int| 0 <= i < s.len() implies hex_val_of(#[trigger] s[i]) >= 0 by {
            if i > 0 {
                assert(s[i] == rest[i - 1]);
            }
        }
    }
}

/// A signed value as a sign character followed by the 16 digits of its
/// magnitude. Nonnegative values carry '+', negative ones '-'.
pub open spec fn signed_digits(v: int) -> Seq<char> {
    if v >= 0 {
        seq!['+'] + hex_digits(v as nat, 16)
    } else {
        seq!['-'] + hex_digits((-v) as nat, 16)
    }
}

/// The signed value a 17-character sequence denotes, when it is a sign
/// character followed by 16 hex digits and the result fits in an `i64`.
pub open spec fn signed_value(s: Seq<char>) -> Option<int> {
    if s.len() == 17 && (s[0] == '+' || s[0] == '-') && all_hex(s.skip(1)) {
        let m = hex_value(s.skip(1));
        if s[0] == '+' {
            if m <= i64::MAX {
                Some(m)
            } else {
                None
            }
        } else {
            if m <= 0x8000_0000_0000_0000 {
                Some(-m)
            } else {
                None
            }
        }
    } else {
        None
    }
}

/// Round trip for signed numerals: the digits of any `i64`-range value
/// denote that value.
pub proof fn lemma_signed_digits_value(v: int)
    requires
        i64::MIN <= v <= i64::MAX,
    ensures
        signed_digits(v).len() == 17,
        signed_value(signed_digits(v)) == Some(v),
{
    lemma_pow16_u64();
    let m: nat = if v >= 0 {
        v as nat
    } else {
        (-v) as nat
    };
    lemma_hex_digits_value(m, 16);
    let s = signed_digits(v);
    assert(s.skip(1) =~= hex_digits(m, 16));
}

// ---------------------------------------------------------------------------
// Executable encoders and decoders
// ---------------------------------------------------------------------------

/// The digit character of `d`.
fn hex_char(d: u64) -> (c: char)
    requires
        d < 16,
    ensures
        c == hex_char_of(d as int),
{
    if d == 0 {
        '0'
    } else if d == 1 {
        '1'
    } else if d == 2 {
        '2'
    } else if d == 3 {
        '3'
    } else if d == 4 {
        '4'
    } else if d == 5 {
        '5'
    } else if d == 6 {
        '6'
    } else if d == 7 {
        '7'
    } else if d == 8 {
        '8'
    } else if d == 9 {
        '9'
    } else if d == 10 {
        'a'
    } else if d == 11 {
        'b'
    } else if d == 12 {
        'c'
    } else if d == 13 {
        'd'
    } else if d == 14 {
        'e'
    } else {
        'f'
    }
}

/// The value of a digit character, or nothing when `c` is not a hex digit.
fn hex_val(c: char) -> (r: Option<u64>)
    ensures
        match r {
            Some(d) => d < 16 && hex_val_of(c) == d,
            None => hex_val_of(c) == -1,
        },
{
    if c == '0' {
        Some(0)
    } else if c == '1' {
        Some(1)
    } else if c == '2' {
        Some(2)
    } else if c == '3' {
        Some(3)
    } else if c == '4' {
        Some(4)
    } else if c == '5' {
        Some(5)
    } else if c == '6' {
        Some(6)
    } else if c == '7' {
        Some(7)
    } else if c == '8' {
        Some(8)
    } else if c == '9' {
        Some(9)
    } else if c == 'a' {
        Some(10)
    } else if c == 'b' {
        Some(11)
    } else if c == 'c' {
        Some(12)
    } else if c == 'd' {
        Some(13)
    } else if c == 'e' {
        Some(14)
    } else if c == 'f' {
        Some(15)
    } else {
        None
    }
}

/// Append `k` little-endian hex digits of `v` to `out`.
fn push_hex_digits(out: &mut Vec<char>, v: u64, k: usize)
    ensures
        final(out)@ == old(out)@ + hex_digits(v as nat, k as nat),
    decreases k,
{
    if k == 0 {
        proof {
            assert(final(out)@ =~= old(out)@ + hex_digits(v as nat, 0));
        }
        return ;
    }
    let ghost base = out@;
    out.push(hex_char(v % 16));
    proof {
        lemma_fundamental_div_mod(v as int, 16);
    }
    push_hex_digits(out, v / 16, k - 1);
    proof {
        assert((v / 16) as nat == (v as nat) / 16);
        assert((v % 16) as int == (v as nat) % 16);
        assert(out@ =~= base + hex_digits(v as nat, k as nat));
    }
}

/// Append the 16-digit numeral of `v` to `out`.
pub fn push_u64(out: &mut Vec<char>, v: u64)
    ensures
        final(out)@ == old(out)@ + hex_digits(v as nat, 16),
{
    push_hex_digits(out, v, NUM_WIDTH);
}

/// Append the signed 17-character numeral of `v` to `out`.
pub fn push_i64(out: &mut Vec<char>, v: i64)
    ensures
        final(out)@ == old(out)@ + signed_digits(v as int),
{
    let ghost base = out@;
    if v >= 0 {
        out.push('+');
        push_hex_digits(out, v as u64, NUM_WIDTH);
        proof {
            assert(out@ =~= base + signed_digits(v as int));
        }
    } else {
        out.push('-');
        let m: u64 = (-(v as i128)) as u64;
        proof {
            assert(m as nat == (-(v as int)) as nat);
        }
        push_hex_digits(out, m, NUM_WIDTH);
        proof {
            assert(out@ =~= base + signed_digits(v as int));
        }
    }
}

/// Read `k` hex digits at `pos`, least significant first.
fn read_hex_digits(s: &[char], pos: usize, k: usize) -> (r: Option<u64>)
    requires
        pos + k <= s@.len(),
        k <= 16,
    ensures
        match r {
            Some(v) => {
                &&& all_hex(s@.subrange(pos as int, pos + k))
                &&& v as int == hex_value(s@.subrange(pos as int, pos + k))
                &&& (v as int) < pow16(k as nat)
            },
            None => !all_hex(s@.subrange(pos as int, pos + k)),
        },
    decreases k,
{
    let ghost seg = s@.subrange(pos as int, pos + k);
    if k == 0 {
        proof {
            assert(seg =~= Seq::<char>::empty());
        }
        return Some(0);
    }
    match hex_val(s[pos]) {
        None => {
            proof {
                assert(seg[0] == s@[pos as int]);
            }
            None
        },
        Some(d) => {
            let rest = read_hex_digits(s, pos + 1, k - 1);
            proof {
                assert(seg.drop_first() =~= s@.subrange(pos + 1, pos + k));
                assert(seg[0] == s@[pos as int]);
            }
            match rest {
                None => None,
                Some(rv) => {
                    proof {
                        lemma_pow16_increases((k - 1) as nat, 15);
                        reveal_with_fuel(pow16, 16);
                        assert(pow16(15) == 0x1000_0000_0000_0000);
                        assert forall|i: int| 0 <= i < seg.len() implies hex_val_of(
                            #[trigger] seg[i],
                        ) >= 0 by {
                            if i > 0 {
                                assert(seg[i] == seg.drop_first()[i - 1]);
                            }
                        }
                    }
                    Some(d + 16 * rv)
                },
            }
        },
    }
}

/// Read the 16-digit numeral at `pos`.
pub fn read_u64(s: &[char], pos: usize) -> (r: Option<u64>)
    requires
        pos + 16 <= s@.len(),
    ensures
        match r {
            Some(v) => all_hex(s@.subrange(pos as int, pos + 16)) && v as int == hex_value(
                s@.subrange(pos as int, pos + 16),
            ),
            None => !all_hex(s@.subrange(pos as int, pos + 16)),
        },
{
    read_hex_digits(s, pos, NUM_WIDTH)
}

/// Read the signed 17-character numeral at `pos`.
pub fn read_i64(s: &[char], pos: usize) -> (r: Option<i64>)
    requires
        pos + 17 <= s@.len(),
    ensures
        match r {
            Some(v) => signed_value(s@.subrange(pos as int, pos + 17)) == Some(v as int),
            None => signed_value(s@.subrange(pos as int, pos + 17)) is None,
        },
{
    let ghost seg = s@.subrange(pos as int, pos + 17);
    let sign = s[pos];
    proof {
        assert(seg[0] == s@[pos as int]);
        assert(seg.skip(1) =~= s@.subrange(pos + 1, pos + 17));
        assert(seg.len() == 17);
    }
    if sign != '+' && sign != '-' {
        return None;
    }
    match read_hex_digits(s, pos + 1, NUM_WIDTH) {
        None => None,
        Some(m) => {
            if sign == '+' {
                if m <= i64::MAX as u64 {
                    Some(m as i64)
                } else {
                    None
                }
            } else {
                if m < 0x8000_0000_0000_0000 {
                    Some(-(m as i64))
                } else if m == 0x8000_0000_0000_0000 {
                    Some(i64::MIN)
                } else {
                    None
                }
            }
        },
    }
}

} // verus!
