//! Offsets as text: reading `0x1A2B.b3` typed by a user, and writing the
//! current offset and region size for a status line.

use vstd::prelude::*;
use vstd::string::{StrSliceExecFns, StringExecFns};

verus! {

/// Value of `c` as a digit in base `radix` (10 or 16; both cases of hexadecimal
/// letters), if it is one.
pub open spec fn digit_value(c: char, radix: nat) -> Option<nat> {
    let v = c as u32 as nat;
    if 48 <= v <= 57 && v - 48 < radix {
        Some((v - 48) as nat)
    } else if radix == 16 && 97 <= v <= 102 {
        Some((v - 87) as nat)
    } else if radix == 16 && 65 <= v <= 70 {
        Some((v - 55) as nat)
    } else {
        None
    }
}

/// Every character of `s` is a digit in base `radix`.
pub open spec fn all_digits(s: Seq<char>, radix: nat) -> bool {
    forall|i: int| 0 <= i < s.len() ==> (#[trigger] digit_value(s[i], radix)) is Some
}

/// The number the digits of `s` write in base `radix`, most significant first.
pub open spec fn digits_value(s: Seq<char>, radix: nat) -> nat
    decreases s.len(),
{
    if s.len() == 0 {
        0
    } else {
        let last = match digit_value(s.last(), radix) {
            Some(d) => d,
            None => 0,
        };
        digits_value(s.drop_last(), radix) * radix + last
    }
}

/// An unsigned number as std's `from_str_radix` reads it: an optional `+`, then
/// at least one digit, with a value of at most `max`.
pub open spec fn parse_unsigned(s: Seq<char>, radix: nat, max: nat) -> Option<nat> {
    let digits = if s.len() > 0 && s[0] == '+' { s.drop_first() } else { s };
    if digits.len() > 0 && all_digits(digits, radix) && digits_value(digits, radix) <= max {
        Some(digits_value(digits, radix))
    } else {
        None
    }
}

/// Position of the first `.b` in `s` at or after `from`.
pub open spec fn marker_from(s: Seq<char>, from: int) -> Option<int>
    decreases s.len() - from,
{
    if from < 0 || from + 1 >= s.len() {
        None
    } else if s[from] == '.' && s[from + 1] == 'b' {
        Some(from)
    } else {
        marker_from(s, from + 1)
    }
}

/// The part of an offset text before its first `.b`.
pub open spec fn byte_part(s: Seq<char>) -> Seq<char> {
    match marker_from(s, 0) {
        Some(i) => s.subrange(0, i),
        None => s,
    }
}

/// The bit number of an offset text: the decimal number after its first `.b`,
/// which must be a bit of a byte (0 to 7), or 0 where there is no `.b`.
pub open spec fn bit_part_value(s: Seq<char>) -> Option<nat> {
    match marker_from(s, 0) {
        Some(i) => parse_unsigned(s.subrange(i + 2, s.len() as int), 10, 7),
        None => Some(0),
    }
}

/// `s` without a leading `0x`.
pub open spec fn without_hex_prefix(s: Seq<char>) -> Seq<char> {
    if s.len() >= 2 && s[0] == '0' && s[1] == 'x' {
        s.subrange(2, s.len() as int)
    } else {
        s
    }
}

/// The byte offset and bit number an offset text names: a hexadecimal byte
/// offset with an optional `0x` prefix, then optionally `.b` and a bit number.
pub open spec fn offset_text_value(s: Seq<char>) -> Option<(nat, nat)> {
    match bit_part_value(s) {
        Some(bit) => match parse_unsigned(without_hex_prefix(byte_part(s)), 16, usize::MAX as nat) {
            Some(byte) => Some((byte, bit)),
            None => None,
        },
        None => None,
    }
}

fn digit(c: char, radix: u32) -> (r: Option<u32>)
    requires
        radix == 10 || radix == 16,
    ensures
        r matches Some(d) ==> digit_value(c, radix as nat) == Some(d as nat) && d < radix,
        r is None ==> digit_value(c, radix as nat) is None,
{
    let v = c as u32;
    if 48 <= v && v <= 57 && v - 48 < radix {
        Some(v - 48)
    } else if radix == 16 && 97 <= v && v <= 102 {
        Some(v - 87)
    } else if radix == 16 && 65 <= v && v <= 70 {
        Some(v - 55)
    } else {
        None
    }
}

proof fn lemma_digits_value_prefix(s: Seq<char>, radix: nat, k: int)
    requires
        0 <= k <= s.len(),
        radix >= 1,
    ensures
        digits_value(s.subrange(0, k), radix) <= digits_value(s, radix),
    decreases s.len(),
{
    if k < s.len() {
        let t = s.drop_last();
        assert(t.subrange(0, k) =~= s.subrange(0, k));
        lemma_digits_value_prefix(t, radix, k);
        let v = digits_value(t, radix);
        assert(v <= v * radix) by (nonlinear_arith)
            requires
                radix >= 1,
        ;
    } else {
        assert(s.subrange(0, k) =~= s);
    }
}

/// Reads `s[lo..hi]` as std's `from_str_radix` reads an unsigned number of at
/// most `max`.
fn parse_unsigned_in(s: &str, lo: usize, hi: usize, radix: u32, max: usize) -> (r: Option<usize>)
    requires
        lo <= hi <= s@.len(),
        radix == 10 || radix == 16,
    ensures
        match parse_unsigned(s@.subrange(lo as int, hi as int), radix as nat, max as nat) {
            Some(v) => r == Some(v as usize),
            None => r is None,
        },
{
    let ghost text = s@.subrange(lo as int, hi as int);
    let mut start = lo;
    if lo < hi && s.get_char(lo) == '+' {
        start = lo + 1;
    }
    let ghost digits = s@.subrange(start as int, hi as int);
    assert(digits =~= (if text.len() > 0 && text[0] == '+' { text.drop_first() } else { text }));
    if start == hi {
        assert(digits.len() == 0);
        return None;
    }
    let mut value: usize = 0;
    let mut i: usize = start;
    while i < hi
        invariant
            start <= i <= hi <= s@.len(),
            radix == 10 || radix == 16,
            digits == s@.subrange(start as int, hi as int),
            text == s@.subrange(lo as int, hi as int),
            digits == (if text.len() > 0 && text[0] == '+' { text.drop_first() } else { text }),
            value == digits_value(s@.subrange(start as int, i as int), radix as nat),
            value <= max,
            all_digits(s@.subrange(start as int, i as int), radix as nat),
        decreases hi - i,
    {
        let ghost prefix = s@.subrange(start as int, i as int);
        let ghost next = s@.subrange(start as int, i + 1);
        assert(next.drop_last() =~= prefix);
        assert(next.last() == s@[i as int]);
        assert(next =~= digits.subrange(0, i + 1 - start));
        let d = match digit(s.get_char(i), radix) {
            Some(d) => d,
            None => {
                assert(digits[i - start] == s@[i as int]);
                assert(digit_value(digits[i - start], radix as nat) is None);
                return None;
            },
        };
        assert(all_digits(next, radix as nat)) by {
            assert forall|j: int| 0 <= j < next.len() implies (#[trigger] digit_value(next[j], radix as nat)) is Some by {
                if j < prefix.len() {
                    assert(next[j] == prefix[j]);
                }
            }
        }
        let grown = match value.checked_mul(radix as usize) {
            Some(v) => v.checked_add(d as usize),
            None => None,
        };
        match grown {
            Some(v) if v <= max => {
                value = v;
            },
            _ => {
                proof {
                    assert(digits_value(next, radix as nat) == value * radix + d);
                    assert(value * radix + d > max) by (nonlinear_arith)
                        requires
                            value * radix > usize::MAX || value * radix + d > usize::MAX || value * radix + d > max,
                            max <= usize::MAX,
                            d >= 0,
                    ;
                    lemma_digits_value_prefix(digits, radix as nat, i + 1 - start);
                    assert(digits_value(digits, radix as nat) > max);
                }
                return None;
            },
        }
        i = i + 1;
    }
    assert(s@.subrange(start as int, i as int) =~= digits);
    Some(value)
}

/// Position of the first `.b` in `s`.
fn find_marker(s: &str) -> (r: Option<usize>)
    ensures
        r matches Some(i) ==> marker_from(s@, 0) == Some(i as int) && i + 1 < s@.len(),
        r is None ==> marker_from(s@, 0) is None,
{
    let n = s.unicode_len();
    if n < 2 {
        return None;
    }
    let mut i: usize = 0;
    while i < n - 1
        invariant
            n == s@.len(),
            n >= 2,
            marker_from(s@, 0) == marker_from(s@, i as int),
        decreases n - i,
    {
        if s.get_char(i) == '.' && s.get_char(i + 1) == 'b' {
            return Some(i);
        }
        i = i + 1;
    }
    None
}

/// Reads an offset text: the byte offset and the bit number it names, or `None`
/// where it is malformed.
pub fn parse_offset_text(s: &str) -> (r: Option<(usize, u8)>)
    ensures
        match offset_text_value(s@) {
            Some((byte, bit)) => r == Some((byte as usize, bit as u8)),
            None => r is None,
        },
{
    let n = s.unicode_len();
    let marker = find_marker(s);
    let offs_end: usize = match marker {
        Some(i) => i,
        None => n,
    };
    let bit: u8 = match marker {
        Some(i) => match parse_unsigned_in(s, i + 2, n, 10, 7) {
            Some(b) => b as u8,
            None => return None,
        },
        None => 0,
    };
    assert(bit_part_value(s@) == Some(bit as nat));
    let hex_start: usize = if offs_end >= 2 && s.get_char(0) == '0' && s.get_char(1) == 'x' { 2 } else { 0 };
    proof {
        let offs = s@.subrange(0, offs_end as int);
        if offs_end == n {
            assert(offs =~= s@);
        }
        assert(offs == byte_part(s@));
        if hex_start == 2 {
            assert(offs.subrange(2, offs.len() as int) =~= s@.subrange(2, offs_end as int));
        }
        assert(without_hex_prefix(offs) =~= s@.subrange(hex_start as int, offs_end as int));
    }
    match parse_unsigned_in(s, hex_start, offs_end, 16, usize::MAX) {
        Some(v) => Some((v, bit)),
        None => None,
    }
}

/// The character of digit `d` (0 to 15), with uppercase hexadecimal letters.
pub open spec fn digit_char(d: nat) -> char {
    seq!['0', '1', '2', '3', '4', '5', '6', '7', '8', '9', 'A', 'B', 'C', 'D', 'E', 'F'][d as int]
}

/// The digits of `n` in base `radix` (10 or 16), most significant first, with
/// no leading zeros.
pub open spec fn radix_digits(n: nat, radix: nat) -> Seq<char>
    decreases n
    via radix_digits_decreases
{
    if radix < 2 || n < radix {
        seq![digit_char(n)]
    } else {
        radix_digits(n / radix, radix).push(digit_char(n % radix))
    }
}

#[via_fn]
proof fn radix_digits_decreases(n: nat, radix: nat) {
    if !(radix < 2 || n < radix) {
        lemma_radix_digits_shrinks(n, radix);
    }
}

/// `s` with zeros in front to make it at least `width` characters long.
pub open spec fn zero_padded(s: Seq<char>, width: nat) -> Seq<char> {
    if s.len() >= width {
        s
    } else {
        Seq::new((width - s.len()) as nat, |i: int| '0') + s
    }
}

/// A bit offset as text: `0x`, the byte offset in uppercase hexadecimal with at
/// least 8 digits, then, where the offset is not on a byte boundary, `.b` and
/// the bit number.
pub open spec fn file_offset_text_spec(bit_off: nat) -> Seq<char> {
    let head = seq!['0', 'x'] + zero_padded(radix_digits(bit_off / 8, 16), 8);
    if bit_off % 8 == 0 {
        head
    } else {
        head + seq!['.', 'b'] + radix_digits(bit_off % 8, 10)
    }
}

fn digit_str(d: usize) -> (r: &'static str)
    requires
        d < 16,
    ensures
        r@ == seq![digit_char(d as nat)],
{
    proof {
        reveal_strlit("0");
        reveal_strlit("1");
        reveal_strlit("2");
        reveal_strlit("3");
        reveal_strlit("4");
        reveal_strlit("5");
        reveal_strlit("6");
        reveal_strlit("7");
        reveal_strlit("8");
        reveal_strlit("9");
        reveal_strlit("A");
        reveal_strlit("B");
        reveal_strlit("C");
        reveal_strlit("D");
        reveal_strlit("E");
        reveal_strlit("F");
    }
    match d {
        0 => "0",
        1 => "1",
        2 => "2",
        3 => "3",
        4 => "4",
        5 => "5",
        6 => "6",
        7 => "7",
        8 => "8",
        9 => "9",
        10 => "A",
        11 => "B",
        12 => "C",
        13 => "D",
        14 => "E",
        _ => "F",
    }
}

proof fn lemma_radix_digits_shrinks(n: nat, radix: nat)
    requires
        radix >= 2,
        n >= radix,
    ensures
        n / radix < n,
{
    assert(n / radix < n) by (nonlinear_arith)
        requires
            radix >= 2,
            n >= radix,
    ;
}

/// Appends the digits of `n` in base `radix` to `s`.
fn push_digits(s: &mut String, n: usize, radix: usize)
    requires
        radix == 10 || radix == 16,
    ensures
        final(s)@ == old(s)@ + radix_digits(n as nat, radix as nat),
    decreases n,
{
    if n >= radix {
        proof {
            lemma_radix_digits_shrinks(n as nat, radix as nat);
        }
        push_digits(s, n / radix, radix);
    }
    let ghost mid = s@;
    s.append(digit_str(n % radix));
    proof {
        if n < radix {
            assert(radix_digits(n as nat, radix as nat) =~= seq![digit_char(n as nat)]);
            assert(mid == old(s)@);
            assert(n % radix == n);
            assert(s@ == mid + seq![digit_char(n as nat)]);
        } else {
            let c = digit_char((n % radix) as nat);
            assert(radix_digits(n as nat, radix as nat) == radix_digits((n / radix) as nat, radix as nat).push(c));
            assert(mid == old(s)@ + radix_digits((n / radix) as nat, radix as nat));
            assert(s@ == mid + seq![c]);
        }
        assert(s@ =~= old(s)@ + radix_digits(n as nat, radix as nat));
    }
}

/// Number of digits of `n` in base `radix`.
fn digit_count(n: usize, radix: usize) -> (r: usize)
    requires
        radix == 10 || radix == 16,
    ensures
        r == radix_digits(n as nat, radix as nat).len(),
    decreases n,
{
    if n >= radix {
        proof {
            lemma_radix_digits_shrinks(n as nat, radix as nat);
            lemma_radix_digits_len((n / radix) as nat, radix as nat);
        }
        digit_count(n / radix, radix) + 1
    } else {
        1
    }
}

proof fn lemma_radix_digits_len(n: nat, radix: nat)
    requires
        radix >= 2,
    ensures
        radix_digits(n, radix).len() <= n + 1,
    decreases n,
{
    if n >= radix {
        lemma_radix_digits_shrinks(n, radix);
        lemma_radix_digits_len(n / radix, radix);
    }
}

/// Appends `n` in decimal to `s`.
pub fn push_decimal(s: &mut String, n: usize)
    ensures
        final(s)@ == old(s)@ + radix_digits(n as nat, 10),
{
    push_digits(s, n, 10);
}

/// A bit offset as text, as `file_offset_text_spec` describes.
pub fn file_offset_text(bit_off: usize) -> (r: String)
    ensures
        r@ == file_offset_text_spec(bit_off as nat),
{
    proof {
        reveal_strlit("0x");
        reveal_strlit("0");
        reveal_strlit(".b");
    }
    let byte = bit_off / 8;
    let mut r = String::from_str("0x");
    let ghost head = r@;
    let digits = digit_count(byte, 16);
    let mut pad: usize = digits;
    assert(r@ =~= head + Seq::new(0, |i: int| '0'));
    while pad < 8
        invariant
            digits <= pad <= 8 || (digits > 8 && pad == digits),
            r@ == head + Seq::new((pad - digits) as nat, |i: int| '0'),
        decreases 8 - pad,
    {
        proof {
            reveal_strlit("0");
        }
        r.append("0");
        pad = pad + 1;
        assert(r@ =~= head + Seq::new((pad - digits) as nat, |i: int| '0'));
    }
    push_digits(&mut r, byte, 16);
    proof {
        if digits >= 8 {
            assert(r@ =~= head + radix_digits(byte as nat, 16));
        } else {
            assert(r@ =~= head + zero_padded(radix_digits(byte as nat, 16), 8));
        }
    }
    if bit_off % 8 != 0 {
        r.append(".b");
        push_digits(&mut r, bit_off % 8, 10);
    }
    r
}

} // verus!
