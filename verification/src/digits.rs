//! Decimal and hexadecimal digits as characters: specification-level values
//! of digit strings, verified decoding of hex into bytes, and verified
//! rendering of integers, shared by the manifest parser and the log parser.

use vstd::prelude::*;

verus! {

/// Is `c` a decimal digit?
pub open spec fn is_digit(c: char) -> bool {
    48 <= c as int <= 57
}

/// Numeric value of a decimal digit character (meaningful only for digits).
pub open spec fn digit_val(c: char) -> int {
    c as int - 48
}

/// Value of a string of decimal digits, most significant first.
pub open spec fn dec_val(s: Seq<char>) -> int
    decreases s.len(),
{
    if s.len() == 0 {
        0
    } else {
        dec_val(s.drop_last()) * 10 + digit_val(s.last())
    }
}

/// Is `c` a hexadecimal digit (either case)?
pub open spec fn is_hex_digit(c: char) -> bool {
    48 <= c as int <= 57 || 65 <= c as int <= 70 || 97 <= c as int <= 102
}

/// Numeric value of a hexadecimal digit character.
pub open spec fn hex_val(c: char) -> int {
    if 48 <= c as int <= 57 {
        c as int - 48
    } else if 65 <= c as int <= 70 {
        c as int - 55
    } else {
        c as int - 87
    }
}

/// The bytes denoted by a string of hexadecimal digits, two digits per byte.
pub open spec fn decode_hex(s: Seq<char>) -> Seq<u8>
    decreases s.len(),
{
    if s.len() < 2 {
        seq![]
    } else {
        seq![(hex_val(s[0]) * 16 + hex_val(s[1])) as u8] + decode_hex(s.subrange(2, s.len() as int))
    }
}

/// Decimal digit character for a value below 10.
pub open spec fn digit_char(v: int) -> char {
    if v == 0 { '0' }
    else if v == 1 { '1' }
    else if v == 2 { '2' }
    else if v == 3 { '3' }
    else if v == 4 { '4' }
    else if v == 5 { '5' }
    else if v == 6 { '6' }
    else if v == 7 { '7' }
    else if v == 8 { '8' }
    else { '9' }
}

/// Upper-case hexadecimal digit character for a value below 16.
pub open spec fn hex_char_upper(v: int) -> char {
    if v < 10 { digit_char(v) }
    else if v == 10 { 'A' }
    else if v == 11 { 'B' }
    else if v == 12 { 'C' }
    else if v == 13 { 'D' }
    else if v == 14 { 'E' }
    else { 'F' }
}

/// Upper-case hexadecimal rendering of a byte string, two digits per byte.
pub open spec fn encode_hex_upper(b: Seq<u8>) -> Seq<char>
    decreases b.len(),
{
    if b.len() == 0 {
        seq![]
    } else {
        seq![hex_char_upper(b.first() as int / 16), hex_char_upper(b.first() as int % 16)]
            + encode_hex_upper(b.drop_first())
    }
}

/// Is `c` an upper-case hexadecimal digit?
pub open spec fn is_upper_hex_digit(c: char) -> bool {
    48 <= c as int <= 57 || 65 <= c as int <= 70
}

/// `hex_char_upper` inverts `hex_val` on upper-case hexadecimal digits.
pub proof fn lemma_hex_char_val(c: char)
    requires
        is_upper_hex_digit(c),
    ensures
        hex_char_upper(hex_val(c)) == c,
{
    broadcast use vstd::utf8::char_u32_cast;

    assert((c as u32) as char == c);
    assert(('0' as u32) as char == '0');
    assert(('1' as u32) as char == '1');
    assert(('2' as u32) as char == '2');
    assert(('3' as u32) as char == '3');
    assert(('4' as u32) as char == '4');
    assert(('5' as u32) as char == '5');
    assert(('6' as u32) as char == '6');
    assert(('7' as u32) as char == '7');
    assert(('8' as u32) as char == '8');
    assert(('9' as u32) as char == '9');
    assert(('A' as u32) as char == 'A');
    assert(('B' as u32) as char == 'B');
    assert(('C' as u32) as char == 'C');
    assert(('D' as u32) as char == 'D');
    assert(('E' as u32) as char == 'E');
    assert(('F' as u32) as char == 'F');
}

/// Encoding the bytes decoded from an upper-case, even-length hexadecimal
/// string gives that string back.
pub proof fn lemma_encode_decode_hex(h: Seq<char>)
    requires
        h.len() % 2 == 0,
        forall|i: int| 0 <= i < h.len() ==> is_upper_hex_digit(#[trigger] h[i]),
    ensures
        encode_hex_upper(decode_hex(h)) == h,
    decreases h.len(),
{
    if h.len() == 0 {
        assert(encode_hex_upper(decode_hex(h)) =~= h);
    } else {
        let v0 = hex_val(h[0]);
        let v1 = hex_val(h[1]);
        let b = (v0 * 16 + v1) as u8;
        let rest = h.subrange(2, h.len() as int);
        assert(forall|i: int| 0 <= i < rest.len() ==> is_upper_hex_digit(#[trigger] rest[i]));
        lemma_encode_decode_hex(rest);
        let d = decode_hex(h);
        assert(d == seq![b] + decode_hex(rest));
        assert(d.first() == b);
        assert(d.drop_first() =~= decode_hex(rest));
        assert(0 <= v0 < 16 && 0 <= v1 < 16);
        assert(b as int / 16 == v0 && b as int % 16 == v1) by (nonlinear_arith)
            requires
                b == (v0 * 16 + v1) as u8,
                0 <= v0 < 16,
                0 <= v1 < 16,
        ;
        lemma_hex_char_val(h[0]);
        lemma_hex_char_val(h[1]);
        assert(encode_hex_upper(d) =~= h);
    }
}

/// A digit string denotes a non-negative value.
pub proof fn lemma_dec_val_nonneg(s: Seq<char>)
    requires
        forall|i: int| 0 <= i < s.len() ==> is_digit(s[i]),
    ensures
        dec_val(s) >= 0,
    decreases s.len(),
{
    if s.len() > 0 {
        lemma_dec_val_nonneg(s.drop_last());
    }
}

/// Extending a digit string on the right cannot decrease its value.
pub proof fn lemma_dec_val_prefix(s: Seq<char>, k: int)
    requires
        forall|i: int| 0 <= i < s.len() ==> is_digit(s[i]),
        0 <= k <= s.len(),
    ensures
        dec_val(s.subrange(0, k)) <= dec_val(s),
    decreases s.len() - k,
{
    if k == s.len() {
        assert(s.subrange(0, k) =~= s);
    } else {
        lemma_dec_val_prefix(s, k + 1);
        let t = s.subrange(0, k + 1);
        assert(t.drop_last() =~= s.subrange(0, k));
        lemma_dec_val_nonneg(s.subrange(0, k));
    }
}

/// Exec test for a decimal digit, with its value.
pub fn digit_value(c: char) -> (r: Option<u8>)
    ensures
        match r {
            Some(v) => is_digit(c) && v as int == digit_val(c),
            None => !is_digit(c),
        },
{
    let u = c as u32;
    if 48 <= u && u <= 57 {
        Some((u - 48) as u8)
    } else {
        None
    }
}

/// Exec test for a hexadecimal digit, with its value.
pub fn hex_digit_value(c: char) -> (r: Option<u8>)
    ensures
        match r {
            Some(v) => is_hex_digit(c) && v as int == hex_val(c),
            None => !is_hex_digit(c),
        },
{
    let u = c as u32;
    if 48 <= u && u <= 57 {
        Some((u - 48) as u8)
    } else if 65 <= u && u <= 70 {
        Some((u - 55) as u8)
    } else if 97 <= u && u <= 102 {
        Some((u - 87) as u8)
    } else {
        None
    }
}

/// One-character string for a decimal digit value.
pub fn digit_str(v: u8) -> (r: &'static str)
    requires
        v < 10,
    ensures
        r@ =~= seq![digit_char(v as int)],
{
    proof {
        reveal_strlit("0");
        reveal_strlit("1");
        reveal_strlit("2");
        reveal_strlit("3");
        reveal_strlit("4");
        reveal_strlit("5");
        reveal_strlit("6");
        reveal_strlit("7");
        reveal_strlit("8");
        reveal_strlit("9");
    }
    match v {
        0 => "0",
        1 => "1",
        2 => "2",
        3 => "3",
        4 => "4",
        5 => "5",
        6 => "6",
        7 => "7",
        8 => "8",
        _ => "9",
    }
}

/// One-character string for a hexadecimal digit value, upper case.
pub fn hex_digit_str(v: u8) -> (r: &'static str)
    requires
        v < 16,
    ensures
        r@ =~= seq![hex_char_upper(v as int)],
{
    if v < 10 {
        digit_str(v)
    } else {
        proof {
            reveal_strlit("A");
            reveal_strlit("B");
            reveal_strlit("C");
            reveal_strlit("D");
            reveal_strlit("E");
            reveal_strlit("F");
        }
        match v {
            10 => "A",
            11 => "B",
            12 => "C",
            13 => "D",
            14 => "E",
            _ => "F",
        }
    }
}

/// Decimal rendering of a non-negative integer, most significant digit first.
pub open spec fn dec_str(n: int) -> Seq<char>
    decreases n,
{
    if n < 10 {
        seq![digit_char(n)]
    } else {
        dec_str(n / 10) + seq![digit_char(n % 10)]
    }
}

/// Renders `n` in decimal.
pub fn u64_to_string(n: u64) -> (r: String)
    ensures
        r@ == dec_str(n as int),
    decreases n,
{
    if n < 10 {
        digit_str(n as u8).to_owned()
    } else {
        let mut s = u64_to_string(n / 10);
        s.append(digit_str((n % 10) as u8));
        s
    }
}

} // verus!
