use vstd::prelude::*;
use vstd::utf8::{decode_utf8, encode_utf8, valid_utf8, encode_utf8_decode_utf8, encode_utf8_valid_utf8};
use vstd::string::{StrSliceExecFns, StringSliceAdditionalSpecFns};

verus! {

// ---- hexadecimal ----

/// The lower-case hex digit of a value below sixteen.
pub open spec fn hex_digit(n: u8) -> u8 {
    if n < 10 { (48 + n) as u8 } else { (87 + n) as u8 }
}

/// Whether a byte is a lower-case hex digit, the only spelling that identifiers have.
pub open spec fn is_hex_digit(c: u8) -> bool {
    (48 <= c <= 57) || (97 <= c <= 102)
}

/// The value of a hex digit.
pub open spec fn hex_value(c: u8) -> u8 {
    if 48 <= c <= 57 {
        (c - 48) as u8
    } else {
        (c - 87) as u8
    }
}

/// Two lower-case hex digits for each byte, high nibble first.
pub open spec fn hex_of(b: Seq<u8>) -> Seq<u8> {
    Seq::new(
        2 * b.len(),
        |j: int| if j % 2 == 0 { hex_digit(b[j / 2] / 16) } else { hex_digit(b[j / 2] % 16) },
    )
}

/// Whether a text is an even number of hex digits.
pub open spec fn is_hex_text(t: Seq<u8>) -> bool {
    t.len() % 2 == 0 && forall|i: int| 0 <= i < t.len() ==> is_hex_digit(#[trigger] t[i])
}

/// The bytes that a hex text spells.
pub open spec fn bytes_of_hex(t: Seq<u8>) -> Seq<u8> {
    Seq::new(t.len() / 2, |i: int| (hex_value(t[2 * i]) * 16 + hex_value(t[2 * i + 1])) as u8)
}

proof fn lemma_hex_digit(n: u8)
    requires
        n < 16,
    ensures
        is_hex_digit(hex_digit(n)),
        hex_value(hex_digit(n)) == n,
{
}

/// Reading back the hex text of a byte string gives that byte string.
pub proof fn lemma_hex_round_trip(b: Seq<u8>)
    ensures
        is_hex_text(hex_of(b)),
        bytes_of_hex(hex_of(b)) == b,
{
    let t = hex_of(b);
    assert forall|i: int| 0 <= i < t.len() implies is_hex_digit(#[trigger] t[i]) by {
        lemma_hex_digit(b[i / 2] / 16);
        lemma_hex_digit(b[i / 2] % 16);
    }
    assert forall|i: int| 0 <= i < b.len() implies #[trigger] bytes_of_hex(t)[i] == b[i] by {
        assert((2 * i) % 2 == 0 && (2 * i) / 2 == i);
        assert((2 * i + 1) % 2 == 1 && (2 * i + 1) / 2 == i);
        lemma_hex_digit(b[i] / 16);
        lemma_hex_digit(b[i] % 16);
    }
    assert(bytes_of_hex(t) =~= b);
}

proof fn lemma_byte_split(h: u8, l: u8)
    requires
        h < 16,
        l < 16,
    ensures
        ((h * 16 + l) as u8) / 16 == h,
        ((h * 16 + l) as u8) % 16 == l,
{
    assert((h * 16 + l) < 256) by (nonlinear_arith)
        requires
            h < 16,
            l < 16,
    ;
}

/// A hex text is the hex text of the bytes it spells: each byte string has one spelling.
pub proof fn lemma_hex_canonical(t: Seq<u8>)
    requires
        is_hex_text(t),
    ensures
        hex_of(bytes_of_hex(t)) == t,
{
    let b = bytes_of_hex(t);
    assert forall|j: int| 0 <= j < t.len() implies #[trigger] hex_of(b)[j] == t[j] by {
        let i = j / 2;
        assert(0 <= 2 * i && 2 * i + 1 < t.len());
        let h = hex_value(t[2 * i]);
        let l = hex_value(t[2 * i + 1]);
        assert(is_hex_digit(t[2 * i]) && is_hex_digit(t[2 * i + 1]));
        lemma_byte_split(h, l);
        if j % 2 == 0 {
            assert(j == 2 * i);
        } else {
            assert(j == 2 * i + 1);
        }
    }
    assert(hex_of(b) =~= t);
}

fn hex_digit_exec(n: u8) -> (r: u8)
    requires
        n < 16,
    ensures
        r == hex_digit(n),
{
    if n < 10 { 48 + n } else { 87 + n }
}

/// Writes a byte string as lower-case hex.
pub fn encode_hex(b: &[u8]) -> (r: Vec<u8>)
    requires
        b@.len() <= usize::MAX / 2,
    ensures
        r@ == hex_of(b@),
{
    let mut out: Vec<u8> = Vec::new();
    let mut i: usize = 0;
    while i < b.len()
        invariant
            i <= b@.len() <= usize::MAX / 2,
            out@.len() == 2 * i,
            forall|j: int| 0 <= j < 2 * i ==> out@[j] == #[trigger] hex_of(b@)[j],
        decreases b@.len() - i,
    {
        let x = b[i];
        out.push(hex_digit_exec(x / 16));
        out.push(hex_digit_exec(x % 16));
        assert((2 * i as int) % 2 == 0 && (2 * i as int) / 2 == i);
        assert((2 * i as int + 1) % 2 == 1 && (2 * i as int + 1) / 2 == i);
        i = i + 1;
    }
    assert(out@ =~= hex_of(b@));
    out
}

fn hex_value_exec(c: u8) -> (r: Option<u8>)
    ensures
        r is Some <==> is_hex_digit(c),
        r matches Some(v) ==> v == hex_value(c) && v < 16,
{
    if 48 <= c && c <= 57 {
        Some(c - 48)
    } else if 97 <= c && c <= 102 {
        Some(c - 87)
    } else {
        None
    }
}

/// Reads a hex text back into bytes; `None` unless it is an even number of lower-case hex
/// digits.
pub fn decode_hex(t: &[u8]) -> (r: Option<Vec<u8>>)
    ensures
        r is Some <==> is_hex_text(t@),
        r matches Some(v) ==> v@ == bytes_of_hex(t@),
{
    if t.len() % 2 != 0 {
        return None;
    }
    let mut out: Vec<u8> = Vec::new();
    let mut i: usize = 0;
    let len = t.len();
    let n = len / 2;
    while i < n
        invariant
            len == t@.len(),
            n == t@.len() / 2,
            t@.len() % 2 == 0,
            2 * n == t@.len(),
            i <= n,
            out@.len() == i,
            forall|k: int| 0 <= k < 2 * i ==> is_hex_digit(#[trigger] t@[k]),
            forall|k: int| 0 <= k < i ==> out@[k] == #[trigger] bytes_of_hex(t@)[k],
        decreases n - i,
    {
        let hi = hex_value_exec(t[2 * i]);
        let lo = hex_value_exec(t[2 * i + 1]);
        match (hi, lo) {
            (Some(h), Some(l)) => {
                out.push(h * 16 + l);
            },
            _ => {
                assert(!is_hex_text(t@));
                return None;
            },
        }
        assert forall|k: int| 0 <= k < 2 * (i + 1) implies is_hex_digit(#[trigger] t@[k]) by {
            if k >= 2 * i {
                assert(k == 2 * i || k == 2 * i + 1);
            }
        }
        i = i + 1;
    }
    assert(out@ =~= bytes_of_hex(t@));
    Some(out)
}

// ---- decimal ----

/// The decimal digits of a number, most significant first, without leading zeros.
pub open spec fn decimal_of(n: nat) -> Seq<u8>
    decreases n,
{
    if n < 10 {
        seq![(48 + n) as u8]
    } else {
        decimal_of(n / 10).push((48 + n % 10) as u8)
    }
}

/// Whether a text is a non-empty run of decimal digits.
pub open spec fn is_decimal_text(t: Seq<u8>) -> bool {
    t.len() > 0 && forall|i: int| 0 <= i < t.len() ==> 48 <= #[trigger] t[i] <= 57
}

/// The number that a run of decimal digits spells.
pub open spec fn decimal_value(t: Seq<u8>) -> nat
    decreases t.len(),
{
    if t.len() == 0 {
        0
    } else {
        decimal_value(t.drop_last()) * 10 + (t.last() - 48) as nat
    }
}

/// The `u128` that a text spells, if it is decimal and in range.
pub open spec fn parse_decimal(t: Seq<u8>) -> Option<u128> {
    if is_decimal_text(t) && decimal_value(t) <= u128::MAX {
        Some(decimal_value(t) as u128)
    } else {
        None
    }
}

/// Reading back the decimal text of a number gives that number.
pub proof fn lemma_decimal_round_trip(n: nat)
    ensures
        is_decimal_text(decimal_of(n)),
        decimal_value(decimal_of(n)) == n,
    decreases n,
{
    if n >= 10 {
        lemma_decimal_round_trip(n / 10);
        let t = decimal_of(n);
        assert(t.drop_last() =~= decimal_of(n / 10));
        assert(t.last() == (48 + n % 10) as u8);
        assert(n == (n / 10) * 10 + n % 10);
        assert forall|i: int| 0 <= i < t.len() implies 48 <= #[trigger] t[i] <= 57 by {
            if i < t.len() - 1 {
                assert(t[i] == decimal_of(n / 10)[i]);
            }
        }
    } else {
        assert(decimal_of(n).drop_last() =~= Seq::<u8>::empty());
        assert(decimal_value(Seq::<u8>::empty()) == 0);
    }
}

proof fn lemma_prefix_value_le(t: Seq<u8>, i: int)
    requires
        0 <= i <= t.len(),
    ensures
        decimal_value(t.subrange(0, i)) <= decimal_value(t),
    decreases t.len(),
{
    if i < t.len() {
        lemma_prefix_value_le(t.drop_last(), i);
        assert(t.drop_last().subrange(0, i) =~= t.subrange(0, i));
    } else {
        assert(t.subrange(0, i) =~= t);
    }
}

/// Appends the decimal digits of `n`.
fn push_decimal(n: u128, out: &mut Vec<u8>)
    ensures
        final(out)@ == old(out)@ + decimal_of(n as nat),
    decreases n,
{
    if n >= 10 {
        push_decimal(n / 10, out);
    }
    out.push(48 + (n % 10) as u8);
    proof {
        if n >= 10 {
            assert(final(out)@ =~= old(out)@ + decimal_of(n as nat));
        } else {
            assert(final(out)@ =~= old(out)@ + decimal_of(n as nat));
        }
    }
}

/// Writes a number in decimal.
pub fn encode_decimal(n: u128) -> (r: Vec<u8>)
    ensures
        r@ == decimal_of(n as nat),
{
    let mut out: Vec<u8> = Vec::new();
    push_decimal(n, &mut out);
    assert(out@ =~= decimal_of(n as nat));
    out
}

/// Reads a decimal text; `None` unless it is digits only and fits in a `u128`.
pub fn decode_decimal(t: &[u8]) -> (r: Option<u128>)
    ensures
        r == parse_decimal(t@),
{
    if t.len() == 0 {
        return None;
    }
    let mut acc: u128 = 0;
    let mut i: usize = 0;
    while i < t.len()
        invariant
            i <= t@.len(),
            forall|k: int| 0 <= k < i ==> 48 <= #[trigger] t@[k] <= 57,
            acc as nat == decimal_value(t@.subrange(0, i as int)),
        decreases t@.len() - i,
    {
        let c = t[i];
        assert(t@.subrange(0, i + 1).drop_last() =~= t@.subrange(0, i as int));
        if c < 48 || c > 57 {
            assert(!is_decimal_text(t@));
            return None;
        }
        let d = (c - 48) as u128;
        if acc > (u128::MAX - d) / 10 {
            proof {
                lemma_prefix_value_le(t@, i + 1);
            }
            return None;
        }
        acc = acc * 10 + d;
        i = i + 1;
    }
    assert(t@.subrange(0, i as int) =~= t@);
    Some(acc)
}

/// A signed number in decimal: a minus sign before the digits of a negative one.
pub open spec fn signed_decimal_of(n: int) -> Seq<u8> {
    if n < 0 {
        seq![45u8] + decimal_of((-n) as nat)
    } else {
        decimal_of(n as nat)
    }
}

/// The `i64` that a text spells, if it is an optional minus sign, digits, and in range.
pub open spec fn parse_i64(t: Seq<u8>) -> Option<i64> {
    if t.len() > 0 && t[0] == 45 {
        match parse_decimal(t.drop_first()) {
            Some(m) => if m <= 0x8000_0000_0000_0000 { Some((-(m as int)) as i64) } else { None },
            None => None,
        }
    } else {
        match parse_decimal(t) {
            Some(m) => if m <= i64::MAX { Some(m as i64) } else { None },
            None => None,
        }
    }
}

/// Reading back the decimal text of a signed number gives that number.
pub proof fn lemma_signed_round_trip(n: i64)
    ensures
        parse_i64(signed_decimal_of(n as int)) == Some(n),
{
    if n < 0 {
        lemma_decimal_round_trip((-n) as nat);
        assert(signed_decimal_of(n as int).drop_first() =~= decimal_of((-n) as nat));
    } else {
        lemma_decimal_round_trip(n as nat);
        assert(48 <= decimal_of(n as nat)[0] <= 57);
    }
}

/// Writes a signed number in decimal.
pub fn encode_signed(n: i64) -> (r: Vec<u8>)
    ensures
        r@ == signed_decimal_of(n as int),
{
    let mut out: Vec<u8> = Vec::new();
    if n < 0 {
        out.push(45);
        push_decimal((-(n as i128)) as u128, &mut out);
    } else {
        push_decimal(n as u128, &mut out);
    }
    assert(out@ =~= signed_decimal_of(n as int));
    out
}

/// Reads a signed decimal text; `None` unless it is an optional minus sign and digits in
/// the range of an `i64`.
pub fn decode_signed(t: &[u8]) -> (r: Option<i64>)
    ensures
        r == parse_i64(t@),
{
    let len = t.len();
    if len > 0 && t[0] == 45 {
        let digits = vstd::slice::slice_subrange(t, 1, len);
        assert(digits@ =~= t@.drop_first());
        match decode_decimal(digits) {
            Some(m) => if m <= 0x8000_0000_0000_0000 { Some((-(m as i128)) as i64) } else { None },
            None => None,
        }
    } else {
        match decode_decimal(t) {
            Some(m) => if m <= i64::MAX as u128 { Some(m as i64) } else { None },
            None => None,
        }
    }
}

// ---- text ----

/// Relies on `String::from_utf8`: it succeeds exactly on valid UTF-8, and the string
/// it returns holds the characters those bytes encode.
#[verifier::external_body]
fn string_from_utf8(b: Vec<u8>) -> (r: Option<String>)
    ensures
        r is Some <==> valid_utf8(b@),
        r matches Some(s) ==> s@ == decode_utf8(b@),
{
    String::from_utf8(b).ok()
}

/// The UTF-8 bytes of a text.
pub fn encode_text(s: &str) -> (r: Vec<u8>)
    ensures
        r@ == encode_utf8(s@),
{
    s.as_bytes_vec()
}

/// Reads UTF-8 bytes back into a text; `None` unless they are valid UTF-8.
pub fn decode_text(b: &[u8]) -> (r: Option<String>)
    ensures
        r is Some <==> valid_utf8(b@),
        r matches Some(s) ==> s@ == decode_utf8(b@),
{
    string_from_utf8(vstd::slice::slice_to_vec(b))
}

/// Reading back the bytes of a text gives that text.
pub proof fn lemma_text_round_trip(s: Seq<char>)
    ensures
        valid_utf8(encode_utf8(s)),
        decode_utf8(encode_utf8(s)) == s,
{
    encode_utf8_valid_utf8(s);
    encode_utf8_decode_utf8(s);
}

// ---- flags ----

pub open spec fn flag_text(b: bool) -> Seq<u8> {
    if b { seq![116u8, 114, 117, 101] } else { seq![102u8, 97, 108, 115, 101] }
}

/// Writes a flag as `true` or `false`.
pub fn encode_flag(b: bool) -> (r: Vec<u8>)
    ensures
        r@ == flag_text(b),
{
    let r = if b { vec![116u8, 114, 117, 101] } else { vec![102u8, 97, 108, 115, 101] };
    assert(r@ =~= flag_text(b));
    r
}

pub open spec fn parse_flag(t: Seq<u8>) -> Option<bool> {
    if t == flag_text(true) {
        Some(true)
    } else if t == flag_text(false) {
        Some(false)
    } else {
        None
    }
}

/// Reads `true` or `false`.
pub fn decode_flag(t: &[u8]) -> (r: Option<bool>)
    ensures
        r == parse_flag(t@),
{
    if t.len() == 4 && t[0] == 116 && t[1] == 114 && t[2] == 117 && t[3] == 101 {
        assert(t@ =~= flag_text(true));
        Some(true)
    } else if t.len() == 5 && t[0] == 102 && t[1] == 97 && t[2] == 108 && t[3] == 115 && t[4]
        == 101 {
        assert(t@ =~= flag_text(false));
        Some(false)
    } else {
        assert(t@ != flag_text(true));
        assert(t@ != flag_text(false));
        None
    }
}

} // verus!
