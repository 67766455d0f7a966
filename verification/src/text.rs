//! Text: UTF-8 and the decimal and hexadecimal forms of numbers.

use vstd::prelude::*;
use vstd::string::StringExecFns;

verus! {

/// The UTF-8 bytes of a text.
pub open spec fn utf8(s: Seq<char>) -> Seq<u8> {
    vstd::utf8::encode_utf8(s)
}

/// The text that UTF-8 bytes stand for, if they are well formed.
#[verifier::opaque]
pub open spec fn utf8_decoded(b: Seq<u8>) -> Option<Seq<char>> {
    if vstd::utf8::valid_utf8(b) {
        Some(vstd::utf8::decode_utf8(b))
    } else {
        None
    }
}

/// Decoding a text undoes encoding it, and only the empty text has no bytes.
pub proof fn lemma_utf8(s: Seq<char>)
    ensures
        utf8_decoded(utf8(s)) == Some(s),
        utf8(s).len() == 0 <==> s =~= Seq::empty(),
{
    reveal(utf8_decoded);
    vstd::utf8::encode_utf8_valid_utf8(s);
    vstd::utf8::encode_utf8_decode_utf8(s);
    if utf8(s).len() == 0 {
        assert(vstd::utf8::decode_utf8(utf8(s)) =~= Seq::empty());
    }
}

/// Calls `String::from_utf8`, which takes bytes that are well-formed UTF-8 as
/// the text that they stand for and refuses all others.
#[verifier::external_body]
pub(crate) fn from_utf8(b: Vec<u8>) -> (r: Option<String>)
    ensures
        r is Some <==> utf8_decoded(b@) is Some,
        r matches Some(s) ==> utf8_decoded(b@) == Some(s@),
{
    String::from_utf8(b).ok()
}

/// An ASCII capital letter as a small one; every other byte as it is.
pub open spec fn lower(b: u8) -> u8 {
    if 0x41 <= b <= 0x5a {
        (b + 0x20) as u8
    } else {
        b
    }
}

/// Whether two texts differ at most in the case of ASCII letters.
pub open spec fn same_ignoring_case(a: Seq<char>, b: Seq<char>) -> bool {
    &&& utf8(a).len() == utf8(b).len()
    &&& forall|i: int| 0 <= i < utf8(a).len() ==> lower(#[trigger] utf8(a)[i]) == lower(utf8(b)[i])
}

fn to_lower(b: u8) -> (r: u8)
    ensures
        r == lower(b),
{
    if 0x41 <= b && b <= 0x5a {
        b + 0x20
    } else {
        b
    }
}

/// Whether two texts differ at most in the case of ASCII letters.
pub(crate) fn eq_ignoring_case(a: &str, b: &str) -> (r: bool)
    ensures
        r == same_ignoring_case(a@, b@),
{
    let x = a.as_bytes();
    let y = b.as_bytes();
    if x.len() != y.len() {
        return false;
    }
    let mut i: usize = 0;
    while i < x.len()
        invariant
            i <= x@.len() == y@.len(),
            x@ == utf8(a@),
            y@ == utf8(b@),
            forall|j: int| 0 <= j < i ==> lower(#[trigger] utf8(a@)[j]) == lower(utf8(b@)[j]),
        decreases x.len() - i,
    {
        if to_lower(x[i]) != to_lower(y[i]) {
            assert(lower(utf8(a@)[i as int]) != lower(utf8(b@)[i as int]));
            return false;
        }
        i += 1;
    }
    true
}

/// The characters that ASCII codes stand for.
pub open spec fn ascii(codes: Seq<u8>) -> Seq<char> {
    Seq::new(codes.len(), |i: int| codes[i] as char)
}

/// The text that ASCII codes stand for.
pub(crate) fn ascii_string(codes: Vec<u8>) -> (r: String)
    requires
        forall|i: int| 0 <= i < codes@.len() ==> codes@[i] < 128,
    ensures
        r@ == ascii(codes@),
{
    proof {
        let s = ascii(codes@);
        assert(vstd::utf8::is_ascii_chars(s));
        vstd::utf8::is_ascii_chars_encode_utf8(s);
        assert(utf8(s) =~= codes@);
        lemma_utf8(s);
    }
    match from_utf8(codes) {
        Some(s) => s,
        None => String::new(),
    }
}

/// The decimal digits of a number.
pub open spec fn decimal(n: nat) -> Seq<char>
    decreases n,
{
    if n < 10 {
        seq![(0x30 + n) as u8 as char]
    } else {
        decimal(n / 10).push((0x30 + n % 10) as u8 as char)
    }
}

/// The decimal form of a number.
pub(crate) fn decimal_string(n: u64) -> (r: String)
    ensures
        r@ == decimal(n as nat),
    decreases n,
{
    let mut digit: Vec<u8> = Vec::new();
    digit.push(0x30 + (n % 10) as u8);
    let digit = ascii_string(digit);
    if n < 10 {
        assert(digit@ =~= decimal(n as nat));
        return digit;
    }
    let mut r = decimal_string(n / 10);
    r.append(digit.as_str());
    assert(r@ =~= decimal(n as nat));
    r
}

/// A text with `before` in front of it and `after` behind it.
pub(crate) fn text_between(before: &str, middle: &str, after: &str) -> (r: String)
    ensures
        r@ == before@ + middle@ + after@,
{
    let mut r = String::from_str(before);
    r.append(middle);
    r.append(after);
    r
}

/// A number in decimal form with `before` in front of it and `after` behind it.
pub(crate) fn number_between(before: &str, n: u64, after: &str) -> (r: String)
    ensures
        r@ == before@ + decimal(n as nat) + after@,
{
    let number = decimal_string(n);
    text_between(before, number.as_str(), after)
}

/// The code of a hexadecimal digit.
pub open spec fn hex_code(n: int) -> u8 {
    if n < 10 {
        (0x30 + n) as u8
    } else {
        (0x61 + n - 10) as u8
    }
}

/// The last `width` hexadecimal digits of a number, in small letters.
pub open spec fn hex_codes(n: nat, width: nat) -> Seq<u8>
    decreases width,
{
    if width == 0 {
        Seq::empty()
    } else {
        hex_codes(n / 16, (width - 1) as nat).push(hex_code(n as int % 16))
    }
}

/// The last `width` hexadecimal digits of a number, in small letters.
pub open spec fn hex(n: nat, width: nat) -> Seq<char> {
    ascii(hex_codes(n, width))
}

fn put_hex(buf: &mut Vec<u8>, n: u32, width: u32)
    ensures
        final(buf)@ == old(buf)@ + hex_codes(n as nat, width as nat),
    decreases width,
{
    if width == 0 {
        assert(buf@ =~= buf@ + hex_codes(n as nat, 0));
        return;
    }
    put_hex(buf, n / 16, width - 1);
    let d: u8 = (n % 16) as u8;
    let code: u8 = if d < 10 {
        0x30 + d
    } else {
        0x61 + (d - 10)
    };
    buf.push(code);
    assert(buf@ =~= old(buf)@ + hex_codes(n as nat, width as nat));
}

proof fn lemma_hex_codes(n: nat, width: nat)
    ensures
        hex_codes(n, width).len() == width,
        forall|i: int| 0 <= i < width ==> hex_codes(n, width)[i] < 128,
    decreases width,
{
    if width > 0 {
        lemma_hex_codes(n / 16, (width - 1) as nat);
    }
}

/// The last `width` hexadecimal digits of a number, in small letters.
pub(crate) fn hex_string(n: u32, width: u32) -> (r: String)
    ensures
        r@ == hex(n as nat, width as nat),
{
    let mut buf: Vec<u8> = Vec::new();
    put_hex(&mut buf, n, width);
    proof {
        lemma_hex_codes(n as nat, width as nat);
    }
    assert(buf@ =~= hex_codes(n as nat, width as nat));
    ascii_string(buf)
}

/// The number of hexadecimal digits of a number, at least one.
pub open spec fn hex_len(n: nat) -> nat
    decreases n,
{
    if n < 16 {
        1
    } else {
        hex_len(n / 16) + 1
    }
}

/// The hexadecimal form of a number, in small letters and without leading zeros.
pub(crate) fn short_hex_string(n: u32) -> (r: String)
    ensures
        r@ == hex(n as nat, hex_len(n as nat)),
{
    hex_string(n, hex_width(n))
}

fn hex_width(n: u32) -> (r: u32)
    ensures
        r == hex_len(n as nat),
        r <= n + 1,
    decreases n,
{
    if n < 16 {
        1
    } else {
        hex_width(n / 16) + 1
    }
}

/// Two texts that differ at most in the case of ASCII letters are equally long, and at
/// each byte either equal or a small and a capital form of one letter; and such texts do.
pub proof fn lemma_same_ignoring_case(a: Seq<char>, b: Seq<char>)
    ensures
        a == b ==> same_ignoring_case(a, b),
        same_ignoring_case(a, b) == same_ignoring_case(b, a),
        same_ignoring_case(a, b) <==> utf8(a).len() == utf8(b).len() && forall|i: int|
            0 <= i < utf8(a).len() ==> {
                let x = #[trigger] utf8(a)[i];
                let y = utf8(b)[i];
                x == y || (65 <= x <= 90 && y == x + 32) || (65 <= y <= 90 && x == y + 32)
            },
{
    if same_ignoring_case(a, b) {
        assert forall|i: int| 0 <= i < utf8(b).len() implies lower(#[trigger] utf8(b)[i]) == lower(
            utf8(a)[i],
        ) by {
            assert(lower(utf8(a)[i]) == lower(utf8(b)[i]));
        }
    }
    if same_ignoring_case(b, a) {
        assert forall|i: int| 0 <= i < utf8(a).len() implies lower(#[trigger] utf8(a)[i]) == lower(
            utf8(b)[i],
        ) by {
            assert(lower(utf8(b)[i]) == lower(utf8(a)[i]));
        }
    }
}

/// The decimal form of a number below ten is its digit, and that of any other is the form
/// of a tenth of it and then its last digit; so a form stands for one number only.
pub proof fn lemma_decimal(n: nat)
    ensures
        decimal(n).len() >= 1,
        n < 10 ==> decimal(n).len() == 1,
        n >= 10 ==> decimal(n).drop_last() == decimal(n / 10),
        decimal(n).last() as int == 48 + n % 10,
{
    if n >= 10 {
        assert(decimal(n).drop_last() =~= decimal(n / 10));
    }
}

/// The hexadecimal form of a number: as many digits as asked for, each from 0 to 9 or from
/// a to f, the last for the lowest four bits and those before it for the rest.
pub proof fn lemma_hex(n: nat, width: nat)
    ensures
        hex(n, width).len() == width,
        width > 0 ==> {
            let d = n % 16;
            &&& hex(n, width).drop_last() == hex(n / 16, (width - 1) as nat)
            &&& d < 10 ==> hex(n, width).last() as int == 48 + d
            &&& d >= 10 ==> hex(n, width).last() as int == 97 + d - 10
        },
{
    lemma_hex_codes(n, width);
    if width > 0 {
        lemma_hex_codes(n / 16, (width - 1) as nat);
        assert(hex(n, width).drop_last() =~= hex(n / 16, (width - 1) as nat));
    }
}

/// A number takes as many hexadecimal digits as are needed, and at least one.
pub proof fn lemma_hex_len(n: nat)
    ensures
        hex_len(n) >= 1,
        n < 16 <==> hex_len(n) == 1,
        n >= 16 ==> hex_len(n) == hex_len(n / 16) + 1,
    decreases n,
{
    if n >= 16 {
        lemma_hex_len(n / 16);
    }
}

} // verus!
