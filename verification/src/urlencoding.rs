//! Percent-encoding of text for URLs and form bodies.

use vstd::prelude::*;
use vstd::string::*;

verus! {

/// The bytes that stand for themselves.
pub open spec fn unreserved(b: u8) -> bool {
    ||| 0x41 <= b <= 0x5a
    ||| 0x61 <= b <= 0x7a
    ||| 0x30 <= b <= 0x39
    ||| b == 0x2d
    ||| b == 0x5f
    ||| b == 0x2e
    ||| b == 0x7e
}

/// The upper-case hexadecimal digit of `d`.
pub open spec fn hex_upper(d: int) -> char {
    if d < 10 {
        (48 + d) as char
    } else {
        (55 + d) as char
    }
}

/// How one byte is written.
pub open spec fn encoded_byte(b: u8) -> Seq<char> {
    if unreserved(b) {
        seq![b as char]
    } else {
        seq!['%', hex_upper(b as int / 16), hex_upper(b as int % 16)]
    }
}

/// How a row of bytes is written: one after the other.
pub open spec fn encoded(bytes: Seq<u8>) -> Seq<char>
    decreases bytes.len(),
{
    if bytes.len() == 0 {
        Seq::empty()
    } else {
        encoded_byte(bytes[0]) + encoded(bytes.drop_first())
    }
}

fn hex_digit(d: u8) -> (c: char)
    requires
        d < 16,
    ensures
        c == hex_upper(d as int),
{
    if d < 10 {
        (48 + d) as char
    } else {
        (55 + d) as char
    }
}

/// Percent-encodes a text: each byte of its UTF-8 form that is not a letter, a digit or
/// one of `-`, `_`, `.` and `~` becomes `%` and two hexadecimal digits.
pub fn encode(s: &str) -> (r: String)
    ensures
        r@ == encoded(s.spec_bytes()),
{
    let bytes: &[u8] = s.as_bytes();
    let mut out = String::new();
    let n: usize = bytes.len();
    let mut i: usize = 0;
    assert(bytes@.skip(0) =~= bytes@);
    while i < n
        invariant
            n == bytes@.len(),
            i <= n,
            out@ + encoded(bytes@.skip(i as int)) == encoded(bytes@),
        decreases n - i,
    {
        let b: u8 = bytes[i];
        let ghost before = out@;
        let ghost rest = bytes@.skip(i as int);
        assert(rest.drop_first() =~= bytes@.skip(i + 1));
        if (b >= 0x41 && b <= 0x5a) || (b >= 0x61 && b <= 0x7a) || (b >= 0x30 && b <= 0x39) || b
            == 0x2d || b == 0x5f || b == 0x2e || b == 0x7e {
            out.push(b as char);
        } else {
            out.push('%');
            out.push(hex_digit(b / 16));
            out.push(hex_digit(b % 16));
        }
        assert(out@ =~= before + encoded_byte(b));
        assert(out@ + encoded(bytes@.skip(i + 1)) =~= before + encoded(rest));
        i += 1;
    }
    assert(out@ + encoded(bytes@.skip(n as int)) =~= out@);
    out
}

/// The value of a hexadecimal digit in upper case.
pub open spec fn hex_value(c: char) -> int {
    if c as int <= 57 {
        c as int - 48
    } else {
        c as int - 55
    }
}

/// Reads a percent-encoded text back to bytes.
pub open spec fn decoded(s: Seq<char>) -> Seq<u8>
    decreases s.len(),
{
    if s.len() == 0 {
        Seq::empty()
    } else if s[0] == '%' && s.len() >= 3 {
        seq![(16 * hex_value(s[1]) + hex_value(s[2])) as u8] + decoded(s.skip(3))
    } else {
        seq![s[0] as u8] + decoded(s.skip(1))
    }
}

/// Nothing is lost: a percent-encoded text reads back to the bytes it was made of.
pub proof fn law_decodes(bytes: Seq<u8>)
    ensures
        decoded(encoded(bytes)) == bytes,
    decreases bytes.len(),
{
    if bytes.len() > 0 {
        let b = bytes[0];
        let rest = bytes.drop_first();
        law_decodes(rest);
        let s = encoded(bytes);
        if unreserved(b) {
            assert(s.skip(1) =~= encoded(rest));
            assert(s[0] == b as char);
        } else {
            assert(s.skip(3) =~= encoded(rest));
            assert(hex_value(s[1]) == b as int / 16);
            assert(hex_value(s[2]) == b as int % 16);
        }
        assert(decoded(s) =~= bytes);
    }
}

/// An encoded text holds nothing but unreserved characters and percent signs.
pub proof fn law_alphabet(bytes: Seq<u8>, i: int)
    requires
        0 <= i < encoded(bytes).len(),
    ensures
        encoded(bytes)[i] == '%' || ((encoded(bytes)[i] as int) < 128 && unreserved(
            encoded(bytes)[i] as u8,
        )),
    decreases bytes.len(),
{
    let head = encoded_byte(bytes[0]);
    if i >= head.len() {
        law_alphabet(bytes.drop_first(), i - head.len());
    }
}

/// A text that needs no escape is left as it is.
pub proof fn law_unreserved_stays(bytes: Seq<u8>)
    requires
        forall|i: int| 0 <= i < bytes.len() ==> unreserved(#[trigger] bytes[i]),
    ensures
        encoded(bytes) == bytes.map_values(|b: u8| b as char),
    decreases bytes.len(),
{
    if bytes.len() > 0 {
        law_unreserved_stays(bytes.drop_first());
    }
    assert(encoded(bytes) =~= bytes.map_values(|b: u8| b as char));
}

/// Every character of an encoded text is a letter, a digit, one of `-`, `_`, `.` and `~`, or a
/// percent sign.
pub proof fn law_only_safe_characters(bytes: Seq<u8>, i: int)
    requires
        0 <= i < encoded(bytes).len(),
    ensures
        ({
            let c = encoded(bytes)[i];
            ||| 'A' <= c <= 'Z'
            ||| 'a' <= c <= 'z'
            ||| '0' <= c <= '9'
            ||| c == '-'
            ||| c == '_'
            ||| c == '.'
            ||| c == '~'
            ||| c == '%'
        }),
    decreases bytes.len(),
{
    let head = encoded_byte(bytes[0]);
    if i >= head.len() {
        law_only_safe_characters(bytes.drop_first(), i - head.len());
    }
}

/// What two texts make together is what each makes alone, one after the other.
pub proof fn law_encoding_joins(a: Seq<u8>, b: Seq<u8>)
    ensures
        encoded(a + b) == encoded(a) + encoded(b),
    decreases a.len(),
{
    if a.len() == 0 {
        assert(a + b =~= b);
        assert(encoded(a) + encoded(b) =~= encoded(b));
    } else {
        assert((a + b).drop_first() =~= a.drop_first() + b);
        law_encoding_joins(a.drop_first(), b);
        assert(encoded(a + b) =~= encoded(a) + encoded(b));
    }
}

/// A letter, a digit or one of `-`, `_`, `.` and `~` stands for itself. Any other byte is a
/// percent sign and two hexadecimal digits in capitals, the high one first.
pub proof fn law_encoding_of_a_byte(b: u8)
    ensures
        ({
            let c = b as char;
            let text = encoded(seq![b]);
            if 'A' <= c <= 'Z' || 'a' <= c <= 'z' || '0' <= c <= '9' || c == '-' || c == '_' || c
                == '.' || c == '~' {
                text == seq![c]
            } else {
                let high = b as int / 16;
                let low = b as int % 16;
                &&& text.len() == 3
                &&& text[0] == '%'
                &&& text[1] as int == if high < 10 {
                    '0' as int + high
                } else {
                    'A' as int + high - 10
                }
                &&& text[2] as int == if low < 10 {
                    '0' as int + low
                } else {
                    'A' as int + low - 10
                }
            }
        }),
{
    let one = seq![b];
    assert(one.drop_first() =~= Seq::empty());
    assert(encoded(one.drop_first()) =~= Seq::empty());
    assert(encoded(one) =~= encoded_byte(b));
}

} // verus!
