//! Decoding of URL-encoded form values: `%XX` escapes and `+` for space.
use vstd::prelude::*;
use vstd::utf8::{encode_scalar, valid_utf8, decode_utf8, encode_utf8};
use crate::text::to_chars;

verus! {

/// The value of a hexadecimal digit, upper or lower.
pub open spec fn hex_value(c: char) -> Option<u8> {
    if '0' <= c && c <= '9' {
        Some((c as u32 - '0' as u32) as u8)
    } else if 'a' <= c && c <= 'f' {
        Some((c as u32 - 'a' as u32 + 10) as u8)
    } else if 'A' <= c && c <= 'F' {
        Some((c as u32 - 'A' as u32 + 10) as u8)
    } else {
        None
    }
}

/// The bytes that the URL-encoded text `s` stands for: `%` and two hex
/// digits is the byte they spell, `+` is a space, any other character is its
/// UTF-8 encoding. `None` when a `%` is not followed by two hex digits.
pub open spec fn percent_decode(s: Seq<char>) -> Option<Seq<u8>>
    decreases s.len(),
{
    if s.len() == 0 {
        Some(Seq::empty())
    } else if s[0] == '%' {
        if s.len() >= 3 && hex_value(s[1]) is Some && hex_value(s[2]) is Some {
            match percent_decode(s.skip(3)) {
                Some(rest) => Some(
                    seq![(hex_value(s[1]).unwrap() * 16 + hex_value(s[2]).unwrap()) as u8] + rest,
                ),
                None => None,
            }
        } else {
            None
        }
    } else {
        let head = if s[0] == '+' {
            seq![32u8]
        } else {
            encode_scalar(s[0] as u32)
        };
        match percent_decode(s.skip(1)) {
            Some(rest) => Some(head + rest),
            None => None,
        }
    }
}

/// The value of hex digit `c`.
fn hex_digit(c: char) -> (r: Option<u8>)
    ensures
        r == hex_value(c),
{
    if '0' <= c && c <= '9' {
        Some((c as u32 - '0' as u32) as u8)
    } else if 'a' <= c && c <= 'f' {
        Some((c as u32 - 'a' as u32 + 10) as u8)
    } else if 'A' <= c && c <= 'F' {
        Some((c as u32 - 'A' as u32 + 10) as u8)
    } else {
        None
    }
}

/// Appends the UTF-8 encoding of `c`.
fn push_utf8(out: &mut Vec<u8>, c: char)
    ensures
        final(out)@ == old(out)@ + encode_scalar(c as u32),
{
    let v = c as u32;
    proof {
        vstd::utf8::char_is_scalar(c);
    }
    if v <= 0x7F {
        out.push((v & 0x7F) as u8);
    } else if v <= 0x7FF {
        out.push(0xC0 | ((v >> 6) & 0x1F) as u8);
        out.push(0x80 | (v & 0x3F) as u8);
    } else if v <= 0xFFFF {
        out.push(0xE0 | ((v >> 12) & 0x0F) as u8);
        out.push(0x80 | ((v >> 6) & 0x3F) as u8);
        out.push(0x80 | (v & 0x3F) as u8);
    } else {
        out.push(0xF0 | ((v >> 18) & 0x7) as u8);
        out.push(0x80 | ((v >> 12) & 0x3F) as u8);
        out.push(0x80 | ((v >> 6) & 0x3F) as u8);
        out.push(0x80 | (v & 0x3F) as u8);
    }
    assert(out@ =~= old(out)@ + encode_scalar(c as u32));
}

/// The message of the error that `String::from_utf8` gives for `bytes`.
pub uninterp spec fn utf8_error_text(bytes: Seq<u8>) -> Seq<char>;

/// Calls `String::from_utf8`, which accepts exactly the byte sequences that
/// are valid UTF-8 and gives the text they encode; its error is turned into
/// its message, named `utf8_error_text` of the bytes (the message's wording,
/// which gives the length and position of the first invalid sequence, is
/// not spelled out here).
#[verifier::external_body]
fn string_from_utf8(bytes: Vec<u8>) -> (r: Result<String, String>)
    ensures
        r is Ok <==> valid_utf8(bytes@),
        r matches Ok(s) ==> s@ == decode_utf8(bytes@),
        r matches Err(m) ==> m@ == utf8_error_text(bytes@),
{
    match String::from_utf8(bytes) {
        Ok(s) => Ok(s),
        Err(e) => Err(e.to_string()),
    }
}

/// Decodes a URL-encoded value. Fails with `Invalid %-sequence` when a `%`
/// is not followed by two hex digits, and with the UTF-8 error's message
/// (`utf8_error_text`) when the decoded bytes are not UTF-8.
pub fn url_decode(input: &str) -> (r: Result<String, String>)
    ensures
        percent_decode(input@) is None ==> (r matches Err(e) && e@ == "Invalid %-sequence"@),
        percent_decode(input@) matches Some(b) ==> (r is Ok <==> valid_utf8(b)),
        percent_decode(input@) matches Some(b) ==> (r matches Ok(s) ==> s@ == decode_utf8(b)),
        percent_decode(input@) matches Some(b) ==> (r matches Err(e) ==> e@ == utf8_error_text(b)),
{
    let s = to_chars(input);
    let n = s.len();
    let mut bytes: Vec<u8> = Vec::new();
    let mut i: usize = 0;
    assert(s@.skip(0) =~= s@);
    while i < n
        invariant
            n == s.len(),
            s@ == input@,
            i <= n,
            match percent_decode(s@.skip(i as int)) {
                Some(rest) => percent_decode(s@) == Some(bytes@ + rest),
                None => percent_decode(s@) is None,
            },
        decreases n - i,
    {
        let ghost t = s@.skip(i as int);
        let c = s[i];
        assert(t[0] == c);
        if c == '%' {
            let hex1 = if n - i > 1 {
                hex_digit(s[i + 1])
            } else {
                None
            };
            let hex2 = if n - i > 2 {
                hex_digit(s[i + 2])
            } else {
                None
            };
            match (hex1, hex2) {
                (Some(h1), Some(h2)) => {
                    let ghost before = bytes@;
                    proof {
                        assert(t[1] == s@[i + 1]);
                        assert(t[2] == s@[i + 2]);
                        assert(t.skip(3) =~= s@.skip(i + 3));
                    }
                    bytes.push(h1 * 16 + h2);
                    proof {
                        if let Some(rest) = percent_decode(s@.skip(i + 3)) {
                            assert(bytes@ + rest =~= before + (seq![(h1 * 16 + h2) as u8] + rest));
                        }
                    }
                    i = i + 3;
                },
                _ => {
                    proof {
                        if i + 1 < n {
                            assert(t[1] == s@[i + 1]);
                        }
                        if i + 2 < n {
                            assert(t[2] == s@[i + 2]);
                        }
                    }
                    return Err("Invalid %-sequence".to_owned());
                },
            }
        } else {
            let ghost before = bytes@;
            if c == '+' {
                bytes.push(32);
            } else {
                push_utf8(&mut bytes, c);
            }
            proof {
                assert(t.skip(1) =~= s@.skip(i + 1));
                let head = if c == '+' {
                    seq![32u8]
                } else {
                    encode_scalar(c as u32)
                };
                assert(bytes@ == before + head);
                if let Some(rest) = percent_decode(s@.skip(i + 1)) {
                    assert(bytes@ + rest =~= before + (head + rest));
                }
            }
            i = i + 1;
        }
    }
    proof {
        assert(s@.skip(n as int) =~= Seq::<char>::empty());
        assert(bytes@ + Seq::<u8>::empty() =~= bytes@);
    }
    string_from_utf8(bytes)
}

/// Text without `%` and `+` stands for its own UTF-8 encoding, so
/// `url_decode` gives it back unchanged.
pub proof fn law_plain_text_unchanged(s: Seq<char>)
    requires
        forall|i: int| 0 <= i < s.len() ==> #[trigger] s[i] != '%' && s[i] != '+',
    ensures
        percent_decode(s) == Some(encode_utf8(s)),
        valid_utf8(encode_utf8(s)),
        decode_utf8(encode_utf8(s)) == s,
    decreases s.len(),
{
    vstd::utf8::encode_utf8_valid_utf8(s);
    vstd::utf8::encode_utf8_decode_utf8(s);
    if s.len() > 0 {
        let t = s.skip(1);
        assert forall|i: int| 0 <= i < t.len() implies #[trigger] t[i] != '%' && t[i] != '+' by {
            assert(t[i] == s[i + 1]);
        }
        law_plain_text_unchanged(t);
        assert(s[0] != '%' && s[0] != '+');
        assert(t =~= s.drop_first());
    }
}

/// The upper-case hexadecimal digit for `d`, for `d` from 0 to 15.
pub open spec fn hex_char(d: int) -> char {
    if d == 0 { '0' } else if d == 1 { '1' } else if d == 2 { '2' } else if d == 3 { '3' }
    else if d == 4 { '4' } else if d == 5 { '5' } else if d == 6 { '6' } else if d == 7 { '7' }
    else if d == 8 { '8' } else if d == 9 { '9' } else if d == 10 { 'A' } else if d == 11 { 'B' }
    else if d == 12 { 'C' } else if d == 13 { 'D' } else if d == 14 { 'E' } else { 'F' }
}

/// Every byte of `bs` written as `%` and two upper-case hex digits.
pub open spec fn percent_encode(bs: Seq<u8>) -> Seq<char>
    decreases bs.len(),
{
    if bs.len() == 0 {
        Seq::empty()
    } else {
        seq!['%', hex_char((bs[0] / 16) as int), hex_char((bs[0] % 16) as int)] + percent_encode(
            bs.drop_first(),
        )
    }
}

/// The lower-case hexadecimal digit for `d`, for `d` from 0 to 15.
pub open spec fn hex_char_lower(d: int) -> char {
    if d == 10 { 'a' } else if d == 11 { 'b' } else if d == 12 { 'c' } else if d == 13 { 'd' }
    else if d == 14 { 'e' } else if d == 15 { 'f' } else { hex_char(d) }
}

/// Each hexadecimal digit, upper or lower case, has the value it names:
/// `0`-`9` are 0 to 9, `a`-`f` and `A`-`F` alike are 10 to 15.
pub proof fn law_hex_digit_value(d: int)
    requires
        0 <= d < 16,
    ensures
        hex_value(hex_char(d)) == Some(d as u8),
        hex_value(hex_char_lower(d)) == Some(d as u8),
{
}

/// An escape `%` and two hex digits stands for the same byte whether its
/// digits are written in lower or upper case: for every byte `b` and every
/// text after the escape, decoding gives `b` followed by what that text
/// decodes to.
pub proof fn law_percent_escape_any_case(b: u8, rest: Seq<char>)
    ensures
        percent_decode(seq!['%', hex_char_lower((b / 16) as int), hex_char_lower((b % 16) as int)]
            + rest) == percent_decode(
            seq!['%', hex_char((b / 16) as int), hex_char((b % 16) as int)] + rest,
        ),
        percent_decode(seq!['%', hex_char_lower((b / 16) as int), hex_char_lower((b % 16) as int)]
            + rest) == match percent_decode(rest) {
            Some(t) => Some(seq![b] + t),
            None => None,
        },
{
    let hi = (b / 16) as int;
    let lo = (b % 16) as int;
    law_hex_digit_value(hi);
    law_hex_digit_value(lo);
    let e1 = seq!['%', hex_char_lower(hi), hex_char_lower(lo)] + rest;
    let e2 = seq!['%', hex_char(hi), hex_char(lo)] + rest;
    assert(e1.skip(3) =~= rest);
    assert(e2.skip(3) =~= rest);
    assert(e1[0] == '%' && e1[1] == hex_char_lower(hi) && e1[2] == hex_char_lower(lo));
    assert(e2[0] == '%' && e2[1] == hex_char(hi) && e2[2] == hex_char(lo));
    assert(((hi as u8) * 16 + lo as u8) as u8 == b);
}

/// Percent-encoding every byte and decoding gives the bytes back.
pub proof fn law_percent_encoding_roundtrip(bs: Seq<u8>)
    ensures
        percent_decode(percent_encode(bs)) == Some(bs),
    decreases bs.len(),
{
    if bs.len() > 0 {
        let e = percent_encode(bs);
        let b = bs[0] as int;
        let rest = bs.drop_first();
        law_hex_digit_value(b / 16);
        law_hex_digit_value(b % 16);
        law_percent_encoding_roundtrip(rest);
        assert(e.skip(3) =~= percent_encode(rest));
        assert(e[1] == hex_char(b / 16) && e[2] == hex_char(b % 16));
        assert(((b / 16) as u8 * 16 + (b % 16) as u8) as u8 == bs[0]);
        assert(seq![bs[0]] + rest =~= bs);
    }
}

/// Percent-encoding the UTF-8 bytes of any text gives a value that
/// `url_decode` turns back into that text: the encoding decodes to those
/// bytes, and they are valid UTF-8 for the text.
pub proof fn law_url_decode_of_encoded_text(s: Seq<char>)
    ensures
        percent_decode(percent_encode(encode_utf8(s))) == Some(encode_utf8(s)),
        valid_utf8(encode_utf8(s)),
        decode_utf8(encode_utf8(s)) == s,
{
    law_percent_encoding_roundtrip(encode_utf8(s));
    vstd::utf8::encode_utf8_valid_utf8(s);
    vstd::utf8::encode_utf8_decode_utf8(s);
}

} // verus!
