//! Lowercase hex text for binary payloads.
//!
//! Several tags carry an opaque byte sequence; the interchange form renders
//! it as lowercase hex text, two digits per byte. Decoding fails on an odd
//! length or on any character outside `0-9a-f`; it never truncates.

use vstd::prelude::*;

use crate::value::DecodeError;

verus! {

/// The lowercase hex digit of a nibble.
pub open spec fn hex_digit(n: int) -> char {
    if n == 0 {
        '0'
    } else if n == 1 {
        '1'
    } else if n == 2 {
        '2'
    } else if n == 3 {
        '3'
    } else if n == 4 {
        '4'
    } else if n == 5 {
        '5'
    } else if n == 6 {
        '6'
    } else if n == 7 {
        '7'
    } else if n == 8 {
        '8'
    } else if n == 9 {
        '9'
    } else if n == 10 {
        'a'
    } else if n == 11 {
        'b'
    } else if n == 12 {
        'c'
    } else if n == 13 {
        'd'
    } else if n == 14 {
        'e'
    } else {
        'f'
    }
}

/// Whether `c` is a lowercase hex digit.
pub open spec fn is_hex_digit(c: char) -> bool {
    (48 <= c as int && c as int <= 57) || (97 <= c as int && c as int <= 102)
}

/// The nibble denoted by a lowercase hex digit.
pub open spec fn hex_digit_val(c: char) -> int {
    if 48 <= c as int && c as int <= 57 {
        c as int - 48
    } else {
        c as int - 87
    }
}

/// The lowercase hex text of a byte sequence: two digits per byte.
pub open spec fn hex_of(bytes: Seq<u8>) -> Seq<char> {
    Seq::new(
        bytes.len() * 2,
        |i: int|
            if i % 2 == 0 {
                hex_digit(bytes[i / 2] as int / 16)
            } else {
                hex_digit(bytes[i / 2] as int % 16)
            },
    )
}

/// Whether `s` is well-formed hex text: even length, lowercase digits only.
pub open spec fn is_hex_seq(s: Seq<char>) -> bool {
    s.len() % 2 == 0 && (forall|i: int| 0 <= i < s.len() ==> is_hex_digit(#[trigger] s[i]))
}

/// The bytes denoted by well-formed hex text.
pub open spec fn bytes_of_hex(s: Seq<char>) -> Seq<u8> {
    Seq::new(
        s.len() / 2,
        |i: int| (hex_digit_val(s[2 * i]) * 16 + hex_digit_val(s[2 * i + 1])) as u8,
    )
}

/// A hex digit's text round-trips through its nibble.
proof fn lemma_digit_round_trip(c: char)
    requires
        is_hex_digit(c),
    ensures
        0 <= hex_digit_val(c) < 16,
        hex_digit(hex_digit_val(c)) == c,
{
}

/// Encoding any byte sequence and decoding it back reproduces the bytes,
/// and the encoding is always well-formed hex text.
pub proof fn lemma_hex_round_trip(bytes: Seq<u8>)
    ensures
        is_hex_seq(hex_of(bytes)),
        bytes_of_hex(hex_of(bytes)) == bytes,
{
    let s = hex_of(bytes);
    assert forall|i: int| 0 <= i < s.len() implies is_hex_digit(#[trigger] s[i]) by {
        let b = bytes[i / 2] as int;
        assert(0 <= b < 256);
    }
    assert(bytes_of_hex(s) =~= bytes);
}

/// Well-formed hex text round-trips through the bytes it denotes.
pub proof fn lemma_hex_text_round_trip(s: Seq<char>)
    requires
        is_hex_seq(s),
    ensures
        hex_of(bytes_of_hex(s)) == s,
{
    let b = bytes_of_hex(s);
    assert forall|i: int| 0 <= i < s.len() implies hex_of(b)[i] == s[i] by {
        let j = i / 2;
        assert(is_hex_digit(s[2 * j]) && is_hex_digit(s[2 * j + 1]));
        lemma_digit_round_trip(s[2 * j]);
        lemma_digit_round_trip(s[2 * j + 1]);
        let v = hex_digit_val(s[2 * j]) * 16 + hex_digit_val(s[2 * j + 1]);
        assert(b[j] == v as u8);
        assert(v as u8 as int / 16 == hex_digit_val(s[2 * j]));
        assert(v as u8 as int % 16 == hex_digit_val(s[2 * j + 1]));
        if i % 2 == 0 {
            assert(2 * j == i);
        } else {
            assert(2 * j + 1 == i);
        }
    }
    assert(hex_of(b) =~= s);
}

/// The single-character text of a nibble's hex digit.
fn nibble_str(n: u8) -> (s: &'static str)
    requires
        n < 16,
    ensures
        s@.len() == 1 && s@[0] == hex_digit(n as int),
{
    proof {
        reveal_strlit("0");
        reveal_strlit("1");
        reveal_strlit("2");
        reveal_strlit("3");
        reveal_strlit("4");
        reveal_strlit("5");
        reveal_strlit("6");
        reveal_strlit("7");
        reveal_strlit("8");
        reveal_strlit("9");
        reveal_strlit("a");
        reveal_strlit("b");
        reveal_strlit("c");
        reveal_strlit("d");
        reveal_strlit("e");
        reveal_strlit("f");
    }
    if n == 0 {
        "0"
    } else if n == 1 {
        "1"
    } else if n == 2 {
        "2"
    } else if n == 3 {
        "3"
    } else if n == 4 {
        "4"
    } else if n == 5 {
        "5"
    } else if n == 6 {
        "6"
    } else if n == 7 {
        "7"
    } else if n == 8 {
        "8"
    } else if n == 9 {
        "9"
    } else if n == 10 {
        "a"
    } else if n == 11 {
        "b"
    } else if n == 12 {
        "c"
    } else if n == 13 {
        "d"
    } else if n == 14 {
        "e"
    } else {
        "f"
    }
}

/// Renders a byte sequence as lowercase hex text.
pub fn hex_encode(data: &Vec<u8>) -> (s: String)
    ensures
        s@ == hex_of(data@),
{
    let mut s = String::new();
    let mut i: usize = 0;
    while i < data.len()
        invariant
            i <= data@.len(),
            s@ == hex_of(data@.take(i as int)),
        decreases data@.len() - i,
    {
        let b = data[i];
        s.append(nibble_str(b / 16));
        s.append(nibble_str(b % 16));
        i = i + 1;
        proof {
            assert(s@ =~= hex_of(data@.take(i as int)));
        }
    }
    proof {
        assert(data@.take(data@.len() as int) =~= data@);
    }
    s
}

/// The numeric value of a lowercase hex digit character, if it is one.
fn digit_val(c: char) -> (r: Option<u8>)
    ensures
        r matches Some(v) ==> is_hex_digit(c) && v as int == hex_digit_val(c),
        r is None ==> !is_hex_digit(c),
{
    let cu = c as u32;
    if 48 <= cu && cu <= 57 {
        Some((cu - 48) as u8)
    } else if 97 <= cu && cu <= 102 {
        Some((cu - 87) as u8)
    } else {
        None
    }
}

/// Parses lowercase hex text back into bytes. Fails on an odd length or on
/// any character outside `0-9a-f`.
pub fn hex_decode(s: &str) -> (r: Result<Vec<u8>, DecodeError>)
    ensures
        r is Ok <==> is_hex_seq(s@),
        r matches Ok(d) ==> d@ == bytes_of_hex(s@) && hex_of(d@) == s@,
{
    let n = s.unicode_len();
    if n % 2 != 0 {
        return Err(DecodeError::InvalidHex);
    }
    let mut out: Vec<u8> = Vec::new();
    let mut i: usize = 0;
    while i < n
        invariant
            n == s@.len(),
            n % 2 == 0,
            i % 2 == 0,
            i <= n,
            forall|j: int| 0 <= j < i ==> is_hex_digit(#[trigger] s@[j]),
            out@ == bytes_of_hex(s@.take(i as int)),
        decreases n - i,
    {
        let hi = match digit_val(s.get_char(i)) {
            Some(v) => v,
            None => {
                return Err(DecodeError::InvalidHex);
            },
        };
        let lo = match digit_val(s.get_char(i + 1)) {
            Some(v) => v,
            None => {
                return Err(DecodeError::InvalidHex);
            },
        };
        out.push(hi * 16 + lo);
        i = i + 2;
        proof {
            assert(out@ =~= bytes_of_hex(s@.take(i as int)));
        }
    }
    proof {
        assert(s@.take(n as int) =~= s@);
        lemma_hex_text_round_trip(s@);
    }
    Ok(out)
}

} // verus!
