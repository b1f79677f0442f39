//! Hex-string decoding for the vendor handshake frames.
//!
//! `hex_decode` turns an even-length hexadecimal string into bytes; the
//! `Big` orientation additionally reverses the bit order of every byte.
//! `hex_encode` is the inverse of little-endian decoding.
use vstd::prelude::*;

verus! {

/// Byte orientation for decoded hex: `Little` keeps each byte as written,
/// `Big` reverses the bit order of each byte.
#[derive(Clone, Copy, Debug)]
pub enum Endianness {
    Little,
    Big,
}

/// Numeric value of one hexadecimal digit, if the character is one.
pub open spec fn hex_digit_value(c: char) -> Option<u8> {
    let u = c as u32;
    if ('0' as u32) <= u && u <= ('9' as u32) {
        Some((u - ('0' as u32)) as u8)
    } else if ('a' as u32) <= u && u <= ('f' as u32) {
        Some((u - ('a' as u32) + 10) as u8)
    } else if ('A' as u32) <= u && u <= ('F' as u32) {
        Some((u - ('A' as u32) + 10) as u8)
    } else {
        None
    }
}

/// The bits of `b`, most significant first, read in the opposite order.
pub open spec fn bit_reversed(b: u8) -> u8 {
    ((b & 0x80) >> 7) | ((b & 0x40) >> 5) | ((b & 0x20) >> 3) | ((b & 0x10) >> 1) | ((b & 0x08)
        << 1) | ((b & 0x04) << 3) | ((b & 0x02) << 5) | ((b & 0x01) << 7)
}

/// How one decoded byte leaves `hex_decode` under the given orientation.
pub open spec fn oriented_byte(b: u8, e: Endianness) -> u8 {
    match e {
        Endianness::Little => b,
        Endianness::Big => bit_reversed(b),
    }
}

/// The byte written as the `j`-th digit pair of `s`.
pub open spec fn pair_value(s: Seq<char>, j: int) -> u8 {
    (((hex_digit_value(s[2 * j]).unwrap() as u32) * 16) + (hex_digit_value(
        s[2 * j + 1],
    ).unwrap() as u32)) as u8
}

pub open spec fn all_hex_digits(s: Seq<char>) -> bool {
    forall|i: int| 0 <= i < s.len() ==> (#[trigger] hex_digit_value(s[i])) is Some
}

/// What `hex_decode` returns: the digit pairs of `s`, each oriented by `e`,
/// or nothing when the length is odd or a character is not a hex digit.
pub open spec fn hex_decode_spec(s: Seq<char>, e: Endianness) -> Option<Seq<u8>> {
    if s.len() % 2 == 0 && all_hex_digits(s) {
        Some(Seq::new((s.len() / 2) as nat, |j: int| oriented_byte(pair_value(s, j), e)))
    } else {
        None
    }
}

pub fn hex_digit(c: char) -> (r: Option<u8>)
    ensures
        r == hex_digit_value(c),
{
    let u: u32 = c as u32;
    if 48 <= u && u <= 57 {
        Some((u - 48) as u8)
    } else if 97 <= u && u <= 102 {
        Some((u - 87) as u8)
    } else if 65 <= u && u <= 70 {
        Some((u - 55) as u8)
    } else {
        None
    }
}

pub fn reverse_bits(b: u8) -> (r: u8)
    ensures
        r == bit_reversed(b),
{
    ((b & 0x80) >> 7) | ((b & 0x40) >> 5) | ((b & 0x20) >> 3) | ((b & 0x10) >> 1) | ((b & 0x08)
        << 1) | ((b & 0x04) << 3) | ((b & 0x02) << 5) | ((b & 0x01) << 7)
}

/// Decodes an even-length hex string into bytes, reversing each byte's bits
/// for the `Big` orientation; fails on odd length or a non-hex character.
pub fn hex_decode(hex_string: &str, endianness: &Endianness) -> (r: Option<Vec<u8>>)
    ensures
        match r {
            Some(bytes) => hex_decode_spec(hex_string@, *endianness) == Some(bytes@),
            None => hex_decode_spec(hex_string@, *endianness) is None,
        },
{
    let n: usize = hex_string.unicode_len();
    if n % 2 != 0 {
        return None;
    }
    let mut out: Vec<u8> = Vec::new();
    let mut i: usize = 0;
    while i < n
        invariant
            n == hex_string@.len(),
            i % 2 == 0,
            n % 2 == 0,
            i <= n,
            out@.len() == i / 2,
            forall|k: int| 0 <= k < i ==> (#[trigger] hex_digit_value(hex_string@[k])) is Some,
            forall|j: int|
                0 <= j < i / 2 ==> out@[j] == oriented_byte(
                    pair_value(hex_string@, j),
                    *endianness,
                ),
        decreases n - i,
    {
        let c1: char = hex_string.get_char(i);
        let c2: char = hex_string.get_char(i + 1);
        match (hex_digit(c1), hex_digit(c2)) {
            (Some(h), Some(l)) => {
                assert(h < 16 && l < 16);
                let b: u8 = h * 16 + l;
                let ob: u8 = match endianness {
                    Endianness::Little => b,
                    Endianness::Big => reverse_bits(b),
                };
                out.push(ob);
            },
            _ => {
                return None;
            },
        }
        i = i + 2;
    }
    proof {
        let full = Seq::new(
            (hex_string@.len() / 2) as nat,
            |j: int| oriented_byte(pair_value(hex_string@, j), *endianness),
        );
        assert(out@ =~= full);
    }
    Some(out)
}

/// The lowercase hex character for a value below sixteen.
pub open spec fn hex_char_of(n: u8) -> char {
    if n == 0 {
        '0'
    } else if n == 1 {
        '1'
    } else if n == 2 {
        '2'
    } else if n == 3 {
        '3'
    } else if n == 4 {
        '4'
    } else if n == 5 {
        '5'
    } else if n == 6 {
        '6'
    } else if n == 7 {
        '7'
    } else if n == 8 {
        '8'
    } else if n == 9 {
        '9'
    } else if n == 10 {
        'a'
    } else if n == 11 {
        'b'
    } else if n == 12 {
        'c'
    } else if n == 13 {
        'd'
    } else if n == 14 {
        'e'
    } else {
        'f'
    }
}

/// What `hex_encode` returns: two lowercase digits for each byte.
pub open spec fn hex_encode_spec(b: Seq<u8>) -> Seq<char> {
    Seq::new(
        (2 * b.len()) as nat,
        |i: int|
            if i % 2 == 0 {
                hex_char_of(b[i / 2] >> 4)
            } else {
                hex_char_of(b[i / 2] & 0x0f)
            },
    )
}

fn hex_digit_str(n: u8) -> (r: &'static str)
    requires
        n < 16,
    ensures
        r@.len() == 1,
        r@[0] == hex_char_of(n),
{
    proof {
        reveal_strlit("0");
        reveal_strlit("1");
        reveal_strlit("2");
        reveal_strlit("3");
        reveal_strlit("4");
        reveal_strlit("5");
        reveal_strlit("6");
        reveal_strlit("7");
        reveal_strlit("8");
        reveal_strlit("9");
        reveal_strlit("a");
        reveal_strlit("b");
        reveal_strlit("c");
        reveal_strlit("d");
        reveal_strlit("e");
        reveal_strlit("f");
    }
    match n {
        0 => "0",
        1 => "1",
        2 => "2",
        3 => "3",
        4 => "4",
        5 => "5",
        6 => "6",
        7 => "7",
        8 => "8",
        9 => "9",
        10 => "a",
        11 => "b",
        12 => "c",
        13 => "d",
        14 => "e",
        _ => "f",
    }
}

/// Writes bytes as a lowercase hex string, the inverse of little-endian
/// decoding.
pub fn hex_encode(bytes: &Vec<u8>) -> (r: String)
    ensures
        r@ == hex_encode_spec(bytes@),
{
    let mut s: String = String::new();
    let mut i: usize = 0;
    while i < bytes.len()
        invariant
            i <= bytes@.len(),
            s@ =~= hex_encode_spec(bytes@).subrange(0, 2 * i as int),
        decreases bytes@.len() - i,
    {
        let b: u8 = bytes[i];
        proof {
            assert(b >> 4 < 16 && b & 0x0f < 16) by (bit_vector);
        }
        s.append(hex_digit_str(b >> 4));
        s.append(hex_digit_str(b & 0x0f));
        i = i + 1;
    }
    proof {
        assert(s@ =~= hex_encode_spec(bytes@));
    }
    s
}

pub proof fn lemma_hex_digit_of_char(n: u8)
    requires
        n < 16,
    ensures
        hex_digit_value(hex_char_of(n)) == Some(n),
{
}

/// Law: decoding what `hex_encode` wrote, little-endian, gives the bytes back.
pub proof fn lemma_hex_decode_encode(b: Seq<u8>)
    ensures
        hex_decode_spec(hex_encode_spec(b), Endianness::Little) == Some(b),
{
    let s = hex_encode_spec(b);
    assert(s.len() == 2 * b.len());
    assert forall|i: int| 0 <= i < s.len() implies (#[trigger] hex_digit_value(s[i])) is Some by {
        let x = b[i / 2];
        assert(x >> 4 < 16 && x & 0x0f < 16) by (bit_vector);
        if i % 2 == 0 {
            lemma_hex_digit_of_char(x >> 4);
        } else {
            lemma_hex_digit_of_char(x & 0x0f);
        }
    }
    assert forall|j: int| 0 <= j < b.len() implies pair_value(s, j) == b[j] by {
        let x = b[j];
        assert(x >> 4 < 16 && x & 0x0f < 16) by (bit_vector);
        lemma_hex_digit_of_char(x >> 4);
        lemma_hex_digit_of_char(x & 0x0f);
        assert(s[2 * j] == hex_char_of(x >> 4));
        assert(s[2 * j + 1] == hex_char_of(x & 0x0f));
        assert(((x >> 4) as u32 * 16 + (x & 0x0f) as u32) as u8 == x) by (bit_vector);
    }
    assert(hex_decode_spec(s, Endianness::Little).unwrap() =~= b);
}

/// A lowercase hexadecimal digit.
pub open spec fn is_lower_hex(c: char) -> bool {
    c == '0' || c == '1' || c == '2' || c == '3' || c == '4' || c == '5' || c == '6' || c == '7'
        || c == '8' || c == '9' || c == 'a' || c == 'b' || c == 'c' || c == 'd' || c == 'e' || c
        == 'f'
}

/// Law: on even-length lowercase hex strings, little-endian decoding followed
/// by `hex_encode` is the identity.
pub proof fn lemma_hex_encode_decode(s: Seq<char>)
    requires
        s.len() % 2 == 0,
        forall|i: int| 0 <= i < s.len() ==> is_lower_hex(#[trigger] s[i]),
    ensures
        hex_decode_spec(s, Endianness::Little) is Some,
        hex_encode_spec(hex_decode_spec(s, Endianness::Little).unwrap()) == s,
{
    assert forall|i: int| 0 <= i < s.len() implies (#[trigger] hex_digit_value(s[i])) is Some by {
        assert(is_lower_hex(s[i]));
    }
    let b = hex_decode_spec(s, Endianness::Little).unwrap();
    assert forall|i: int| 0 <= i < s.len() implies hex_encode_spec(b)[i] == s[i] by {
        let j = i / 2;
        let c1 = s[2 * j];
        let c2 = s[2 * j + 1];
        assert(is_lower_hex(c1) && is_lower_hex(c2));
        let h = hex_digit_value(c1).unwrap();
        let l = hex_digit_value(c2).unwrap();
        assert(h < 16 && l < 16);
        let x = pair_value(s, j);
        assert(x == ((h as u32) * 16 + (l as u32)) as u8);
        assert(b[j] == x);
        assert({
            let hh = ((h as u32) * 16 + (l as u32)) as u8;
            hh >> 4 == h && hh & 0x0f == l
        }) by (bit_vector)
            requires
                h < 16 && l < 16,
        ;
        assert(hex_char_of(h) == c1 && hex_char_of(l) == c2);
    }
    assert(hex_encode_spec(b) =~= s);
}

} // verus!
