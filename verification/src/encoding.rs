//! Verified text and byte encodings: lowercase hex, decimal rendering of
//! nonces, and big-endian byte extraction.

use vstd::prelude::*;
use vstd::string::StrSliceExecFns;
use vstd::string::StringExecFns;

verus! {

/// The lowercase hex digit for a value below 16.
pub open spec fn hex_char_of(n: u8) -> char
    recommends
        n < 16,
{
    if n == 0 {
        '0'
    } else if n == 1 {
        '1'
    } else if n == 2 {
        '2'
    } else if n == 3 {
        '3'
    } else if n == 4 {
        '4'
    } else if n == 5 {
        '5'
    } else if n == 6 {
        '6'
    } else if n == 7 {
        '7'
    } else if n == 8 {
        '8'
    } else if n == 9 {
        '9'
    } else if n == 10 {
        'a'
    } else if n == 11 {
        'b'
    } else if n == 12 {
        'c'
    } else if n == 13 {
        'd'
    } else if n == 14 {
        'e'
    } else {
        'f'
    }
}

/// Whether a character is a lowercase hex digit.
pub open spec fn is_hex_char(c: char) -> bool {
    (48 <= c as u32 && c as u32 <= 57) || (97 <= c as u32 && c as u32 <= 102)
}

/// The value of a lowercase hex digit.
pub open spec fn hex_val_of(c: char) -> u8
    recommends
        is_hex_char(c),
{
    if c as u32 <= 57 {
        ((c as u32) - 48) as u8
    } else {
        ((c as u32) - 87) as u8
    }
}

/// The lowercase hex rendering of a byte sequence: two digits per byte.
pub open spec fn hex_seq(bytes: Seq<u8>) -> Seq<char> {
    Seq::new(
        bytes.len() * 2,
        |i: int|
            if i % 2 == 0 {
                hex_char_of(bytes[i / 2] / 16)
            } else {
                hex_char_of(bytes[i / 2] % 16)
            },
    )
}

/// Whether every character of a text is a lowercase hex digit.
pub open spec fn valid_hex_text(s: Seq<char>) -> bool {
    forall|i: int| 0 <= i < s.len() ==> #[trigger] is_hex_char(s[i])
}

/// The bytes denoted by an even-length hex text.
pub open spec fn parse_hex(s: Seq<char>) -> Seq<u8>
    recommends
        s.len() % 2 == 0,
        valid_hex_text(s),
{
    Seq::new(s.len() / 2, |i: int| (16 * hex_val_of(s[2 * i]) + hex_val_of(s[2 * i + 1])) as u8)
}

/// Round trip: parsing the hex rendering of any bytes recovers the bytes,
/// and the rendering is always valid lowercase hex text of twice the length.
pub proof fn lemma_hex_round_trip(bytes: Seq<u8>)
    ensures
        hex_seq(bytes).len() == bytes.len() * 2,
        valid_hex_text(hex_seq(bytes)),
        parse_hex(hex_seq(bytes)) == bytes,
{
    assert forall|i: int| 0 <= i < hex_seq(bytes).len() implies #[trigger] is_hex_char(
        hex_seq(bytes)[i],
    ) by {
        if i % 2 == 0 {
            assert(bytes[i / 2] / 16 < 16);
        } else {
            assert(bytes[i / 2] % 16 < 16);
        }
    }
    assert forall|i: int| 0 <= i < bytes.len() implies parse_hex(hex_seq(bytes))[i] == bytes[i] by {
        let b = bytes[i];
        assert(hex_seq(bytes)[2 * i] == hex_char_of(b / 16));
        assert(hex_seq(bytes)[2 * i + 1] == hex_char_of(b % 16));
        assert(hex_val_of(hex_char_of(b / 16)) == b / 16);
        assert(hex_val_of(hex_char_of(b % 16)) == b % 16);
        assert(16 * (b / 16) + b % 16 == b);
    }
    assert(parse_hex(hex_seq(bytes)) =~= bytes);
}

/// The lowercase hex digit as a one-character string slice.
pub fn hex_digit_str(n: u8) -> (s: &'static str)
    requires
        n < 16,
    ensures
        s@ == seq![hex_char_of(n)],
{
    let s: &'static str = match n {
        0 => "0",
        1 => "1",
        2 => "2",
        3 => "3",
        4 => "4",
        5 => "5",
        6 => "6",
        7 => "7",
        8 => "8",
        9 => "9",
        10 => "a",
        11 => "b",
        12 => "c",
        13 => "d",
        14 => "e",
        _ => "f",
    };
    proof {
        reveal_strlit("0");
        reveal_strlit("1");
        reveal_strlit("2");
        reveal_strlit("3");
        reveal_strlit("4");
        reveal_strlit("5");
        reveal_strlit("6");
        reveal_strlit("7");
        reveal_strlit("8");
        reveal_strlit("9");
        reveal_strlit("a");
        reveal_strlit("b");
        reveal_strlit("c");
        reveal_strlit("d");
        reveal_strlit("e");
        reveal_strlit("f");
    }
    assert(s@ =~= seq![hex_char_of(n)]);
    s
}

/// Renders bytes as lowercase hex text.
pub fn to_hex(bytes: &Vec<u8>) -> (r: String)
    ensures
        r@ == hex_seq(bytes@),
{
    let mut r = String::new();
    let mut i: usize = 0;
    while i < bytes.len()
        invariant
            i <= bytes.len(),
            r@ =~= hex_seq(bytes@.subrange(0, i as int)),
        decreases bytes.len() - i,
    {
        let b = bytes[i];
        r.append(hex_digit_str(b / 16));
        r.append(hex_digit_str(b % 16));
        proof {
            let pre = bytes@.subrange(0, i as int);
            let ext = bytes@.subrange(0, i + 1);
            assert(ext[i as int] == bytes@[i as int]);
            assert(hex_seq(ext) =~= hex_seq(pre) + seq![
                hex_char_of(bytes@[i as int] / 16),
                hex_char_of(bytes@[i as int] % 16),
            ]);
        }
        i = i + 1;
    }
    proof {
        assert(bytes@.subrange(0, bytes@.len() as int) =~= bytes@);
    }
    r
}

/// The value of a lowercase hex digit character, or `None` otherwise.
pub fn hex_digit_val(c: char) -> (r: Option<u8>)
    ensures
        (r is Some) == is_hex_char(c),
        r matches Some(v) ==> v == hex_val_of(c) && v < 16,
{
    match c {
        '0' => Some(0),
        '1' => Some(1),
        '2' => Some(2),
        '3' => Some(3),
        '4' => Some(4),
        '5' => Some(5),
        '6' => Some(6),
        '7' => Some(7),
        '8' => Some(8),
        '9' => Some(9),
        'a' => Some(10),
        'b' => Some(11),
        'c' => Some(12),
        'd' => Some(13),
        'e' => Some(14),
        'f' => Some(15),
        _ => None,
    }
}

/// Parses an even-length lowercase hex text into bytes; `None` exactly when
/// the text has odd length or a character that is not a lowercase hex digit.
pub fn parse_hex_text(s: &str) -> (r: Option<Vec<u8>>)
    ensures
        (r is Some) == (s@.len() % 2 == 0 && valid_hex_text(s@)),
        r matches Some(v) ==> v@ == parse_hex(s@) && v@.len() * 2 == s@.len(),
{
    let n = s.unicode_len();
    if n % 2 != 0 {
        return None;
    }
    let mut out: Vec<u8> = Vec::new();
    let mut i: usize = 0;
    while i < n / 2
        invariant
            s@.len() == n,
            n % 2 == 0,
            i <= n / 2,
            out@.len() == i,
            forall|j: int| 0 <= j < 2 * i ==> #[trigger] is_hex_char(s@[j]),
            forall|j: int|
                0 <= j < i ==> #[trigger] out@[j] == (16 * hex_val_of(s@[2 * j]) + hex_val_of(
                    s@[2 * j + 1],
                )) as u8,
        decreases n / 2 - i,
    {
        let hi = match hex_digit_val(s.get_char(2 * i)) {
            Some(v) => v,
            None => {
                return None;
            },
        };
        let lo = match hex_digit_val(s.get_char(2 * i + 1)) {
            Some(v) => v,
            None => {
                return None;
            },
        };
        out.push(16 * hi + lo);
        i = i + 1;
    }
    proof {
        assert(out@ =~= parse_hex(s@));
    }
    Some(out)
}

/// The decimal rendering of a natural number, most significant digit first.
pub open spec fn dec_seq(n: nat) -> Seq<char>
    decreases n,
{
    if n < 10 {
        seq![hex_char_of(n as u8)]
    } else {
        dec_seq(n / 10).push(hex_char_of((n % 10) as u8))
    }
}

/// Renders a number in decimal.
pub fn u64_to_dec(n: u64) -> (r: String)
    ensures
        r@ == dec_seq(n as nat),
    decreases n,
{
    if n < 10 {
        let mut r = String::new();
        r.append(hex_digit_str(n as u8));
        assert(r@ =~= dec_seq(n as nat));
        r
    } else {
        assert(n / 10 < n) by {
            vstd::arithmetic::div_mod::lemma_div_is_strictly_smaller(n as int, 10int);
        };
        let mut r = u64_to_dec(n / 10);
        r.append(hex_digit_str((n % 10) as u8));
        assert(r@ =~= dec_seq(n as nat));
        r
    }
}

/// The big-endian four-byte rendering of a 32-bit value.
pub open spec fn be32(x: u32) -> Seq<u8> {
    seq![((x >> 24) & 0xff) as u8, ((x >> 16) & 0xff) as u8, ((x >> 8) & 0xff) as u8, (x
        & 0xff) as u8]
}

/// Appends the big-endian four-byte rendering of a 32-bit value.
pub fn push_be32(out: &mut Vec<u8>, x: u32)
    ensures
        final(out)@ == old(out)@ + be32(x),
{
    assert(((x >> 24) & 0xff) < 256 && ((x >> 16) & 0xff) < 256 && ((x >> 8) & 0xff) < 256 && (x
        & 0xff) < 256) by (bit_vector);
    out.push(((x >> 24) & 0xff) as u8);
    out.push(((x >> 16) & 0xff) as u8);
    out.push(((x >> 8) & 0xff) as u8);
    out.push((x & 0xff) as u8);
    assert(final(out)@ =~= old(out)@ + be32(x));
}

/// Appends every byte of `src` to `dst`.
pub fn push_all(dst: &mut Vec<u8>, src: &Vec<u8>)
    ensures
        final(dst)@ == old(dst)@ + src@,
{
    let mut i: usize = 0;
    while i < src.len()
        invariant
            i <= src.len(),
            dst@ =~= old(dst)@ + src@.subrange(0, i as int),
        decreases src.len() - i,
    {
        dst.push(src[i]);
        proof {
            assert(src@.subrange(0, i + 1) =~= src@.subrange(0, i as int) + seq![src@[i as int]]);
        }
        i = i + 1;
    }
    proof {
        assert(src@.subrange(0, src@.len() as int) =~= src@);
    }
    assert(dst@ =~= old(dst)@ + src@);
}

/// Copies the bytes of `v` between `start` and `end`.
pub fn sub_bytes(v: &Vec<u8>, start: usize, end: usize) -> (r: Vec<u8>)
    requires
        start <= end <= v@.len(),
    ensures
        r@ == v@.subrange(start as int, end as int),
{
    let mut r: Vec<u8> = Vec::new();
    let mut i: usize = start;
    while i < end
        invariant
            start <= i <= end <= v@.len(),
            r@ =~= v@.subrange(start as int, i as int),
        decreases end - i,
    {
        r.push(v[i]);
        proof {
            assert(v@.subrange(start as int, i + 1) =~= v@.subrange(start as int, i as int)
                + seq![v@[i as int]]);
        }
        i = i + 1;
    }
    r
}

/// Whether two byte vectors hold the same bytes.
pub fn bytes_eq(a: &Vec<u8>, b: &Vec<u8>) -> (r: bool)
    ensures
        r == (a@ == b@),
{
    if a.len() != b.len() {
        return false;
    }
    let mut i: usize = 0;
    while i < a.len()
        invariant
            a@.len() == b@.len(),
            i <= a@.len(),
            forall|j: int| 0 <= j < i ==> a@[j] == b@[j],
        decreases a.len() - i,
    {
        if a[i] != b[i] {
            return false;
        }
        i = i + 1;
    }
    proof {
        assert(a@ =~= b@);
    }
    true
}

} // verus!
