use vstd::prelude::*;
use vstd::string::*;

verus! {

/// Number of characters in the hexadecimal form of a 128-bit digest.
pub const DIGEST_HEX_LEN: usize = 32;

/// Whether `c` is one of `0`..`9`, `a`..`f`.
pub open spec fn is_lower_hex(c: char) -> bool {
    ('0' <= c && c <= '9') || ('a' <= c && c <= 'f')
}

/// The lowercase hexadecimal digit for a value below sixteen.
pub open spec fn hex_char(n: int) -> char {
    if n == 0 {
        '0'
    } else if n == 1 {
        '1'
    } else if n == 2 {
        '2'
    } else if n == 3 {
        '3'
    } else if n == 4 {
        '4'
    } else if n == 5 {
        '5'
    } else if n == 6 {
        '6'
    } else if n == 7 {
        '7'
    } else if n == 8 {
        '8'
    } else if n == 9 {
        '9'
    } else if n == 10 {
        'a'
    } else if n == 11 {
        'b'
    } else if n == 12 {
        'c'
    } else if n == 13 {
        'd'
    } else if n == 14 {
        'e'
    } else {
        'f'
    }
}

/// The digit at position `k` of the hexadecimal form of `bytes`: the high
/// half of a byte comes first.
pub open spec fn hex_digit_at(bytes: Seq<u8>, k: int) -> char {
    if k % 2 == 0 {
        hex_char(bytes[k / 2] as int / 16)
    } else {
        hex_char(bytes[k / 2] as int % 16)
    }
}

/// Lowercase hexadecimal form of a byte string, two digits per byte.
pub open spec fn hex_encode(bytes: Seq<u8>) -> Seq<char> {
    Seq::new(2 * bytes.len(), |k: int| hex_digit_at(bytes, k))
}

/// Whether `s` has the shape of a fingerprint: thirty-two lowercase
/// hexadecimal digits.
pub open spec fn is_hex_digest(s: Seq<char>) -> bool {
    &&& s.len() == DIGEST_HEX_LEN
    &&& forall|i: int| 0 <= i < s.len() ==> is_lower_hex(#[trigger] s[i])
}

/// The hexadecimal form of sixteen bytes has the shape of a fingerprint.
pub proof fn lemma_hex_encode_is_digest(bytes: Seq<u8>)
    requires
        bytes.len() == 16,
    ensures
        is_hex_digest(hex_encode(bytes)),
{
    let s = hex_encode(bytes);
    assert forall|i: int| 0 <= i < s.len() implies is_lower_hex(#[trigger] s[i]) by {
        let b = bytes[i / 2] as int;
        assert(0 <= b / 16 < 16);
        assert(0 <= b % 16 < 16);
    }
}

/// A fingerprint consists of ASCII characters only.
pub proof fn lemma_hex_digest_is_ascii(s: Seq<char>)
    requires
        is_hex_digest(s),
    ensures
        vstd::utf8::is_ascii_chars(s),
{
    assert forall|i: int| 0 <= i < s.len() implies '\0' <= #[trigger] s[i] <= '\u{7f}' by {
        assert(is_lower_hex(s[i]));
    }
}

fn nibble_digit(n: u8) -> (s: &'static str)
    requires
        n < 16,
    ensures
        s@ == seq![hex_char(n as int)],
{
    proof {
        reveal_strlit("0");
        reveal_strlit("1");
        reveal_strlit("2");
        reveal_strlit("3");
        reveal_strlit("4");
        reveal_strlit("5");
        reveal_strlit("6");
        reveal_strlit("7");
        reveal_strlit("8");
        reveal_strlit("9");
        reveal_strlit("a");
        reveal_strlit("b");
        reveal_strlit("c");
        reveal_strlit("d");
        reveal_strlit("e");
        reveal_strlit("f");
    }
    let s = match n {
        0 => "0",
        1 => "1",
        2 => "2",
        3 => "3",
        4 => "4",
        5 => "5",
        6 => "6",
        7 => "7",
        8 => "8",
        9 => "9",
        10 => "a",
        11 => "b",
        12 => "c",
        13 => "d",
        14 => "e",
        _ => "f",
    };
    assert(s@ =~= seq![hex_char(n as int)]);
    s
}

/// Writes `bytes` in lowercase hexadecimal.
pub fn to_hex(bytes: &[u8]) -> (out: String)
    ensures
        out@ == hex_encode(bytes@),
{
    let mut out = String::new();
    let mut i: usize = 0;
    while i < bytes.len()
        invariant
            i <= bytes.len(),
            out@ == hex_encode(bytes@.take(i as int)),
        decreases bytes.len() - i,
    {
        let b = bytes[i];
        let ghost before = out@;
        out.append(nibble_digit(b / 16));
        out.append(nibble_digit(b % 16));
        proof {
            let prev = bytes@.take(i as int);
            let next = bytes@.take(i + 1);
            assert(out@ == before + seq![hex_char(b as int / 16)] + seq![hex_char(b as int % 16)]);
            assert forall|k: int| 0 <= k < 2 * (i + 1) implies #[trigger] out@[k] == hex_digit_at(
                next,
                k,
            ) by {
                if k < 2 * i {
                    assert(out@[k] == before[k]);
                    assert(prev[k / 2] == next[k / 2]);
                } else {
                    assert(k / 2 == i);
                    assert(next[k / 2] == b);
                }
            }
            assert(out@ =~= hex_encode(next));
        }
        i += 1;
    }
    assert(bytes@.take(bytes@.len() as int) =~= bytes@);
    out
}

/// Tells whether `s` has the shape of a fingerprint.
pub fn has_digest_shape(s: &str) -> (ok: bool)
    ensures
        ok == is_hex_digest(s@),
{
    broadcast use is_ascii_spec_bytes;

    if !s.is_ascii() {
        proof {
            if is_hex_digest(s@) {
                lemma_hex_digest_is_ascii(s@);
            }
        }
        return false;
    }
    let bytes = s.as_bytes();
    assert(bytes@.len() == s@.len());
    if bytes.len() != DIGEST_HEX_LEN {
        return false;
    }
    let mut i: usize = 0;
    while i < bytes.len()
        invariant
            i <= bytes.len(),
            bytes@.len() == s@.len(),
            is_ascii(s),
            bytes@ == s.spec_bytes(),
            forall|k: int| 0 <= k < i ==> is_lower_hex(#[trigger] s@[k]),
        decreases bytes.len() - i,
    {
        let b = bytes[i];
        assert(b == s@[i as int] as u8);
        assert('\0' <= s@[i as int] <= '\u{7f}');
        let digit = 0x30 <= b && b <= 0x39;
        let letter = 0x61 <= b && b <= 0x66;
        if !(digit || letter) {
            assert(!is_lower_hex(s@[i as int]));
            return false;
        }
        assert(is_lower_hex(s@[i as int]));
        i += 1;
    }
    true
}

} // verus!
