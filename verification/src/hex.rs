//! Lowercase hexadecimal text and SHA-256 digests.
use sha2::Digest;
use vstd::prelude::*;

verus! {

/// What `sha2::Sha256::digest` computes from a sequence of bytes.
pub uninterp spec fn sha256_of(bytes: Seq<u8>) -> Seq<u8>;

/// `sha2::Sha256::digest`. The result is the named digest, 32 bytes long.
#[verifier::external_body]
pub(crate) fn sha256(bytes: &[u8]) -> (r: Vec<u8>)
    ensures
        r@ == sha256_of(bytes@),
        r@.len() == 32,
{
    sha2::Sha256::digest(bytes).to_vec()
}

/// The hexadecimal digit for a value below 16.
pub open spec fn digit(n: int) -> char {
    if n < 10 {
        (48 + n) as char
    } else {
        (87 + n) as char
    }
}

/// Two hexadecimal digits per byte, the high half first.
pub open spec fn hex_of(bytes: Seq<u8>) -> Seq<char> {
    Seq::new(
        2 * bytes.len(),
        |i: int|
            if i % 2 == 0 {
                digit(bytes[i / 2] as int / 16)
            } else {
                digit(bytes[i / 2] as int % 16)
            },
    )
}

/// The hexadecimal digit for a value below 16.
pub fn hex_digit(n: u8) -> (r: char)
    requires
        n < 16,
    ensures
        r == digit(n as int),
{
    if n < 10 {
        (48 + n) as char
    } else {
        (87 + n) as char
    }
}

/// Two hexadecimal digits per byte, the high half first.
pub fn encode(bytes: &[u8]) -> (r: String)
    ensures
        r@ == hex_of(bytes@),
{
    let mut out = String::new();
    let mut i: usize = 0;
    while i < bytes.len()
        invariant
            i <= bytes@.len(),
            out@ == hex_of(bytes@).take(2 * i),
        decreases bytes@.len() - i,
    {
        let b: u8 = bytes[i];
        out.push(hex_digit(b / 16));
        out.push(hex_digit(b % 16));
        proof {
            let h = hex_of(bytes@);
            assert(h[2 * i] == digit(b as int / 16));
            assert(h[2 * i + 1] == digit(b as int % 16));
            assert(h.take(2 * (i + 1)) =~= h.take(2 * i).push(h[2 * i]).push(h[2 * i + 1]));
        }
        i += 1;
    }
    proof {
        assert(hex_of(bytes@).take(2 * bytes@.len() as int) =~= hex_of(bytes@));
    }
    out
}

/// Different byte sequences have different hexadecimal texts.
pub proof fn law_hex_is_injective(a: Seq<u8>, b: Seq<u8>)
    requires
        hex_of(a) == hex_of(b),
    ensures
        a == b,
{
    assert(hex_of(a).len() == 2 * a.len() && hex_of(b).len() == 2 * b.len());
    assert forall|i: int| 0 <= i < a.len() implies a[i] == b[i] by {
        assert(hex_of(a)[2 * i] == hex_of(b)[2 * i]);
        assert(hex_of(a)[2 * i + 1] == hex_of(b)[2 * i + 1]);
        assert((2 * i) / 2 == i && (2 * i + 1) / 2 == i);
        assert((2 * i) % 2 == 0 && (2 * i + 1) % 2 == 1);
        let (x, y) = (a[i] as int, b[i] as int);
        assert(hex_of(a)[2 * i] == digit(x / 16) && hex_of(a)[2 * i + 1] == digit(x % 16));
        assert(hex_of(b)[2 * i] == digit(y / 16) && hex_of(b)[2 * i + 1] == digit(y % 16));
        assert(x / 16 == y / 16 && x % 16 == y % 16);
    }
    assert(a =~= b);
}

/// Each byte is written in two lowercase digits, the high half first.
pub proof fn law_bytes_are_written_in_lowercase_digits(bytes: Seq<u8>, i: int)
    requires
        0 <= i < bytes.len(),
    ensures
        hex_of(bytes).len() == 2 * bytes.len(),
        ({
            let value = |c: char|
                if '0' <= c <= '9' {
                    c as int - '0' as int
                } else {
                    c as int - 'a' as int + 10
                };
            let (h, l) = (hex_of(bytes)[2 * i], hex_of(bytes)[2 * i + 1]);
            &&& '0' <= h <= '9' || 'a' <= h <= 'f'
            &&& '0' <= l <= '9' || 'a' <= l <= 'f'
            &&& bytes[i] == 16 * value(h) + value(l)
        }),
{
    assert((2 * i) / 2 == i && (2 * i + 1) / 2 == i);
    assert((2 * i) % 2 == 0 && (2 * i + 1) % 2 == 1);
    let b = bytes[i] as int;
    assert(0 <= b / 16 < 16 && 0 <= b % 16 < 16 && b == 16 * (b / 16) + b % 16);
}

} // verus!
