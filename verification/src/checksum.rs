//! Streaming SHA-256 validation.  The digest itself comes from an outside
//! implementation; everything around it — hex handling, normalization,
//! the comparison — is verified.  The comparison scans the whole digest
//! without an early exit, so its running time does not depend on where a
//! mismatch sits.
use vstd::prelude::*;

use sha2::Digest;

use crate::chars::{chars_of, slice_eq};

verus! {

/// The SHA-256 digest of a byte sequence: 32 bytes, a function of the
/// input alone.
pub uninterp spec fn sha256_of(data: Seq<u8>) -> Seq<u8>;

/// Relies on sha2's `Sha256`: the digest of the input bytes, 32 bytes long,
/// depending on the input alone.
#[verifier::external_body]
fn sha256_digest(data: &[u8]) -> (r: Vec<u8>)
    ensures
        r@ == sha256_of(data@),
        r@.len() == 32,
{
    sha2::Sha256::digest(data).to_vec()
}

/// One lowercase hexadecimal digit for a value below sixteen.
pub open spec fn hex_digit(v: u8) -> char {
    if v == 0 {
        '0'
    } else if v == 1 {
        '1'
    } else if v == 2 {
        '2'
    } else if v == 3 {
        '3'
    } else if v == 4 {
        '4'
    } else if v == 5 {
        '5'
    } else if v == 6 {
        '6'
    } else if v == 7 {
        '7'
    } else if v == 8 {
        '8'
    } else if v == 9 {
        '9'
    } else if v == 10 {
        'a'
    } else if v == 11 {
        'b'
    } else if v == 12 {
        'c'
    } else if v == 13 {
        'd'
    } else if v == 14 {
        'e'
    } else {
        'f'
    }
}

/// The lowercase hexadecimal rendering of a byte sequence, two digits per
/// byte.
pub open spec fn hex_of(bs: Seq<u8>) -> Seq<char>
    decreases bs.len(),
{
    if bs.len() == 0 {
        Seq::<char>::empty()
    } else {
        seq![hex_digit(bs[0] / 16), hex_digit(bs[0] % 16)] + hex_of(bs.drop_first())
    }
}

/// Whether `c` is a lowercase hexadecimal digit.
pub open spec fn is_lower_hex(c: char) -> bool {
    ('0' <= c && c <= '9') || ('a' <= c && c <= 'f')
}

/// `c` with an uppercase hexadecimal letter lowered.
pub open spec fn lower_hex_char(c: char) -> char {
    if c == 'A' {
        'a'
    } else if c == 'B' {
        'b'
    } else if c == 'C' {
        'c'
    } else if c == 'D' {
        'd'
    } else if c == 'E' {
        'e'
    } else if c == 'F' {
        'f'
    } else {
        c
    }
}

/// A digest string lowered character by character.
pub open spec fn lower_hex(s: Seq<char>) -> Seq<char> {
    s.map_values(|c: char| lower_hex_char(c))
}

/// Whether `s` is a well-formed SHA-256 digest string: 64 hexadecimal
/// digits in either case.
pub open spec fn valid_sha256_hex(s: Seq<char>) -> bool {
    s.len() == 64 && forall|i: int| 0 <= i < s.len() ==> is_lower_hex(lower_hex_char(#[trigger] s[i]))
}

/// Render a digest in lowercase hexadecimal.
fn hex_encode(bs: &[u8]) -> (r: Vec<char>)
    ensures
        r@ == hex_of(bs@),
{
    let mut r: Vec<char> = Vec::new();
    let mut i: usize = 0;
    proof {
        assert(bs@.skip(0) =~= bs@);
    }
    while i < bs.len()
        invariant
            0 <= i <= bs@.len(),
            hex_of(bs@) == r@ + hex_of(bs@.skip(i as int)),
        decreases bs@.len() - i,
    {
        proof {
            assert(bs@.skip(i as int)[0] == bs@[i as int]);
            assert(bs@.skip(i as int).drop_first() =~= bs@.skip(i + 1));
        }
        let b = bs[i];
        let hi: u8 = b / 16;
        let lo: u8 = b % 16;
        r.push(hex_digit_exec(hi));
        r.push(hex_digit_exec(lo));
        proof {
            assert(r@ =~= (r@.drop_last().drop_last()) + seq![
                hex_digit(bs@[i as int] / 16),
                hex_digit(bs@[i as int] % 16),
            ]);
        }
        i += 1;
    }
    proof {
        assert(bs@.skip(bs@.len() as int) =~= Seq::<u8>::empty());
        assert(r@ =~= r@ + Seq::<char>::empty());
    }
    r
}

pub fn hex_digit_exec(v: u8) -> (r: char)
    requires
        v < 16,
    ensures
        r == hex_digit(v),
{
    if v == 0 {
        '0'
    } else if v == 1 {
        '1'
    } else if v == 2 {
        '2'
    } else if v == 3 {
        '3'
    } else if v == 4 {
        '4'
    } else if v == 5 {
        '5'
    } else if v == 6 {
        '6'
    } else if v == 7 {
        '7'
    } else if v == 8 {
        '8'
    } else if v == 9 {
        '9'
    } else if v == 10 {
        'a'
    } else if v == 11 {
        'b'
    } else if v == 12 {
        'c'
    } else if v == 13 {
        'd'
    } else if v == 14 {
        'e'
    } else {
        'f'
    }
}

/// A malformed expected digest.
#[derive(Debug)]
pub enum ChecksumError {
    BadDigest(String),
}

/// An expected SHA-256 digest, held in normalized lowercase form.
pub struct Checksum {
    pub expected: Vec<char>,
}

impl Checksum {
    /// Whether the stored digest is well formed.
    pub open spec fn wf(&self) -> bool {
        self.expected@.len() == 64 && forall|i: int|
            0 <= i < 64 ==> is_lower_hex(#[trigger] self.expected@[i])
    }

    /// Accept a digest string: exactly 64 hexadecimal digits, stored
    /// lowercase.  Anything else is a `BadDigest`.
    pub fn from_sha256_str(s: &str) -> (r: Result<Checksum, ChecksumError>)
        ensures
            match r {
                Ok(c) => valid_sha256_hex(s@) && c.wf() && c.expected@ == lower_hex(s@),
                Err(_) => !valid_sha256_hex(s@),
            },
    {
        let cs = chars_of(s);
        if cs.len() != 64 {
            return Err(ChecksumError::BadDigest(crate::chars::string_of(cs.as_slice())));
        }
        let mut out: Vec<char> = Vec::new();
        let mut i: usize = 0;
        while i < cs.len()
            invariant
                0 <= i <= cs@.len(),
                cs@ == s@,
                cs@.len() == 64,
                out@ == lower_hex(s@).take(i as int),
                forall|k: int| 0 <= k < i ==> is_lower_hex(#[trigger] out@[k]),
            decreases cs@.len() - i,
        {
            let c = cs[i];
            let lc: char = if c == 'A' {
                'a'
            } else if c == 'B' {
                'b'
            } else if c == 'C' {
                'c'
            } else if c == 'D' {
                'd'
            } else if c == 'E' {
                'e'
            } else if c == 'F' {
                'f'
            } else {
                c
            };
            assert(lc == lower_hex_char(s@[i as int]));
            if !(('0' <= lc && lc <= '9') || ('a' <= lc && lc <= 'f')) {
                assert(!is_lower_hex(lower_hex_char(s@[i as int])));
                return Err(ChecksumError::BadDigest(crate::chars::string_of(cs.as_slice())));
            }
            out.push(lc);
            assert(out@ =~= lower_hex(s@).take(i + 1));
            i += 1;
        }
        proof {
            assert(out@ =~= lower_hex(s@));
            assert forall|k: int| 0 <= k < 64 implies is_lower_hex(lower_hex_char(
                #[trigger] s@[k],
            )) by {
                assert(is_lower_hex(out@[k]));
                assert(out@[k] == lower_hex_char(s@[k]));
            }
        }
        Ok(Checksum { expected: out })
    }

    /// Start a streaming validation against this digest.
    pub fn get_validator(self) -> (r: ChecksumValidator)
        ensures
            r.expected@ == self.expected@,
            r.fed@ == Seq::<u8>::empty(),
    {
        ChecksumValidator { expected: self.expected, fed: Vec::new() }
    }
}

/// A streaming validator: bytes are fed in chunks, and at the end the
/// digest of everything fed is compared against the expected one.
pub struct ChecksumValidator {
    pub expected: Vec<char>,
    pub fed: Vec<u8>,
}

impl ChecksumValidator {
    /// Feed one chunk.
    pub fn update(&mut self, data: &[u8])
        ensures
            final(self).expected@ == old(self).expected@,
            final(self).fed@ == old(self).fed@ + data@,
    {
        let mut i: usize = 0;
        let ghost base = self.fed@;
        while i < data.len()
            invariant
                0 <= i <= data@.len(),
                self.fed@ == base + data@.take(i as int),
                self.expected@ == old(self).expected@,
            decreases data@.len() - i,
        {
            self.fed.push(data[i]);
            assert(self.fed@ =~= base + data@.take(i + 1));
            i += 1;
        }
        assert(self.fed@ =~= base + data@);
    }

    /// Whether the digest of everything fed matches the expected digest.
    /// The comparison scans all 64 digits unconditionally.
    pub fn finish(&self) -> (r: bool)
        ensures
            r == (hex_of(sha256_of(self.fed@)) == self.expected@),
    {
        let digest = sha256_digest(self.fed.as_slice());
        let hex = hex_encode(digest.as_slice());
        slice_eq(hex.as_slice(), self.expected.as_slice())
    }
}

/// One-shot verification of a buffer against a digest string.  `Err` if
/// and only if the digest string is malformed; otherwise whether the
/// buffer's digest matches.
pub fn verify_checksum(data: &[u8], expected: &str) -> (r: Result<bool, ChecksumError>)
    ensures
        match r {
            Ok(b) => valid_sha256_hex(expected@) && b == (hex_of(sha256_of(data@)) == lower_hex(
                expected@,
            )),
            Err(_) => !valid_sha256_hex(expected@),
        },
{
    let c = Checksum::from_sha256_str(expected)?;
    let mut v = c.get_validator();
    v.update(data);
    assert(v.fed@ =~= data@);
    Ok(v.finish())
}

} // verus!
