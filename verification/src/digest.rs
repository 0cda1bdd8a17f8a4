//! SHA-1 content hashing and hash rendering for cache entries.
//!
//! Every cache entry is identified by a 20-byte SHA-1 digest. The digest
//! itself comes from the `sha1` crate; this module names its result so
//! that contracts elsewhere can speak about it exactly.

use vstd::prelude::*;

use sha1::Digest;

verus! {

/// Length in bytes of a SHA-1 digest, and so of every entry hash.
pub const HASH_SIZE: usize = 20;

/// The SHA-1 digest of `data`: a 20-byte value determined by the input
/// bytes alone.
pub uninterp spec fn sha1_of(data: Seq<u8>) -> Seq<u8>;

/// The SHA-1 digest of the empty byte string, written out. The Legacy
/// edition appends these 20 bytes to an entry's payload before hashing.
pub open spec fn sha1_empty() -> Seq<u8> {
    seq![
        0xda, 0x39, 0xa3, 0xee, 0x5e, 0x6b, 0x4b, 0x0d, 0x32, 0x55,
        0xbf, 0xef, 0x95, 0x60, 0x18, 0x90, 0xaf, 0xd8, 0x07, 0x09,
    ]
}

/// Builds the 20 bytes of [`sha1_empty`] at run time.
pub fn sha1_empty_bytes() -> (r: Vec<u8>)
    ensures
        r@ == sha1_empty(),
{
    let mut r: Vec<u8> = Vec::new();
    r.push(0xda);
    r.push(0x39);
    r.push(0xa3);
    r.push(0xee);
    r.push(0x5e);
    r.push(0x6b);
    r.push(0x4b);
    r.push(0x0d);
    r.push(0x32);
    r.push(0x55);
    r.push(0xbf);
    r.push(0xef);
    r.push(0x95);
    r.push(0x60);
    r.push(0x18);
    r.push(0x90);
    r.push(0xaf);
    r.push(0xd8);
    r.push(0x07);
    r.push(0x09);
    proof {
        assert(r@ =~= sha1_empty());
    }
    r
}

/// Relies on `sha1::Sha1` (via the `Digest` trait): computes the SHA-1
/// digest of `data`, which is 20 bytes long and depends on the input
/// bytes alone.
#[verifier::external_body]
pub(crate) fn sha1_digest(data: &Vec<u8>) -> (r: Vec<u8>)
    ensures
        r@ == sha1_of(data@),
        r@.len() == HASH_SIZE,
{
    let mut hasher = sha1::Sha1::new();
    hasher.update(data.as_slice());
    hasher.finalize().to_vec()
}

/// The lowercase hexadecimal character for the nibble `n`.
pub open spec fn hex_digit(n: int) -> char {
    if n == 0 {
        '0'
    } else if n == 1 {
        '1'
    } else if n == 2 {
        '2'
    } else if n == 3 {
        '3'
    } else if n == 4 {
        '4'
    } else if n == 5 {
        '5'
    } else if n == 6 {
        '6'
    } else if n == 7 {
        '7'
    } else if n == 8 {
        '8'
    } else if n == 9 {
        '9'
    } else if n == 10 {
        'a'
    } else if n == 11 {
        'b'
    } else if n == 12 {
        'c'
    } else if n == 13 {
        'd'
    } else if n == 14 {
        'e'
    } else {
        'f'
    }
}

/// The lowercase hexadecimal rendering of `h`: two characters per byte,
/// most significant nibble first, no separators.
pub open spec fn hex_of_bytes(h: Seq<u8>) -> Seq<char>
    decreases h.len(),
{
    if h.len() == 0 {
        Seq::empty()
    } else {
        seq![hex_digit(h[0] as int / 16), hex_digit(h[0] as int % 16)] + hex_of_bytes(h.skip(1))
    }
}

/// Rendering the bytes of `h` and then one more byte appends that byte's
/// two characters.
pub proof fn lemma_hex_of_bytes_push(h: Seq<u8>, b: u8)
    ensures
        hex_of_bytes(h.push(b)) == hex_of_bytes(h) + seq![
            hex_digit(b as int / 16),
            hex_digit(b as int % 16),
        ],
    decreases h.len(),
{
    let hd = hex_digit(b as int / 16);
    let ld = hex_digit(b as int % 16);
    if h.len() == 0 {
        assert(h.push(b)[0] == b);
        assert(h.push(b).skip(1) =~= Seq::<u8>::empty());
        assert(hex_of_bytes(h.push(b).skip(1)) == Seq::<char>::empty());
        assert(hex_of_bytes(h) == Seq::<char>::empty());
        assert(hex_of_bytes(h.push(b)) == seq![hd, ld] + hex_of_bytes(h.push(b).skip(1)));
        assert(hex_of_bytes(h.push(b)) =~= hex_of_bytes(h) + seq![hd, ld]);
    } else {
        assert(h.push(b)[0] == h[0]);
        assert(h.push(b).skip(1) =~= h.skip(1).push(b));
        lemma_hex_of_bytes_push(h.skip(1), b);
        assert(hex_of_bytes(h.push(b)) == seq![
            hex_digit(h[0] as int / 16),
            hex_digit(h[0] as int % 16),
        ] + hex_of_bytes(h.skip(1).push(b)));
        assert(hex_of_bytes(h.push(b)) =~= hex_of_bytes(h) + seq![hd, ld]);
    }
}

/// Returns the one-character string for the nibble `n`.
fn hex_digit_str(n: u8) -> (s: &'static str)
    requires
        n < 16,
    ensures
        s@ == seq![hex_digit(n as int)],
{
    proof {
        reveal_strlit("0");
        reveal_strlit("1");
        reveal_strlit("2");
        reveal_strlit("3");
        reveal_strlit("4");
        reveal_strlit("5");
        reveal_strlit("6");
        reveal_strlit("7");
        reveal_strlit("8");
        reveal_strlit("9");
        reveal_strlit("a");
        reveal_strlit("b");
        reveal_strlit("c");
        reveal_strlit("d");
        reveal_strlit("e");
        reveal_strlit("f");
    }
    match n {
        0 => "0",
        1 => "1",
        2 => "2",
        3 => "3",
        4 => "4",
        5 => "5",
        6 => "6",
        7 => "7",
        8 => "8",
        9 => "9",
        10 => "a",
        11 => "b",
        12 => "c",
        13 => "d",
        14 => "e",
        _ => "f",
    }
}

/// A 20-byte hash held for rendering as text.
pub struct HashDisplay(pub Vec<u8>);

impl HashDisplay {
    /// Renders the hash as lowercase hexadecimal, two characters per
    /// byte, most significant nibble first.
    pub fn hex(&self) -> (s: String)
        ensures
            s@ == hex_of_bytes(self.0@),
    {
        let mut s = String::new();
        let mut i: usize = 0;
        while i < self.0.len()
            invariant
                i <= self.0@.len(),
                s@ == hex_of_bytes(self.0@.subrange(0, i as int)),
            decreases self.0@.len() - i,
        {
            let b = self.0[i];
            s.append(hex_digit_str(b / 16));
            s.append(hex_digit_str(b % 16));
            i = i + 1;
            proof {
                let pre = self.0@.subrange(0, i as int - 1);
                lemma_hex_of_bytes_push(pre, self.0@[i - 1]);
                assert(pre.push(self.0@[i - 1]) =~= self.0@.subrange(0, i as int));
                assert(s@ =~= hex_of_bytes(self.0@.subrange(0, i as int)));
            }
        }
        proof {
            assert(self.0@.subrange(0, self.0@.len() as int) =~= self.0@);
        }
        s
    }
}

} // verus!
