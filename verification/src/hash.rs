//! Content fingerprints and their canonical textual form.
//!
//! A hash identifies a configuration source's content. It is compared for
//! equality only, and travels between shell invocations as exactly sixteen
//! hexadecimal digits. The all-zero value is reserved: it stands for "no
//! shadow state" in the opaque state string.

use vstd::prelude::*;

verus! {

/// A fixed-width content fingerprint, compared for equality only.
#[derive(Clone, Copy, PartialEq, Eq, Structural, Debug)]
pub struct Hash {
    pub hash: u64,
}

/// A discovered configuration source, reduced to what the activation engine
/// reads of it: the content fingerprint that the caller computed when it
/// discovered and read the configuration files.
#[derive(Clone, Copy, PartialEq, Eq, Structural, Debug)]
pub struct Source {
    pub hash: u64,
}

impl Source {
    /// The fingerprint of this source's content.
    pub fn hash(&self) -> (h: u64)
        ensures
            h == self.hash,
    {
        self.hash
    }
}

impl Hash {
    /// Reads a hash from its canonical textual form: exactly sixteen
    /// hexadecimal digits.
    pub fn from_hex(s: &str) -> (r: Option<Hash>)
        ensures
            match r {
                Some(h) => spec_parse_hash_hex(s@) == Some(h.hash),
                None => spec_parse_hash_hex(s@) is None,
            },
    {
        match parse_hash_hex(s) {
            Some(h) => Some(Hash { hash: h }),
            None => None,
        }
    }

    /// Renders this hash in its canonical textual form.
    pub fn to_hex(&self) -> (r: String)
        ensures
            r@ == spec_hash_hex(self.hash),
    {
        hash_to_hex(self.hash)
    }
}

/// The 64-bit FNV-1a fingerprint of a byte sequence.
pub open spec fn spec_fingerprint(bytes: Seq<u8>) -> u64
    decreases bytes.len(),
{
    if bytes.len() == 0 {
        0xcbf2_9ce4_8422_2325u64
    } else {
        vstd::wrapping::u64_specs::wrapping_mul(
            spec_fingerprint(bytes.drop_last()) ^ (bytes.last() as u64),
            0x100_0000_01b3,
        )
    }
}

/// The content fingerprint of a configuration source's bytes.
pub fn fingerprint(bytes: &[u8]) -> (r: u64)
    ensures
        r == spec_fingerprint(bytes@),
{
    let n = bytes.len();
    let mut h: u64 = 0xcbf2_9ce4_8422_2325;
    let mut i: usize = 0;
    while i < n
        invariant
            i <= n,
            n == bytes@.len(),
            h == spec_fingerprint(bytes@.subrange(0, i as int)),
        decreases n - i,
    {
        let b = bytes[i];
        h = (h ^ (b as u64)).wrapping_mul(0x100_0000_01b3);
        proof {
            assert(bytes@.subrange(0, i as int + 1).drop_last() =~= bytes@.subrange(0, i as int));
            assert(bytes@.subrange(0, i as int + 1).last() == bytes@[i as int]);
        }
        i = i + 1;
    }
    proof {
        assert(bytes@.subrange(0, n as int) =~= bytes@);
    }
    h
}

/// The character standing for one hexadecimal digit value.
pub open spec fn hex_char_of(n: int) -> char {
    if n == 0 {
        '0'
    } else if n == 1 {
        '1'
    } else if n == 2 {
        '2'
    } else if n == 3 {
        '3'
    } else if n == 4 {
        '4'
    } else if n == 5 {
        '5'
    } else if n == 6 {
        '6'
    } else if n == 7 {
        '7'
    } else if n == 8 {
        '8'
    } else if n == 9 {
        '9'
    } else if n == 10 {
        'a'
    } else if n == 11 {
        'b'
    } else if n == 12 {
        'c'
    } else if n == 13 {
        'd'
    } else if n == 14 {
        'e'
    } else {
        'f'
    }
}

/// The value of a hexadecimal digit character, or -1 for any other character.
pub open spec fn hex_val_of(c: char) -> int {
    if c == '0' {
        0
    } else if c == '1' {
        1
    } else if c == '2' {
        2
    } else if c == '3' {
        3
    } else if c == '4' {
        4
    } else if c == '5' {
        5
    } else if c == '6' {
        6
    } else if c == '7' {
        7
    } else if c == '8' {
        8
    } else if c == '9' {
        9
    } else if c == 'a' || c == 'A' {
        10
    } else if c == 'b' || c == 'B' {
        11
    } else if c == 'c' || c == 'C' {
        12
    } else if c == 'd' || c == 'D' {
        13
    } else if c == 'e' || c == 'E' {
        14
    } else if c == 'f' || c == 'F' {
        15
    } else {
        -1
    }
}

pub open spec fn is_hex_char(c: char) -> bool {
    hex_val_of(c) >= 0
}

/// 16 to the power `k`.
pub open spec fn pow16(k: nat) -> int
    decreases k,
{
    if k == 0 {
        1
    } else {
        16 * pow16((k - 1) as nat)
    }
}

/// The last `k` hexadecimal digits of `n`, most significant first.
pub open spec fn spec_hex_digits(n: int, k: nat) -> Seq<char>
    decreases k,
{
    if k == 0 {
        Seq::empty()
    } else {
        spec_hex_digits(n / 16, (k - 1) as nat).push(hex_char_of(n % 16))
    }
}

/// The canonical sixteen-digit textual form of a hash value.
pub open spec fn spec_hash_hex(h: u64) -> Seq<char> {
    spec_hex_digits(h as int, 16)
}

/// The numeric value of a digit string, most significant digit first.
pub open spec fn spec_hex_val(s: Seq<char>) -> int
    decreases s.len(),
{
    if s.len() == 0 {
        0
    } else {
        spec_hex_val(s.drop_last()) * 16 + hex_val_of(s.last())
    }
}

pub open spec fn all_hex(s: Seq<char>) -> bool {
    forall|i: int| 0 <= i < s.len() ==> is_hex_char(s[i])
}

/// Parsing of the canonical textual form: exactly sixteen hexadecimal
/// digits, or nothing.
pub open spec fn spec_parse_hash_hex(s: Seq<char>) -> Option<u64> {
    if s.len() == 16 && all_hex(s) {
        Some(spec_hex_val(s) as u64)
    } else {
        None
    }
}

pub proof fn lemma_pow16_pos(k: nat)
    ensures
        pow16(k) >= 1,
    decreases k,
{
    if k > 0 {
        lemma_pow16_pos((k - 1) as nat);
    }
}

pub proof fn lemma_pow16_le(a: nat, b: nat)
    requires
        a <= b,
    ensures
        pow16(a) <= pow16(b),
    decreases b,
{
    if a < b {
        lemma_pow16_le(a, (b - 1) as nat);
        lemma_pow16_pos((b - 1) as nat);
    }
}

pub proof fn lemma_pow16_16()
    ensures
        pow16(16) == 0x1_0000_0000_0000_0000,
{
    reveal_with_fuel(pow16, 17);
}

pub proof fn lemma_hex_digits_len(n: int, k: nat)
    ensures
        spec_hex_digits(n, k).len() == k,
    decreases k,
{
    if k > 0 {
        lemma_hex_digits_len(n / 16, (k - 1) as nat);
    }
}

pub proof fn lemma_hex_digits_hex(n: int, k: nat)
    requires
        n >= 0,
    ensures
        all_hex(spec_hex_digits(n, k)),
    decreases k,
{
    if k > 0 {
        lemma_hex_digits_hex(n / 16, (k - 1) as nat);
        let prefix = spec_hex_digits(n / 16, (k - 1) as nat);
        let whole = spec_hex_digits(n, k);
        assert forall|i: int| 0 <= i < whole.len() implies is_hex_char(whole[i]) by {
            lemma_hex_digits_len(n / 16, (k - 1) as nat);
            if i < prefix.len() {
                assert(whole[i] == prefix[i]);
            } else {
                assert(whole[i] == hex_char_of(n % 16));
            }
        }
    }
}

/// Formatting then reading back a digit string returns the value it was
/// built from, as long as the value fits in the requested width.
pub proof fn lemma_hex_val_of_digits(n: int, k: nat)
    requires
        0 <= n < pow16(k),
    ensures
        spec_hex_val(spec_hex_digits(n, k)) == n,
    decreases k,
{
    if k == 0 {
        assert(n == 0);
    } else {
        let q = n / 16;
        let r = n % 16;
        vstd::arithmetic::div_mod::lemma_fundamental_div_mod(n, 16);
        assert(q < pow16((k - 1) as nat)) by (nonlinear_arith)
            requires
                n < 16 * pow16((k - 1) as nat),
                n >= 0,
                q == n / 16,
        ;
        lemma_hex_val_of_digits(q, (k - 1) as nat);
        let prefix = spec_hex_digits(q, (k - 1) as nat);
        let whole = spec_hex_digits(n, k);
        assert(whole.drop_last() =~= prefix);
        assert(whole.last() == hex_char_of(r));
        assert(hex_val_of(hex_char_of(r)) == r);
    }
}

/// The canonical textual form of a hash value parses back to that value.
pub proof fn lemma_hash_hex_round_trip(h: u64)
    ensures
        spec_parse_hash_hex(spec_hash_hex(h)) == Some(h),
{
    lemma_pow16_16();
    lemma_hex_digits_len(h as int, 16);
    lemma_hex_digits_hex(h as int, 16);
    lemma_hex_val_of_digits(h as int, 16);
}

/// The character for a digit value.
pub fn hex_digit_char(n: u64) -> (c: char)
    requires
        n < 16,
    ensures
        c == hex_char_of(n as int),
{
    if n == 0 {
        '0'
    } else if n == 1 {
        '1'
    } else if n == 2 {
        '2'
    } else if n == 3 {
        '3'
    } else if n == 4 {
        '4'
    } else if n == 5 {
        '5'
    } else if n == 6 {
        '6'
    } else if n == 7 {
        '7'
    } else if n == 8 {
        '8'
    } else if n == 9 {
        '9'
    } else if n == 10 {
        'a'
    } else if n == 11 {
        'b'
    } else if n == 12 {
        'c'
    } else if n == 13 {
        'd'
    } else if n == 14 {
        'e'
    } else {
        'f'
    }
}

/// The value of a hexadecimal digit character.
pub fn hex_digit_val(c: char) -> (r: Option<u64>)
    ensures
        r is Some <==> is_hex_char(c),
        r is Some ==> r->Some_0 as int == hex_val_of(c) && r->Some_0 < 16,
{
    if c == '0' {
        Some(0)
    } else if c == '1' {
        Some(1)
    } else if c == '2' {
        Some(2)
    } else if c == '3' {
        Some(3)
    } else if c == '4' {
        Some(4)
    } else if c == '5' {
        Some(5)
    } else if c == '6' {
        Some(6)
    } else if c == '7' {
        Some(7)
    } else if c == '8' {
        Some(8)
    } else if c == '9' {
        Some(9)
    } else if c == 'a' || c == 'A' {
        Some(10)
    } else if c == 'b' || c == 'B' {
        Some(11)
    } else if c == 'c' || c == 'C' {
        Some(12)
    } else if c == 'd' || c == 'D' {
        Some(13)
    } else if c == 'e' || c == 'E' {
        Some(14)
    } else if c == 'f' || c == 'F' {
        Some(15)
    } else {
        None
    }
}

/// Renders a hash value in its canonical sixteen-digit form.
pub fn hash_to_hex(h: u64) -> (r: String)
    ensures
        r@ == spec_hash_hex(h),
{
    let mut n: u64 = h;
    let mut digits: Vec<char> = Vec::new();
    let mut k: usize = 0;
    while k < 16
        invariant
            k <= 16,
            digits@.len() == k,
            spec_hex_digits(h as int, 16) == spec_hex_digits(n as int, (16 - k) as nat) + digits@,
        decreases 16 - k,
    {
        let d = hex_digit_char(n % 16);
        proof {
            let rest = (16 - k) as nat;
            assert(spec_hex_digits(n as int, rest) == spec_hex_digits(
                n as int / 16,
                (rest - 1) as nat,
            ).push(hex_char_of(n as int % 16)));
            assert(spec_hex_digits(n as int / 16, (rest - 1) as nat).push(d) + digits@
                =~= spec_hex_digits(n as int / 16, (rest - 1) as nat) + digits@.insert(0, d));
        }
        digits.insert(0, d);
        n = n / 16;
        k = k + 1;
    }
    proof {
        assert(spec_hex_digits(n as int, 0) + digits@ =~= digits@);
    }
    let mut r = String::new();
    let mut i: usize = 0;
    while i < 16
        invariant
            i <= 16,
            digits@.len() == 16,
            digits@ == spec_hash_hex(h),
            r@ == digits@.subrange(0, i as int),
        decreases 16 - i,
    {
        crate::strutil::push_char(&mut r, digits[i]);
        proof {
            assert(digits@.subrange(0, i as int).push(digits@[i as int]) =~= digits@.subrange(
                0,
                i as int + 1,
            ));
        }
        i = i + 1;
    }
    proof {
        assert(digits@.subrange(0, 16) =~= digits@);
    }
    r
}

/// Reads a hash value from its canonical sixteen-digit form.
pub fn parse_hash_hex(s: &str) -> (r: Option<u64>)
    ensures
        r == spec_parse_hash_hex(s@),
{
    let len = s.unicode_len();
    if len != 16 {
        return None;
    }
    let mut acc: u64 = 0;
    let mut i: usize = 0;
    while i < 16
        invariant
            i <= 16,
            s@.len() == 16,
            forall|j: int| 0 <= j < i ==> is_hex_char(s@[j]),
            acc as int == spec_hex_val(s@.subrange(0, i as int)),
            (acc as int) < pow16(i as nat),
        decreases 16 - i,
    {
        let c = s.get_char(i);
        match hex_digit_val(c) {
            None => {
                return None;
            },
            Some(d) => {
                proof {
                    lemma_pow16_le((i + 1) as nat, 16);
                    lemma_pow16_16();
                    assert(pow16((i + 1) as nat) == 16 * pow16(i as nat));
                    assert(s@.subrange(0, i as int + 1).drop_last() =~= s@.subrange(0, i as int));
                    assert(s@.subrange(0, i as int + 1).last() == s@[i as int]);
                }
                acc = acc * 16 + d;
            },
        }
        i = i + 1;
    }
    proof {
        assert(s@.subrange(0, 16) =~= s@);
        lemma_pow16_16();
    }
    Some(acc)
}

} // verus!
