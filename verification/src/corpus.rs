//! The seed corpus of each contract target: the inputs that the fuzzer starts
//! from, and the names of the files that hold them. The directories and files
//! themselves are written outside this library.

use vstd::prelude::*;

use crate::text::{decimal, digit_char, push_decimal, zero_padded};

verus! {

pub struct CorpusManager {
    base_dir: String,
}

/// The `n` bytes of `x` from the least significant up, as `to_le_bytes` gives
/// them for a value of `n` bytes.
pub open spec fn le_bytes(x: nat, n: nat) -> Seq<u8>
    decreases n,
{
    if n == 0 {
        seq![]
    } else {
        seq![(x % 256) as u8] + le_bytes(x / 256, (n - 1) as nat)
    }
}

/// The number that little-endian bytes stand for.
pub open spec fn le_value(b: Seq<u8>) -> nat
    decreases b.len(),
{
    if b.len() == 0 {
        0
    } else {
        b[0] as nat + 256 * le_value(b.drop_first())
    }
}

/// `256` to the power `n`.
pub open spec fn pow256(n: nat) -> nat
    decreases n,
{
    if n == 0 {
        1
    } else {
        256 * pow256((n - 1) as nat)
    }
}

/// The two's complement bits of `v`, read as an unsigned number.
pub open spec fn unsigned_bits(v: i128) -> nat {
    if v >= 0 {
        v as nat
    } else {
        (v + 0x1_0000_0000_0000_0000_0000_0000_0000_0000int) as nat
    }
}

/// Little-endian bytes give back the number they were made from, up to their width.
pub proof fn lemma_le_bytes_value(x: nat, n: nat)
    ensures
        le_bytes(x, n).len() == n,
        le_value(le_bytes(x, n)) == x % pow256(n),
    decreases n,
{
    if n > 0 {
        lemma_le_bytes_value(x / 256, (n - 1) as nat);
        let b = le_bytes(x, n);
        assert(b.drop_first() =~= le_bytes(x / 256, (n - 1) as nat));
        assert(pow256((n - 1) as nat) > 0) by {
            lemma_pow256_positive((n - 1) as nat);
        }
        vstd::arithmetic::div_mod::lemma_mod_breakdown(x as int, 256, pow256((n - 1) as nat) as int);
    }
}

proof fn lemma_pow256_positive(n: nat)
    ensures
        pow256(n) > 0,
    decreases n,
{
    if n > 0 {
        lemma_pow256_positive((n - 1) as nat);
    }
}

proof fn lemma_pow256_16()
    ensures
        pow256(16) == 0x1_0000_0000_0000_0000_0000_0000_0000_0000int,
{
    reveal_with_fuel(pow256, 17);
}

/// The little-endian bytes of `v` (as `i128::to_le_bytes`).
pub fn i128_le_bytes(v: i128) -> (b: Vec<u8>)
    ensures
        b@ == le_bytes(unsigned_bits(v), 16),
{
    let bits: u128 = if v >= 0 {
        v as u128
    } else {
        let shifted: i128 = v + i128::MAX + 1;
        shifted as u128 + 0x8000_0000_0000_0000_0000_0000_0000_0000u128
    };
    assert(bits == unsigned_bits(v));
    let mut x: u128 = bits;
    let mut b: Vec<u8> = Vec::new();
    let mut k: usize = 0;
    while k < 16
        invariant
            k <= 16,
            le_bytes(bits as nat, 16) == b@ + le_bytes(x as nat, (16 - k) as nat),
        decreases 16 - k,
    {
        let ghost old_b = b@;
        b.push((x % 256) as u8);
        proof {
            assert(le_bytes(x as nat, (16 - k) as nat) == seq![(x % 256) as u8] + le_bytes(
                (x / 256) as nat,
                (16 - k - 1) as nat,
            ));
            assert(b@ + le_bytes((x / 256) as nat, (16 - k - 1) as nat) =~= old_b + le_bytes(
                x as nat,
                (16 - k) as nat,
            ));
        }
        x = x / 256;
        k = k + 1;
    }
    proof {
        assert(b@ + le_bytes(x as nat, 0) =~= b@);
    }
    b
}

/// The value of a decimal digit character.
pub open spec fn digit_value(c: char) -> int {
    (c as u32) - ('0' as u32)
}

/// The number that a string of decimal digits stands for; leading zeros
/// change nothing.
pub open spec fn numeral_value(s: Seq<char>) -> int
    decreases s.len(),
{
    if s.len() == 0 {
        0
    } else {
        10 * numeral_value(s.drop_last()) + digit_value(s.last())
    }
}

proof fn lemma_digit_value(d: int)
    requires
        0 <= d < 10,
    ensures
        digit_value(digit_char(d)) == d,
{
}

/// A decimal numeral stands for the number it was made from.
pub proof fn lemma_decimal_value(n: nat)
    ensures
        numeral_value(decimal(n)) == n,
    decreases n,
{
    let d = decimal(n);
    if n < 10 {
        lemma_digit_value(n as int);
        assert(d.drop_last() =~= Seq::<char>::empty());
        assert(numeral_value(d) == 10 * numeral_value(d.drop_last()) + digit_value(d.last()));
    } else {
        lemma_decimal_value(n / 10);
        lemma_digit_value((n % 10) as int);
        assert(d.drop_last() =~= decimal(n / 10));
        assert(d.last() == digit_char((n % 10) as int));
        assert(numeral_value(d) == 10 * numeral_value(d.drop_last()) + digit_value(d.last()));
        assert(n == 10 * (n / 10) + n % 10) by (nonlinear_arith);
    }
}

proof fn lemma_zeros_value(k: nat, s: Seq<char>)
    ensures
        numeral_value(Seq::new(k, |i: int| '0') + s) == numeral_value(s),
    decreases s.len(), k,
{
    let z = Seq::new(k, |i: int| '0');
    if s.len() == 0 {
        assert(z + s =~= z);
        if k > 0 {
            lemma_zeros_value((k - 1) as nat, s);
            assert(z.drop_last() =~= Seq::new((k - 1) as nat, |i: int| '0') + s);
            lemma_digit_value(0);
        }
    } else {
        lemma_zeros_value(k, s.drop_last());
        assert((z + s).drop_last() =~= z + s.drop_last());
        assert((z + s).last() == s.last());
    }
}

/// A zero-padded numeral stands for the number it was made from.
pub proof fn lemma_zero_padded_value(n: nat, width: nat)
    ensures
        numeral_value(zero_padded(n, width)) == n,
{
    lemma_decimal_value(n);
    let d = decimal(n);
    if d.len() < width {
        lemma_zeros_value((width - d.len()) as nat, d);
    }
}

/// Seed files of one corpus never share a name: distinct indices give
/// distinct file names, so that no seed overwrites another.
pub proof fn lemma_seed_file_names_distinct(i: nat, j: nat)
    requires
        i != j,
    ensures
        "seed_"@ + zero_padded(i, 4) != "seed_"@ + zero_padded(j, 4),
{
    let p = "seed_"@;
    if p + zero_padded(i, 4) == p + zero_padded(j, 4) {
        assert((p + zero_padded(i, 4)).skip(p.len() as int) =~= zero_padded(i, 4));
        assert((p + zero_padded(j, 4)).skip(p.len() as int) =~= zero_padded(j, 4));
        lemma_zero_padded_value(i, 4);
        lemma_zero_padded_value(j, 4);
    }
}

impl CorpusManager {
    /// The directory under which each contract target has its corpus directory.
    pub closed spec fn spec_base_dir(&self) -> Seq<char> {
        self.base_dir@
    }

    pub fn new(base_dir: String) -> (m: CorpusManager)
        ensures
            m.spec_base_dir() == base_dir@,
    {
        CorpusManager { base_dir }
    }

    /// The directory under which each contract target has its corpus directory.
    pub fn base_dir(&self) -> (d: &String)
        ensures
            d@ == self.spec_base_dir(),
    {
        &self.base_dir
    }

    /// Default seeds for standard invariant patterns: the 16 little-endian
    /// bytes of the `i128` values zero, the largest, a typical token amount
    /// (one million), and the largest less one.
    pub fn default_seeds() -> (seeds: Vec<Vec<u8>>)
        ensures
            seeds@.len() == 4,
            seeds@[0]@ == le_bytes(0, 16),
            seeds@[1]@ == le_bytes(i128::MAX as nat, 16),
            seeds@[2]@ == le_bytes(1_000_000, 16),
            seeds@[3]@ == le_bytes((i128::MAX - 1) as nat, 16),
            le_value(seeds@[0]@) == 0,
            le_value(seeds@[1]@) == i128::MAX,
            le_value(seeds@[2]@) == 1_000_000,
            le_value(seeds@[3]@) == i128::MAX - 1,
    {
        let mut seeds: Vec<Vec<u8>> = Vec::new();
        seeds.push(i128_le_bytes(0));
        seeds.push(i128_le_bytes(i128::MAX));
        seeds.push(i128_le_bytes(1_000_000));
        seeds.push(i128_le_bytes(i128::MAX - 1));
        proof {
            lemma_pow256_16();
            lemma_le_bytes_value(0, 16);
            lemma_le_bytes_value(i128::MAX as nat, 16);
            lemma_le_bytes_value(1_000_000, 16);
            lemma_le_bytes_value((i128::MAX - 1) as nat, 16);
        }
        seeds
    }

    /// The name of the file that holds seed number `index` of a corpus:
    /// `seed_` and the index in decimal, zero-padded to four digits (as
    /// `format!("seed_{:04}", index)`).
    pub fn seed_file_name(index: usize) -> (name: String)
        ensures
            name@ == "seed_"@ + zero_padded(index as nat, 4),
    {
        let mut digits = String::new();
        push_decimal(&mut digits, index as u64);
        let mut name = String::from_str("seed_");
        let len = digits.as_str().unicode_len();
        let mut pad: usize = len;
        proof {
            reveal_strlit("0");
        }
        while pad < 4
            invariant
                len == decimal(index as nat).len(),
                len <= pad <= 4 || (pad == len && len > 4),
                name@ == "seed_"@ + Seq::new((pad - len) as nat, |i: int| '0'),
                "0"@ == seq!['0'],
            decreases 4 - pad,
        {
            name.append("0");
            proof {
                assert(Seq::new((pad + 1 - len) as nat, |i: int| '0') =~= Seq::new(
                    (pad - len) as nat,
                    |i: int| '0',
                ).push('0'));
            }
            pad = pad + 1;
        }
        name.append(digits.as_str());
        proof {
            assert(digits@ == decimal(index as nat));
            if len >= 4 {
                assert(Seq::new((pad - len) as nat, |i: int| '0') =~= Seq::<char>::empty());
            }
            assert(name@ =~= "seed_"@ + zero_padded(index as nat, 4));
        }
        name
    }
}

} // verus!
