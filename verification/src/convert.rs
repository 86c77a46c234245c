//! Big-endian two's-complement byte strings read as 128-bit and 256-bit
//! signed integers.

use vstd::prelude::*;

verus! {

/// A 256-bit signed integer, as its signed high word and unsigned low word.
#[derive(Clone, Copy, Debug, PartialEq, Eq, Structural)]
pub struct Int256 {
    pub high: i128,
    pub low: u128,
}

impl DeepView for Int256 {
    type V = Int256;

    open spec fn deep_view(&self) -> Int256 {
        *self
    }
}

impl Int256 {
    /// The integer that the two words stand for.
    pub open spec fn to_int(self) -> int {
        self.high * 0x1_0000_0000_0000_0000_0000_0000_0000_0000 + self.low
    }
}

/// 256 to the power `n`.
pub open spec fn pow256(n: nat) -> nat
    decreases n,
{
    if n == 0 {
        1
    } else {
        256 * pow256((n - 1) as nat)
    }
}

/// The number that the bytes spell in base 256, most significant byte first.
pub open spec fn be_unsigned(bytes: Seq<u8>) -> nat
    decreases bytes.len(),
{
    if bytes.len() == 0 {
        0
    } else {
        be_unsigned(bytes.drop_last()) * 256 + bytes.last() as nat
    }
}

/// The bytes read as a big-endian two's-complement integer of their own
/// width; the empty string reads as zero.
pub open spec fn be_signed(bytes: Seq<u8>) -> int {
    if bytes.len() > 0 && bytes[0] >= 128 {
        be_unsigned(bytes) - pow256(bytes.len())
    } else {
        be_unsigned(bytes) as int
    }
}

pub proof fn lemma_pow256_add(a: nat, b: nat)
    ensures
        pow256(a + b) == pow256(a) * pow256(b),
    decreases a,
{
    if a > 0 {
        lemma_pow256_add((a - 1) as nat, b);
        assert(((a - 1) as nat) + b == (a + b - 1) as nat);
        assert(pow256(a + b) == 256 * pow256((a + b - 1) as nat));
        let x = pow256((a - 1) as nat);
        let y = pow256(b);
        assert(pow256(a) == 256 * x);
        assert(256 * (x * y) == (256 * x) * y) by (nonlinear_arith);
    } else {
        assert(pow256(a) == 1);
        assert(a + b == b);
        assert(1 * pow256(b) == pow256(b)) by (nonlinear_arith);
    }
}

pub proof fn lemma_pow256_values()
    ensures
        pow256(16) == 0x1_0000_0000_0000_0000_0000_0000_0000_0000,
        pow256(32) == 0x1_0000_0000_0000_0000_0000_0000_0000_0000
            * 0x1_0000_0000_0000_0000_0000_0000_0000_0000,
        forall|i: nat, j: nat| i <= j ==> #[trigger] pow256(i) <= #[trigger] pow256(j),
        forall|i: nat| #[trigger] pow256(i) > 0,
{
    reveal_with_fuel(pow256, 17);
    lemma_pow256_add(16, 16);
    assert forall|i: nat| #[trigger] pow256(i) > 0 by {
        lemma_pow256_positive(i);
    }
    assert forall|i: nat, j: nat| i <= j implies #[trigger] pow256(i) <= #[trigger] pow256(j) by {
        lemma_pow256_add(i, (j - i) as nat);
        lemma_pow256_positive((j - i) as nat);
        assert(pow256(i) <= pow256(i) * pow256((j - i) as nat)) by (nonlinear_arith)
            requires
                pow256((j - i) as nat) > 0,
        ;
    }
}

proof fn lemma_pow256_positive(n: nat)
    ensures
        pow256(n) > 0,
    decreases n,
{
    if n > 0 {
        lemma_pow256_positive((n - 1) as nat);
    }
}

/// A byte string spells a number below 256 to its length, in the upper half
/// of that range if and only if its first byte has the top bit set.
pub proof fn lemma_be_unsigned_bounds(bytes: Seq<u8>)
    ensures
        be_unsigned(bytes) < pow256(bytes.len()),
        bytes.len() > 0 && bytes[0] >= 128 ==> 2 * be_unsigned(bytes) >= pow256(bytes.len()),
        bytes.len() > 0 && bytes[0] < 128 ==> 2 * be_unsigned(bytes) < pow256(bytes.len()),
    decreases bytes.len(),
{
    if bytes.len() == 1 {
        reveal_with_fuel(pow256, 2);
        reveal_with_fuel(be_unsigned, 2);
    } else if bytes.len() > 1 {
        let prefix = bytes.drop_last();
        lemma_be_unsigned_bounds(prefix);
        assert(prefix[0] == bytes[0]);
        assert(pow256(prefix.len()) == 256 * pow256((prefix.len() - 1) as nat));
    }
}

/// Appending a byte shifts the signed value up by one byte and adds the new
/// byte.
pub proof fn lemma_be_signed_push(bytes: Seq<u8>, b: u8)
    requires
        bytes.len() > 0,
    ensures
        be_signed(bytes.push(b)) == be_signed(bytes) * 256 + b,
{
    assert(bytes.push(b).drop_last() =~= bytes);
    assert(bytes.push(b)[0] == bytes[0]);
}

pub proof fn lemma_be_unsigned_concat(a: Seq<u8>, b: Seq<u8>)
    ensures
        be_unsigned(a + b) == be_unsigned(a) * pow256(b.len()) + be_unsigned(b),
    decreases b.len(),
{
    let ua = be_unsigned(a);
    if b.len() == 0 {
        assert(a + b =~= a);
        assert(pow256(0) == 1);
        assert(ua * 1 == ua) by (nonlinear_arith);
    } else {
        let p = pow256((b.len() - 1) as nat);
        lemma_be_unsigned_concat(a, b.drop_last());
        assert((a + b).drop_last() =~= a + b.drop_last());
        assert((a + b).last() == b.last());
        assert(pow256(b.len()) == 256 * p);
        assert(ua * (256 * p) == (ua * p) * 256) by (nonlinear_arith);
    }
}

pub proof fn lemma_be_unsigned_fill(n: nat)
    ensures
        be_unsigned(Seq::new(n, |i: int| 0u8)) == 0,
        be_unsigned(Seq::new(n, |i: int| 255u8)) == pow256(n) - 1,
    decreases n,
{
    if n > 0 {
        lemma_be_unsigned_fill((n - 1) as nat);
        assert(Seq::new(n, |i: int| 0u8).drop_last() =~= Seq::new((n - 1) as nat, |i: int| 0u8));
        assert(Seq::new(n, |i: int| 255u8).drop_last() =~= Seq::new(
            (n - 1) as nat,
            |i: int| 255u8,
        ));
    }
}

/// Padding on the left with copies of the sign byte keeps the signed value.
pub proof fn lemma_sign_extension(bytes: Seq<u8>, n: nat, fill: u8)
    requires
        fill == (if bytes.len() > 0 && bytes[0] >= 128 {
            255u8
        } else {
            0u8
        }),
    ensures
        be_signed(Seq::new(n, |i: int| fill) + bytes) == be_signed(bytes),
{
    let pad = Seq::new(n, |i: int| fill);
    lemma_be_unsigned_concat(pad, bytes);
    lemma_be_unsigned_fill(n);
    lemma_pow256_add(n, bytes.len());
    if n == 0 {
        assert(pad + bytes =~= bytes);
    } else if fill == 255 {
        assert(pad =~= Seq::new(n, |i: int| 255u8));
        assert((pad + bytes)[0] == 255);
        assert((pow256(n) - 1) * pow256(bytes.len()) == pow256(n) * pow256(bytes.len()) - pow256(
            bytes.len(),
        )) by (nonlinear_arith);
    } else {
        assert(pad =~= Seq::new(n, |i: int| 0u8));
        assert((pad + bytes)[0] == 0);
        assert(0 * pow256(bytes.len()) == 0);
    }
}

/// Two 256-bit integers of the same value have the same words.
pub proof fn lemma_int256_unique(a: Int256, b: Int256)
    requires
        a.to_int() == b.to_int(),
    ensures
        a == b,
{
}

/// `ethnum::I256::new`, split into its words by `ethnum::I256::into_words`:
/// the 256-bit integer whose value is that of `value`.
#[verifier::external_body]
fn i256_new(value: i128) -> (res: Int256)
    ensures
        res.to_int() == value,
{
    let (high, low) = ethnum::I256::new(value).into_words();
    Int256 { high, low: low as u128 }
}

/// `ethnum::I256::from_be_bytes`, split into its words by
/// `ethnum::I256::into_words`: the 32 bytes read as a big-endian
/// two's-complement integer.
#[verifier::external_body]
fn i256_from_be_bytes(bytes: &Vec<u8>) -> (res: Int256)
    requires
        bytes.len() == 32,
    ensures
        res.to_int() == be_signed(bytes@),
{
    let mut buffer = [0u8; 32];
    buffer.copy_from_slice(bytes);
    let (high, low) = ethnum::I256::from_be_bytes(buffer).into_words();
    Int256 { high, low: low as u128 }
}

impl Int256 {
    /// The 256-bit integer with the value of a 128-bit one.
    pub fn from_i128(value: i128) -> (res: Int256)
        ensures
            res.to_int() == value,
    {
        i256_new(value)
    }
}

/// Reads the first `n` bytes of `value` as a big-endian two's-complement
/// integer and widens it to 128 bits.
pub fn convert_i128(value: &[u8], n: usize) -> (res: i128)
    requires
        n <= 16,
        n <= value.len(),
    ensures
        res == be_signed(value@.subrange(0, n as int)),
{
    if n == 0 {
        return 0;
    }
    let first: u8 = value[0];
    let mut acc: i128 = if first >= 128 {
        first as i128 - 256
    } else {
        first as i128
    };
    let mut i: usize = 1;
    proof {
        reveal_with_fuel(pow256, 2);
        reveal_with_fuel(be_unsigned, 2);
        assert(value@.subrange(0, 1).drop_last() =~= Seq::<u8>::empty());
    }
    while i < n
        invariant
            1 <= i <= n <= 16,
            n <= value.len(),
            acc == be_signed(value@.subrange(0, i as int)),
        decreases n - i,
    {
        proof {
            let prefix = value@.subrange(0, i as int);
            lemma_be_unsigned_bounds(prefix);
            lemma_pow256_values();
            assert(pow256(i as nat) <= pow256(15));
            assert(pow256(16) == 256 * pow256(15));
            lemma_be_signed_push(prefix, value@[i as int]);
            assert(prefix.push(value@[i as int]) =~= value@.subrange(0, i + 1));
        }
        acc = acc * 256 + value[i] as i128;
        i += 1;
    }
    acc
}

/// Reads `value` as a big-endian two's-complement integer and widens it to
/// 256 bits.
pub fn convert_i256(value: &[u8]) -> (res: Int256)
    requires
        value.len() <= 32,
    ensures
        res.to_int() == be_signed(value@),
{
    let negative = value.len() > 0 && value[0] >= 128;
    let pad: u8 = if negative {
        255
    } else {
        0
    };
    let missing: usize = 32 - value.len();
    let mut bytes: Vec<u8> = Vec::new();
    let mut i: usize = 0;
    while i < missing
        invariant
            i <= missing,
            bytes@ == Seq::new(i as nat, |k: int| pad),
        decreases missing - i,
    {
        bytes.push(pad);
        i += 1;
        assert(bytes@ =~= Seq::new(i as nat, |k: int| pad));
    }
    let mut j: usize = 0;
    while j < value.len()
        invariant
            j <= value.len(),
            missing + value.len() == 32,
            bytes@ == Seq::new(missing as nat, |k: int| pad) + value@.subrange(0, j as int),
        decreases value.len() - j,
    {
        bytes.push(value[j]);
        j += 1;
        assert(bytes@ =~= Seq::new(missing as nat, |k: int| pad) + value@.subrange(0, j as int));
    }
    proof {
        assert(value@.subrange(0, j as int) =~= value@);
        lemma_sign_extension(value@, missing as nat, pad);
    }
    i256_from_be_bytes(&bytes)
}

} // verus!
