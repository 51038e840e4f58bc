//! Machine words in memory.

use vstd::arithmetic::{div_mod, power};
use vstd::layout;
use vstd::prelude::*;

verus! {

/// The order in which a machine stores the bytes of an integer.
#[derive(Debug, Clone, Copy, PartialEq, Eq, Structural)]
pub enum ByteOrder {
    LittleEndian,
    BigEndian,
}

/// The number whose base-256 digits, least significant first, are `bytes`.
pub open spec fn little_endian(bytes: Seq<u8>) -> nat
    decreases bytes.len(),
{
    if bytes.len() == 0 {
        0
    } else {
        bytes[0] as nat + 256 * little_endian(bytes.drop_first())
    }
}

impl ByteOrder {
    /// The number that a machine of this byte order stores as `bytes`.
    pub open spec fn value(self, bytes: Seq<u8>) -> nat {
        match self {
            ByteOrder::LittleEndian => little_endian(bytes),
            ByteOrder::BigEndian => little_endian(bytes.reverse()),
        }
    }

    /// The `index`-th word of a buffer of words.
    pub open spec fn word(self, bytes: Seq<u8>, index: int) -> usize {
        self.value(
            bytes.subrange(
                index * layout::size_of::<usize>(),
                (index + 1) * layout::size_of::<usize>(),
            ),
        ) as usize
    }
}

/// A number of `bytes.len()` base-256 digits is less than 256 to that power.
pub proof fn lemma_little_endian_bound(bytes: Seq<u8>)
    ensures
        little_endian(bytes) < power::pow(256, bytes.len()),
    decreases bytes.len(),
{
    reveal(power::pow);
    if bytes.len() > 0 {
        lemma_little_endian_bound(bytes.drop_first());
    }
}

/// As many bytes as a `usize` has never hold more than a `usize` does.
pub proof fn lemma_word_fits(order: ByteOrder, bytes: Seq<u8>)
    requires
        bytes.len() == layout::size_of::<usize>(),
    ensures
        order.value(bytes) <= usize::MAX,
{
    layout::unsigned_int_max_values();
    lemma_little_endian_bound(bytes);
    lemma_little_endian_bound(bytes.reverse());
}

/// A suffix of a list of digits is no larger than the whole list.
proof fn lemma_suffix_le(bytes: Seq<u8>, k: int)
    requires
        0 <= k <= bytes.len(),
    ensures
        little_endian(bytes.skip(k)) <= little_endian(bytes),
    decreases k,
{
    if k == 0 {
        assert(bytes.skip(0) =~= bytes);
    } else {
        lemma_suffix_le(bytes, k - 1);
        assert(bytes.skip(k - 1).drop_first() =~= bytes.skip(k));
    }
}

/// Reads the word of `order` that starts at `start`.
pub fn read_word(order: ByteOrder, bytes: &[u8], start: usize) -> (res: usize)
    requires
        start + layout::size_of::<usize>() <= bytes@.len(),
    ensures
        res == order.value(bytes@.subrange(start as int, start + layout::size_of::<usize>())),
{
    let len = bytes.len();
    let width = core::mem::size_of::<usize>();
    let ghost word = bytes@.subrange(start as int, start + width);
    let ghost digits = match order {
        ByteOrder::LittleEndian => word,
        ByteOrder::BigEndian => word.reverse(),
    };
    let mut acc: usize = 0;
    let mut k: usize = width;
    assert(digits.skip(k as int) =~= seq![]);
    while k > 0
        invariant
            k <= width,
            start + width <= len,
            len == bytes@.len(),
            width == layout::size_of::<usize>(),
            word == bytes@.subrange(start as int, start + width),
            digits == (match order {
                ByteOrder::LittleEndian => word,
                ByteOrder::BigEndian => word.reverse(),
            }),
            acc == little_endian(digits.skip(k as int)),
        decreases k,
    {
        k = k - 1;
        let byte = match order {
            ByteOrder::LittleEndian => bytes[start + k],
            ByteOrder::BigEndian => bytes[start + (width - 1 - k)],
        };
        proof {
            assert(byte == digits[k as int]);
            assert(digits.skip(k as int).drop_first() =~= digits.skip(k + 1));
            assert(digits.skip(k as int)[0] == byte);
            lemma_suffix_le(digits, k as int);
            lemma_word_fits(order, word);
        }
        acc = acc * 256 + byte as usize;
    }
    assert(digits.skip(0) =~= digits);
    acc
}

/// `sample` is what a machine of one of the two byte orders reads from `bytes`.
pub open spec fn read_in_some_order(sample: u16, bytes: Seq<u8>) -> bool {
    exists|order: ByteOrder| #[trigger] order.value(bytes) == sample
}

/// What two bytes are read as.
proof fn lemma_pair_value(bytes: Seq<u8>)
    requires
        bytes.len() == 2,
    ensures
        ByteOrder::LittleEndian.value(bytes) == bytes[0] + 256 * bytes[1],
        ByteOrder::BigEndian.value(bytes) == 256 * bytes[0] + bytes[1],
{
    let reversed = bytes.reverse();
    reveal_with_fuel(little_endian, 3);
    assert(bytes.drop_first().drop_first() =~= seq![]);
    assert(reversed.drop_first().drop_first() =~= seq![]);
}

/// `u16::from_ne_bytes` reads its two bytes in the byte order of the machine. Which of the two
/// orders that is depends on the machine alone, so no more is claimed than that it is one of
/// them.
#[verifier::external_body]
fn u16_from_ne_bytes(bytes: [u8; 2]) -> (res: u16)
    ensures
        res == bytes[0] + 256 * bytes[1] || res == 256 * bytes[0] + bytes[1],
{
    u16::from_ne_bytes(bytes)
}

/// The bytes whose reading tells the byte order of a machine.
pub open spec fn sample_bytes() -> Seq<u8> {
    seq![1, 0]
}

/// The byte order of a machine that reads the bytes 1, 0 as `sample`.
pub fn order_of_sample(sample: u16) -> (res: ByteOrder)
    ensures
        res == ByteOrder::LittleEndian <==> sample == 1,
        forall|order: ByteOrder|
            #[trigger] order.value(sample_bytes()) == sample ==> res == order,
{
    proof {
        lemma_pair_value(sample_bytes());
    }
    if sample == 1 {
        ByteOrder::LittleEndian
    } else {
        ByteOrder::BigEndian
    }
}

/// The byte order of the machine the program runs on: the one in which the bytes 1, 0 read as the
/// machine reads them. How it reads them is a property of the machine alone, so it is not said
/// which of the two orders is returned; `order_of_sample` says it for each reading, and what
/// depends on the order takes it as an argument.
pub fn native_order() -> (res: ByteOrder)
    ensures
        exists|sample: u16| #[trigger] read_in_some_order(sample, sample_bytes()) && res.value(
            sample_bytes(),
        ) == sample,
{
    let sample = u16_from_ne_bytes([1, 0]);
    proof {
        lemma_pair_value(sample_bytes());
        assert(read_in_some_order(sample, sample_bytes()));
    }
    order_of_sample(sample)
}

/// A machine stores the base-256 digits of a number in order: the least significant one first or
/// last, according to its byte order.
#[verifier::spinoff_prover]
#[verifier::rlimit(30)]
pub proof fn law_bytes_are_digits(bytes: Seq<u8>)
    ensures
        forall|k: int|
            #![trigger power::pow(256, k as nat)]
            0 <= k < bytes.len() ==> {
                &&& ByteOrder::LittleEndian.value(bytes) as int / power::pow(256, k as nat) % 256
                    == bytes[k]
                &&& ByteOrder::BigEndian.value(bytes) as int / power::pow(256, k as nat) % 256
                    == bytes[bytes.len() - 1 - k]
            },
        ByteOrder::LittleEndian.value(bytes) < power::pow(256, bytes.len()),
        ByteOrder::BigEndian.value(bytes) < power::pow(256, bytes.len()),
{
    lemma_little_endian_bound(bytes);
    lemma_little_endian_bound(bytes.reverse());
    assert forall|k: int|
        #![trigger power::pow(256, k as nat)]
        0 <= k < bytes.len() implies {
        &&& ByteOrder::LittleEndian.value(bytes) as int / power::pow(256, k as nat) % 256
            == bytes[k]
        &&& ByteOrder::BigEndian.value(bytes) as int / power::pow(256, k as nat) % 256
            == bytes[bytes.len() - 1 - k]
    } by {
        lemma_digit(bytes, k);
        lemma_digit(bytes.reverse(), k);
    }
}

/// The `k`-th digit of a number.
proof fn lemma_digit(bytes: Seq<u8>, k: int)
    requires
        0 <= k < bytes.len(),
    ensures
        little_endian(bytes) as int / power::pow(256, k as nat) % 256 == bytes[k],
    decreases k,
{
    reveal(power::pow);
    let n = little_endian(bytes);
    let rest = little_endian(bytes.drop_first());
    assert(n as int / 256 == rest && n as int % 256 == bytes[0]);
    if k == 0 {
        assert(power::pow(256, 0) == 1);
    } else {
        let p = power::pow(256, (k - 1) as nat);
        assert(power::pow(256, k as nat) == 256 * p);
        power::lemma_pow_positive(256, (k - 1) as nat);
        div_mod::lemma_div_denominator(n as int, 256, p);
        lemma_digit(bytes.drop_first(), k - 1);
    }
}

} // verus!
