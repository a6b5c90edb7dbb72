//! Machine words as bytes, in the byte order of a machine.

use vstd::arithmetic::power::pow;
use vstd::prelude::*;

verus! {

/// Number of bytes in a machine word.
pub const WORD_SIZE: usize = usize::BITS as usize / 8;

/// The order in which a machine keeps the bytes of a word.
#[derive(Clone, Copy, Debug, PartialEq, Eq, Structural)]
pub enum ByteOrder {
    /// Least significant byte first.
    LittleEndian,
    /// Most significant byte first.
    BigEndian,
}

/// The number that `bytes` stands for, least significant byte first.
pub open spec fn le_value(bytes: Seq<u8>) -> int
    decreases bytes.len(),
{
    if bytes.len() == 0 {
        0
    } else {
        bytes[0] + 256 * le_value(bytes.drop_first())
    }
}

/// The `n` low bytes of `value`, least significant byte first.
pub open spec fn le_bytes(value: int, n: nat) -> Seq<u8>
    decreases n,
{
    if n == 0 {
        seq![]
    } else {
        seq![(value % 256) as u8] + le_bytes(value / 256, (n - 1) as nat)
    }
}

/// Bytes in the order of a machine as bytes from the least significant one on, or the
/// other way round.
pub open spec fn ordered(order: ByteOrder, bytes: Seq<u8>) -> Seq<u8> {
    match order {
        ByteOrder::LittleEndian => bytes,
        ByteOrder::BigEndian => bytes.reverse(),
    }
}

/// The number that the bytes of a machine word stand for.
pub open spec fn word_value(order: ByteOrder, bytes: Seq<u8>) -> int {
    le_value(ordered(order, bytes))
}

/// The bytes of a machine word.
pub open spec fn word_bytes(order: ByteOrder, value: int) -> Seq<u8> {
    ordered(order, le_bytes(value, WORD_SIZE as nat))
}

proof fn lemma_pow256_step(n: nat)
    ensures
        pow(256, n + 1) == 256 * pow(256, n),
        pow(256, n) > 0,
{
    reveal(pow);
    vstd::arithmetic::power::lemma_pow_positive(256, n);
}

/// A word holds exactly the numbers of `WORD_SIZE` bytes.
proof fn lemma_word_range()
    ensures
        WORD_SIZE == 4 || WORD_SIZE == 8,
        pow(256, WORD_SIZE as nat) == usize::MAX + 1,
{
    assert(pow(256, 4) == 0x1_0000_0000 && pow(256, 8) == 0x1_0000_0000_0000_0000) by {
        reveal(pow);
        reveal_with_fuel(pow, 9);
    }
}

/// `n` bytes stand for a number below the `n`-th power of 256.
proof fn lemma_le_value_bounds(bytes: Seq<u8>)
    ensures
        0 <= le_value(bytes) < pow(256, bytes.len()),
    decreases bytes.len(),
{
    if bytes.len() == 0 {
        reveal(pow);
    } else {
        lemma_le_value_bounds(bytes.drop_first());
        lemma_pow256_step((bytes.len() - 1) as nat);
    }
}

/// Up to `WORD_SIZE` bytes stand for a machine word.
proof fn lemma_word_bounds(bytes: Seq<u8>)
    requires
        bytes.len() <= WORD_SIZE,
    ensures
        0 <= le_value(bytes) <= usize::MAX,
{
    lemma_le_value_bounds(bytes);
    lemma_word_range();
    vstd::arithmetic::power::lemma_pow_increases(256, bytes.len(), WORD_SIZE as nat);
}

proof fn lemma_le_bytes_len(value: int, n: nat)
    ensures
        le_bytes(value, n).len() == n,
    decreases n,
{
    if n > 0 {
        lemma_le_bytes_len(value / 256, (n - 1) as nat);
    }
}

/// Byte `i` from the least significant one on is the digit of that place to the base 256.
proof fn lemma_le_digit(value: int, n: nat, i: nat)
    requires
        0 <= value,
        i < n,
    ensures
        le_bytes(value, n)[i as int] == value / pow(256, i) % 256,
    decreases n,
{
    let rest = (n - 1) as nat;
    lemma_le_bytes_len(value / 256, rest);
    if i == 0 {
        vstd::arithmetic::power::lemma_pow0(256);
    } else {
        let before = (i - 1) as nat;
        lemma_le_digit(value / 256, rest, before);
        lemma_pow256_step(before);
        vstd::arithmetic::div_mod::lemma_div_denominator(value, 256, pow(256, before));
        assert(le_bytes(value, n)[i as int] == le_bytes(value / 256, rest)[before as int]);
    }
}

/// The bytes of a machine word are its digits to the base 256: from the least significant one
/// on in one byte order, from the most significant one on in the other.
pub proof fn law_word_digits(value: int, i: nat)
    requires
        0 <= value,
        i < WORD_SIZE,
    ensures
        word_bytes(ByteOrder::LittleEndian, value).len() == WORD_SIZE,
        word_bytes(ByteOrder::LittleEndian, value)[i as int] == value / pow(256, i) % 256,
        word_bytes(ByteOrder::BigEndian, value).len() == WORD_SIZE,
        word_bytes(ByteOrder::BigEndian, value)[WORD_SIZE - 1 - i] == value / pow(256, i) % 256,
{
    lemma_le_digit(value, WORD_SIZE as nat, i);
    lemma_le_bytes_len(value, WORD_SIZE as nat);
}

/// Most significant byte first, a number's bytes are its digits to the base 256.
pub proof fn law_be_digits(value: int, n: nat, i: nat)
    requires
        0 <= value,
        i < n,
    ensures
        be_bytes(value, n).len() == n,
        be_bytes(value, n)[n - 1 - i] == value / pow(256, i) % 256,
    decreases n,
{
    let rest = (n - 1) as nat;
    if i == 0 {
        lemma_be_bytes_len(value / 256, rest);
        vstd::arithmetic::power::lemma_pow0(256);
    } else {
        let before = (i - 1) as nat;
        law_be_digits(value / 256, rest, before);
        lemma_pow256_step(before);
        vstd::arithmetic::div_mod::lemma_div_denominator(value, 256, pow(256, before));
        assert(be_bytes(value, n)[n - 1 - i] == be_bytes(value / 256, rest)[rest - 1 - before]);
    }
}

proof fn lemma_be_bytes_len(value: int, n: nat)
    ensures
        be_bytes(value, n).len() == n,
    decreases n,
{
    if n > 0 {
        lemma_be_bytes_len(value / 256, (n - 1) as nat);
    }
}

/// Numbers that fit have the same bytes only if they are the same.
pub proof fn law_be_bytes_tell_apart(value: int, other: int, n: nat)
    requires
        0 <= value < pow(256, n),
        0 <= other < pow(256, n),
        be_bytes(value, n) == be_bytes(other, n),
    ensures
        value == other,
    decreases n,
{
    if n == 0 {
        vstd::arithmetic::power::lemma_pow0(256);
    } else {
        let rest = (n - 1) as nat;
        lemma_pow256_step(rest);
        lemma_be_bytes_len(value / 256, rest);
        lemma_be_bytes_len(other / 256, rest);
        let a = be_bytes(value, n);
        let b = be_bytes(other, n);
        assert(a.last() == (value % 256) as u8 && b.last() == (other % 256) as u8);
        assert(a.drop_last() =~= be_bytes(value / 256, rest));
        assert(b.drop_last() =~= be_bytes(other / 256, rest));
        law_be_bytes_tell_apart(value / 256, other / 256, rest);
    }
}

/// Decoding undoes encoding for the numbers that fit.
proof fn lemma_le_roundtrip(value: int, n: nat)
    requires
        0 <= value < pow(256, n),
    ensures
        le_value(le_bytes(value, n)) == value,
    decreases n,
{
    if n == 0 {
        reveal(pow);
    } else {
        let rest = (n - 1) as nat;
        lemma_pow256_step(rest);
        lemma_le_roundtrip(value / 256, rest);
        let bytes = le_bytes(value, n);
        assert(bytes.drop_first() =~= le_bytes(value / 256, rest));
        assert(bytes[0] == value % 256);
    }
}

/// A machine word has `WORD_SIZE` bytes.
pub proof fn lemma_word_bytes_len(order: ByteOrder, value: int)
    ensures
        word_bytes(order, value).len() == WORD_SIZE,
{
    lemma_le_bytes_len(value, WORD_SIZE as nat);
}

/// Decoding the bytes of a word gives the word back.
pub proof fn lemma_word_roundtrip(order: ByteOrder, value: int)
    requires
        0 <= value <= usize::MAX,
    ensures
        word_bytes(order, value).len() == WORD_SIZE,
        word_value(order, word_bytes(order, value)) == value,
{
    let bytes = le_bytes(value, WORD_SIZE as nat);
    lemma_word_range();
    lemma_le_roundtrip(value, WORD_SIZE as nat);
    lemma_le_bytes_len(value, WORD_SIZE as nat);
    assert(ordered(order, ordered(order, bytes)) =~= bytes);
}

/// Encoding undoes decoding.
proof fn lemma_le_encode(bytes: Seq<u8>)
    ensures
        le_bytes(le_value(bytes), bytes.len()) == bytes,
    decreases bytes.len(),
{
    if bytes.len() > 0 {
        let rest = bytes.drop_first();
        lemma_le_encode(rest);
        vstd::arithmetic::div_mod::lemma_fundamental_div_mod_converse(
            le_value(bytes),
            256,
            le_value(rest),
            bytes[0] as int,
        );
        assert(seq![bytes[0]] + rest =~= bytes);
    }
}

/// Only the bytes of a word stand for it.
pub proof fn law_word_has_one_form(order: ByteOrder, bytes: Seq<u8>, value: int)
    requires
        bytes.len() == WORD_SIZE,
        0 <= value <= usize::MAX,
    ensures
        word_value(order, bytes) == value <==> bytes == word_bytes(order, value),
{
    let digits = ordered(order, bytes);
    lemma_word_roundtrip(order, value);
    lemma_le_encode(digits);
    assert(ordered(order, digits) =~= bytes);
}

/// Bytes that are all zero stand for zero.
proof fn lemma_le_zero(bytes: Seq<u8>)
    requires
        forall|i: int| 0 <= i < bytes.len() ==> bytes[i] == 0,
    ensures
        le_value(bytes) == 0,
    decreases bytes.len(),
{
    if bytes.len() > 0 {
        lemma_le_zero(bytes.drop_first());
    }
}

/// A word whose bytes are all zero is zero.
pub proof fn lemma_word_of_zeros(order: ByteOrder, bytes: Seq<u8>)
    requires
        forall|i: int| 0 <= i < bytes.len() ==> bytes[i] == 0,
    ensures
        word_value(order, bytes) == 0,
{
    lemma_le_zero(ordered(order, bytes));
}

/// Bytes that are all ones stand for the highest number of their length.
proof fn lemma_le_ones(bytes: Seq<u8>)
    requires
        forall|i: int| 0 <= i < bytes.len() ==> bytes[i] == 0xFF,
    ensures
        le_value(bytes) == pow(256, bytes.len()) - 1,
    decreases bytes.len(),
{
    if bytes.len() > 0 {
        lemma_le_ones(bytes.drop_first());
        lemma_pow256_step((bytes.len() - 1) as nat);
    } else {
        reveal(pow);
    }
}

/// A word whose bytes are all ones is the highest word.
pub proof fn lemma_word_of_ones(order: ByteOrder, bytes: Seq<u8>)
    requires
        bytes.len() == WORD_SIZE,
        forall|i: int| 0 <= i < bytes.len() ==> bytes[i] == 0xFF,
    ensures
        word_value(order, bytes) == usize::MAX,
{
    lemma_le_ones(ordered(order, bytes));
    lemma_word_range();
}

/// The `n` low bytes of `value`, most significant byte first.
pub open spec fn be_bytes(value: int, n: nat) -> Seq<u8>
    decreases n,
{
    if n == 0 {
        seq![]
    } else {
        be_bytes(value / 256, (n - 1) as nat).push((value % 256) as u8)
    }
}

/// The eight bytes of `value`, most significant byte first.
pub fn write_u64_be(value: u64) -> (bytes: Vec<u8>)
    ensures
        bytes@ == be_bytes(value as int, 8),
        bytes@.len() == 8,
{
    let mut bytes: Vec<u8> = vec![0u8; 8];
    let mut rest: u64 = value;
    let mut i: usize = 8;
    assert(be_bytes(rest as int, 8) + bytes@.subrange(8, 8) =~= be_bytes(value as int, 8));
    while i > 0
        invariant
            i <= 8,
            bytes@.len() == 8,
            be_bytes(rest as int, i as nat) + bytes@.subrange(i as int, 8) == be_bytes(
                value as int,
                8,
            ),
        decreases i,
    {
        let ghost tail = bytes@.subrange(i as int, 8);
        let ghost head = be_bytes(rest as int / 256, (i - 1) as nat);
        let byte: u8 = (rest % 256) as u8;
        i = i - 1;
        bytes.set(i, byte);
        rest = rest / 256;
        proof {
            assert(bytes@.subrange(i as int, 8) =~= seq![byte] + tail);
            assert(head + (seq![byte] + tail) =~= head.push(byte) + tail);
        }
    }
    assert(be_bytes(rest as int, 0) + bytes@.subrange(0, 8) =~= bytes@);
    bytes
}

/// Whether two runs of bytes are equal.
pub fn same_bytes(a: &[u8], b: &[u8]) -> (same: bool)
    ensures
        same == (a@ == b@),
{
    if a.len() != b.len() {
        return false;
    }
    let len: usize = a.len();
    let mut i: usize = 0;
    while i < len
        invariant
            i <= len == a@.len() == b@.len(),
            forall|j: int| 0 <= j < i ==> a@[j] == b@[j],
        decreases len - i,
    {
        if a[i] != b[i] {
            return false;
        }
        i = i + 1;
    }
    assert(a@ =~= b@);
    true
}

/// Reads the word that starts at `at`.
pub fn read_word(order: ByteOrder, bytes: &[u8], at: usize) -> (value: usize)
    requires
        at + WORD_SIZE <= bytes@.len(),
    ensures
        value == word_value(order, bytes@.subrange(at as int, at + WORD_SIZE)),
{
    let ghost digits = ordered(order, bytes@.subrange(at as int, at + WORD_SIZE));
    let mut value: usize = 0;
    let mut i: usize = WORD_SIZE;
    let end: usize = bytes.len();
    assert(digits.subrange(WORD_SIZE as int, WORD_SIZE as int) =~= seq![]);
    while i > 0
        invariant
            i <= WORD_SIZE,
            at + WORD_SIZE <= bytes@.len() == end,
            digits == ordered(order, bytes@.subrange(at as int, at + WORD_SIZE)),
            digits.len() == WORD_SIZE,
            value == le_value(digits.subrange(i as int, WORD_SIZE as int)),
        decreases i,
    {
        proof {
            let tail = digits.subrange(i - 1, WORD_SIZE as int);
            assert(tail.drop_first() =~= digits.subrange(i as int, WORD_SIZE as int));
            lemma_word_bounds(tail);
        }
        i = i - 1;
        let byte: u8 = match order {
            ByteOrder::LittleEndian => bytes[at + i],
            ByteOrder::BigEndian => bytes[at + (WORD_SIZE - 1 - i)],
        };
        value = value * 256 + byte as usize;
    }
    assert(digits.subrange(0, WORD_SIZE as int) =~= digits);
    value
}

/// The bytes of `value`.
pub fn write_word(order: ByteOrder, value: usize) -> (bytes: Vec<u8>)
    ensures
        bytes@ == word_bytes(order, value as int),
        bytes@.len() == WORD_SIZE,
{
    let ghost digits = le_bytes(value as int, WORD_SIZE as nat);
    let mut bytes: Vec<u8> = vec![0u8; WORD_SIZE];
    let mut rest: usize = value;
    let mut i: usize = 0;
    proof {
        lemma_le_bytes_len(value as int, WORD_SIZE as nat);
        assert(digits.subrange(0, WORD_SIZE as int) =~= digits);
    }
    while i < WORD_SIZE
        invariant
            i <= WORD_SIZE,
            bytes@.len() == WORD_SIZE,
            digits.len() == WORD_SIZE,
            digits.subrange(i as int, WORD_SIZE as int) == le_bytes(
                rest as int,
                (WORD_SIZE - i) as nat,
            ),
            forall|j: int| 0 <= j < i ==> ordered(order, bytes@)[j] == digits[j],
        decreases WORD_SIZE - i,
    {
        let ghost before = ordered(order, bytes@);
        let byte: u8 = (rest % 256) as u8;
        proof {
            let tail = le_bytes(rest as int / 256, (WORD_SIZE - i - 1) as nat);
            let left = digits.subrange(i as int, WORD_SIZE as int);
            assert(left =~= seq![(rest as int % 256) as u8] + tail);
            assert(digits[i as int] == left[0]);
            assert(digits.subrange(i + 1, WORD_SIZE as int) =~= tail) by {
                assert forall|k: int| 0 <= k < WORD_SIZE - i - 1 implies digits.subrange(
                    i + 1,
                    WORD_SIZE as int,
                )[k] == tail[k] by {
                    assert(left[k + 1] == tail[k]);
                }
                lemma_le_bytes_len(rest as int / 256, (WORD_SIZE - i - 1) as nat);
            }
        }
        match order {
            ByteOrder::LittleEndian => {
                bytes.set(i, byte);
            },
            ByteOrder::BigEndian => {
                bytes.set(WORD_SIZE - 1 - i, byte);
            },
        }
        assert(ordered(order, bytes@) =~= before.update(i as int, byte));
        rest = rest / 256;
        i = i + 1;
    }
    assert(ordered(order, bytes@) =~= digits);
    assert(bytes@ =~= ordered(order, digits));
    bytes
}

} // verus!
