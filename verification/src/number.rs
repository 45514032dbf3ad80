//! The numbers that virtio keeps in memory, in the byte order of the machine.
use vstd::arithmetic::power::pow;
use vstd::prelude::*;

verus! {

/// In which order the bytes of a number lie in memory.
#[derive(Clone, Copy, Debug, PartialEq, Eq, Structural)]
pub enum ByteOrder {
    /// Least significant byte first.
    Little,
    /// Most significant byte first.
    Big,
}

/// The number that `bytes` holds, least significant byte first.
pub open spec fn le_value(bytes: Seq<u8>) -> nat
    decreases bytes.len(),
{
    if bytes.len() == 0 {
        0
    } else {
        bytes[0] as nat + 256 * le_value(bytes.drop_first())
    }
}

/// The `n` low bytes of `value`, least significant byte first.
pub open spec fn le_bytes(value: nat, n: nat) -> Seq<u8>
    decreases n,
{
    if n == 0 {
        Seq::empty()
    } else {
        seq![(value % 256) as u8] + le_bytes(value / 256, (n - 1) as nat)
    }
}

/// The number that `bytes` holds.
pub open spec fn value(order: ByteOrder, bytes: Seq<u8>) -> nat {
    match order {
        ByteOrder::Little => le_value(bytes),
        ByteOrder::Big => le_value(bytes.reverse()),
    }
}

/// The `n` low bytes of `value`.
pub open spec fn encoded(order: ByteOrder, value: nat, n: nat) -> Seq<u8> {
    match order {
        ByteOrder::Little => le_bytes(value, n),
        ByteOrder::Big => le_bytes(value, n).reverse(),
    }
}

/// `256` to the power `n`: how many values fit into `n` bytes.
pub open spec fn byte_span(n: nat) -> nat
    decreases n,
{
    if n == 0 {
        1
    } else {
        256 * byte_span((n - 1) as nat)
    }
}

/// An encoding of `n` bytes has `n` bytes.
pub proof fn lemma_encoded_len(order: ByteOrder, value: nat, n: nat)
    ensures
        encoded(order, value, n).len() == n,
{
    lemma_le_bytes_len(value, n);
}

/// What `n` bytes hold is below `256` to the power `n`.
pub proof fn lemma_value_bound(order: ByteOrder, bytes: Seq<u8>)
    ensures
        value(order, bytes) < byte_span(bytes.len()),
{
    lemma_le_value_bound(bytes);
    lemma_le_value_bound(bytes.reverse());
}

/// Decoding gives back every number that fits into the encoding.
pub proof fn law_decode_undoes_encode(order: ByteOrder, number: nat, n: nat)
    requires
        number < byte_span(n),
    ensures
        value(order, encoded(order, number, n)) == number,
{
    lemma_le_decode_encode(number, n);
    let bytes = le_bytes(number, n);
    assert(bytes.reverse().reverse() =~= bytes);
}

/// Encoding gives back every byte sequence.
pub proof fn law_encode_undoes_decode(order: ByteOrder, bytes: Seq<u8>)
    ensures
        encoded(order, value(order, bytes), bytes.len()) == bytes,
{
    lemma_le_encode_decode(bytes);
    lemma_le_encode_decode(bytes.reverse());
    assert(bytes.reverse().reverse() =~= bytes);
}

/// The byte with weight `256` to the power `i` is the `i`-th from the least
/// significant end, and holds that digit of the number.
pub proof fn law_bytes_are_digits(order: ByteOrder, number: nat, n: nat, i: nat)
    requires
        i < n,
    ensures
        encoded(order, number, n).len() == n,
        order == ByteOrder::Little ==> encoded(order, number, n)[i as int] == (number as int / pow(
            256,
            i,
        )) % 256,
        order == ByteOrder::Big ==> encoded(order, number, n)[n - 1 - i] == (number as int / pow(
            256,
            i,
        )) % 256,
{
    lemma_le_bytes_len(number, n);
    lemma_le_digit(number, n, i);
}

/// The digits of a number, least significant one first.
proof fn lemma_le_digit(number: nat, n: nat, i: nat)
    requires
        i < n,
    ensures
        le_bytes(number, n).len() == n,
        le_bytes(number, n)[i as int] == (number as int / pow(256, i)) % 256,
    decreases n,
{
    lemma_le_bytes_len(number, n);
    lemma_le_bytes_len(number / 256, (n - 1) as nat);
    if i == 0 {
        vstd::arithmetic::power::lemma_pow0(256);
    } else {
        lemma_le_digit(number / 256, (n - 1) as nat, (i - 1) as nat);
        vstd::arithmetic::power::lemma_pow_positive(256, (i - 1) as nat);
        vstd::arithmetic::div_mod::lemma_div_denominator(
            number as int,
            256,
            pow(256, (i - 1) as nat),
        );
        assert(pow(256, i) == 256 * pow(256, (i - 1) as nat)) by {
            reveal(pow);
        }
    }
}

/// A byte at the most significant end adds its weight, and one at the least
/// significant end shifts the others up.
pub proof fn law_bytes_add_up(order: ByteOrder, low: u8, rest: Seq<u8>)
    ensures
        value(order, Seq::empty()) == 0,
        order == ByteOrder::Little ==> value(order, seq![low] + rest) == low + 256 * value(
            order,
            rest,
        ),
        order == ByteOrder::Big ==> value(order, rest.push(low)) == low + 256 * value(order, rest),
{
    assert((seq![low] + rest).drop_first() =~= rest);
    assert(rest.push(low).reverse() =~= seq![low] + rest.reverse());
    assert((seq![low] + rest.reverse()).drop_first() =~= rest.reverse());
    assert(Seq::<u8>::empty().reverse() =~= Seq::<u8>::empty());
}

/// As many values fit into `n` bytes as there are sequences of them.
pub proof fn law_span_is_a_power(n: nat)
    ensures
        byte_span(n) == pow(256, n),
    decreases n,
{
    reveal(pow);
    if n > 0 {
        law_span_is_a_power((n - 1) as nat);
    }
}

/// An encoding of `n` bytes has `n` bytes, least significant one first.
proof fn lemma_le_bytes_len(value: nat, n: nat)
    ensures
        le_bytes(value, n).len() == n,
    decreases n,
{
    if n > 0 {
        lemma_le_bytes_len(value / 256, (n - 1) as nat);
    }
}

/// What `n` bytes hold, least significant one first, is below `256` to the power
/// `n`.
proof fn lemma_le_value_bound(bytes: Seq<u8>)
    ensures
        le_value(bytes) < byte_span(bytes.len()),
    decreases bytes.len(),
{
    if bytes.len() > 0 {
        lemma_le_value_bound(bytes.drop_first());
    }
}

/// Decoding gives back every value, least significant byte first.
proof fn lemma_le_decode_encode(value: nat, n: nat)
    requires
        value < byte_span(n),
    ensures
        le_value(le_bytes(value, n)) == value,
    decreases n,
{
    if n > 0 {
        lemma_le_bytes_len(value / 256, (n - 1) as nat);
        lemma_le_decode_encode(value / 256, (n - 1) as nat);
        assert(le_bytes(value, n).drop_first() =~= le_bytes(value / 256, (n - 1) as nat));
    }
}

/// Encoding gives back every byte sequence, least significant byte first.
proof fn lemma_le_encode_decode(bytes: Seq<u8>)
    ensures
        le_bytes(le_value(bytes), bytes.len()) == bytes,
    decreases bytes.len(),
{
    if bytes.len() > 0 {
        let rest = bytes.drop_first();
        lemma_le_encode_decode(rest);
        assert(le_value(bytes) / 256 == le_value(rest));
        assert(le_value(bytes) % 256 == bytes[0] as nat);
        assert(seq![bytes[0]] + rest =~= bytes);
    }
    assert(le_bytes(le_value(bytes), bytes.len()) =~= bytes);
}

/// The spans of the widths that virtio uses.
pub proof fn lemma_byte_spans()
    ensures
        byte_span(1) == 0x100,
        byte_span(2) == 0x1_0000,
        byte_span(4) == 0x1_0000_0000,
        byte_span(8) == 0x1_0000_0000_0000_0000,
{
    reveal_with_fuel(byte_span, 9);
}

/// Reads the number that `bytes[start..end]` holds, least significant byte first.
fn decode_little(bytes: &Vec<u8>, start: usize, end: usize) -> (value: u64)
    requires
        start <= end <= bytes@.len(),
        end - start <= 8,
    ensures
        value == le_value(bytes@.subrange(start as int, end as int)),
{
    let mut value: u64 = 0;
    let mut i: usize = end;
    proof {
        assert(bytes@.subrange(end as int, end as int) =~= Seq::<u8>::empty());
        lemma_byte_spans();
    }
    while i > start
        invariant
            start <= i <= end <= bytes@.len(),
            end - start <= 8,
            value == le_value(bytes@.subrange(i as int, end as int)),
        decreases i,
    {
        let ghost rest = bytes@.subrange(i as int, end as int);
        i = i - 1;
        proof {
            let whole = bytes@.subrange(i as int, end as int);
            assert(whole.drop_first() =~= rest);
            lemma_le_value_bound(whole);
            lemma_span_mono(whole.len(), 8);
            lemma_byte_spans();
        }
        value = value * 256 + bytes[i] as u64;
    }
    value
}

/// A wider encoding has room for at least as many values.
proof fn lemma_span_mono(n: nat, m: nat)
    requires
        n <= m,
    ensures
        byte_span(n) <= byte_span(m),
        byte_span(n) >= 1,
    decreases m,
{
    if n < m {
        lemma_span_mono(n, (m - 1) as nat);
    } else if n > 0 {
        lemma_span_mono((n - 1) as nat, (m - 1) as nat);
    }
}

/// `bytes[start..end]` the other way round.
fn reversed(bytes: &Vec<u8>, start: usize, end: usize) -> (back: Vec<u8>)
    requires
        start <= end <= bytes@.len(),
    ensures
        back@ == bytes@.subrange(start as int, end as int).reverse(),
{
    let ghost whole = bytes@.subrange(start as int, end as int).reverse();
    let mut back: Vec<u8> = Vec::new();
    let mut i: usize = end;
    while i > start
        invariant
            start <= i <= end <= bytes@.len(),
            whole == bytes@.subrange(start as int, end as int).reverse(),
            back@ == whole.take(end - i),
        decreases i,
    {
        i = i - 1;
        back.push(bytes[i]);
        assert(back@ =~= whole.take(end - i));
    }
    assert(back@ =~= whole);
    back
}

/// Reads the number that `bytes[start..end]` holds.
pub fn decode(order: ByteOrder, bytes: &Vec<u8>, start: usize, end: usize) -> (number: u64)
    requires
        start <= end <= bytes@.len(),
        end - start <= 8,
    ensures
        number == value(order, bytes@.subrange(start as int, end as int)),
{
    match order {
        ByteOrder::Little => decode_little(bytes, start, end),
        ByteOrder::Big => {
            let back: Vec<u8> = reversed(bytes, start, end);
            assert(back@.subrange(0, end - start) =~= back@);
            decode_little(&back, 0, end - start)
        },
    }
}

/// Appends the `n` low bytes of `value`, least significant one first.
fn encode_little(bytes: &mut Vec<u8>, value: u64, n: usize)
    ensures
        final(bytes)@ == old(bytes)@ + le_bytes(value as nat, n as nat),
{
    let mut rest: u64 = value;
    let mut left: usize = n;
    proof {
        assert(old(bytes)@ + le_bytes(value as nat, n as nat) =~= bytes@ + le_bytes(
            rest as nat,
            left as nat,
        ));
    }
    while left > 0
        invariant
            old(bytes)@ + le_bytes(value as nat, n as nat) == bytes@ + le_bytes(
                rest as nat,
                left as nat,
            ),
        decreases left,
    {
        let ghost before = bytes@;
        let ghost whole = rest as nat;
        let low: u8 = (rest % 256) as u8;
        bytes.push(low);
        rest = rest / 256;
        left = left - 1;
        proof {
            assert(before + (seq![low] + le_bytes(rest as nat, left as nat)) =~= bytes@ + le_bytes(
                rest as nat,
                left as nat,
            ));
        }
    }
    proof {
        assert(bytes@ + Seq::<u8>::empty() =~= bytes@);
    }
}

/// The `n` low bytes of `number`.
pub fn encode(order: ByteOrder, number: u64, n: usize) -> (bytes: Vec<u8>)
    ensures
        bytes@ == encoded(order, number as nat, n as nat),
        bytes@.len() == n,
{
    let mut bytes: Vec<u8> = Vec::new();
    encode_little(&mut bytes, number, n);
    proof {
        lemma_le_bytes_len(number as nat, n as nat);
        assert(bytes@ =~= le_bytes(number as nat, n as nat));
        assert(bytes@.subrange(0, n as int) =~= bytes@);
    }
    match order {
        ByteOrder::Little => bytes,
        ByteOrder::Big => reversed(&bytes, 0, n),
    }
}

/// Appends the `n` low bytes of `number`.
pub fn encode_into(order: ByteOrder, bytes: &mut Vec<u8>, number: u64, n: usize)
    ensures
        final(bytes)@ == old(bytes)@ + encoded(order, number as nat, n as nat),
{
    let mut more: Vec<u8> = encode(order, number, n);
    bytes.append(&mut more);
}

/// The number that two bytes hold in the memory of this machine.
///
/// Calls `u16::from_ne_bytes`. Which of the two is the more significant byte is
/// not stated: it depends on the machine.
#[verifier::external_body]
fn from_ne_bytes(first: u8, second: u8) -> (number: u16)
    ensures
        number == first + 256 * second || number == 256 * first + second,
{
    u16::from_ne_bytes([first, second])
}

/// The byte order in which the bytes one and zero hold `pair`.
pub fn order_of(pair: u16) -> (order: ByteOrder)
    requires
        pair == 1 || pair == 256,
    ensures
        value(order, seq![1u8, 0u8]) == pair,
        order == if pair == 1 {
            ByteOrder::Little
        } else {
            ByteOrder::Big
        },
{
    proof {
        reveal_with_fuel(le_value, 3);
        assert(seq![1u8, 0u8].reverse() =~= seq![0u8, 1u8]);
        assert(seq![1u8, 0u8].drop_first() =~= seq![0u8]);
        assert(seq![0u8, 1u8].drop_first() =~= seq![1u8]);
    }
    if pair == 1 {
        ByteOrder::Little
    } else {
        ByteOrder::Big
    }
}

/// The byte order of this machine. Which one that is, is not stated: it depends
/// on the machine.
pub fn machine_order() -> ByteOrder {
    order_of(from_ne_bytes(1, 0))
}

/// The remainder is the one number below the divisor that differs from the dividend
/// by a multiple of it.
pub proof fn lemma_remainder(a: int, e: int, n: int)
    requires
        0 <= e < n,
        (a - e) % n == 0,
    ensures
        a % n == e,
{
    vstd::arithmetic::div_mod::lemma_fundamental_div_mod(a - e, n);
    vstd::arithmetic::div_mod::lemma_fundamental_div_mod_converse(a, n, (a - e) / n, e);
}

} // verus!
