//! Integers out of raw bytes.
use vstd::prelude::*;

verus! {

/// The order in which the bytes of an integer are stored.
#[derive(Clone, Copy, Debug, PartialEq, Eq, Structural)]
pub enum ByteOrder {
    Little,
    Big,
}

/// What `u16::from_ne_bytes` of std makes of two bytes: whichever of the two orders the
/// machine has, the result is the integer those bytes spell in that order.
#[verifier::external_body]
pub(crate) fn native_u16(first: u8, second: u8) -> (r: u16)
    ensures
        r == first + 256 * second || r == 256 * first + second,
{
    u16::from_ne_bytes([first, second])
}

/// Whether this is the byte order of the machine: the bytes one and zero spell in this order the
/// integer that the machine makes of them.
pub closed spec fn native_order(order: ByteOrder) -> bool {
    exists|n: u16| #[trigger]
        call_ensures(native_u16, (1u8, 0u8), n) && n == spelled(seq![1u8, 0u8], order)
}

impl ByteOrder {
    /// The byte order of this machine. Which one that is depends on the machine.
    pub(crate) fn native() -> (r: ByteOrder)
        ensures
            native_order(r),
    {
        let n: u16 = native_u16(1, 0);
        let r = if n == 1 {
            ByteOrder::Little
        } else {
            ByteOrder::Big
        };
        proof {
            lemma_sample_spelled();
        }
        assert(call_ensures(native_u16, (1u8, 0u8), n));
        r
    }
}

/// The number spelled by bytes of which the first is the most significant.
pub open spec fn big_endian(s: Seq<u8>) -> nat
    decreases s.len(),
{
    if s.len() == 0 {
        0
    } else {
        big_endian(s.drop_last()) * 256 + s.last() as nat
    }
}

/// The number spelled by bytes in a given order.
pub open spec fn spelled(s: Seq<u8>, order: ByteOrder) -> nat {
    match order {
        ByteOrder::Big => big_endian(s),
        ByteOrder::Little => big_endian(s.reverse()),
    }
}

proof fn lemma_sample_spelled()
    ensures
        spelled(seq![1u8, 0u8], ByteOrder::Little) == 1,
        spelled(seq![1u8, 0u8], ByteOrder::Big) == 256,
{
    reveal_with_fuel(big_endian, 3);
    let s = seq![1u8, 0u8];
    assert(s.drop_last() =~= seq![1u8]);
    assert(seq![1u8].drop_last() =~= Seq::<u8>::empty());
    assert(s.reverse() =~= seq![0u8, 1u8]);
    assert(seq![0u8, 1u8].drop_last() =~= seq![0u8]);
    assert(seq![0u8].drop_last() =~= Seq::<u8>::empty());
}

/// The `i`-th of the integers, `width` bytes each, that `s` is made of.
pub open spec fn unit(s: Seq<u8>, order: ByteOrder, i: int, width: int) -> nat {
    spelled(s.subrange(i * width, i * width + width), order)
}

/// The size of an address.
pub open spec fn word_size_spec() -> usize {
    if usize::BITS == 32 {
        4
    } else {
        8
    }
}

/// The size of an address.
#[verifier::when_used_as_spec(word_size_spec)]
pub fn word_size() -> (r: usize)
    ensures
        r == word_size_spec(),
{
    if usize::BITS == 32 {
        4
    } else {
        8
    }
}

/// One more than the largest number that `k` bytes can spell.
pub open spec fn span(k: nat) -> nat
    decreases k,
{
    if k == 0 {
        1
    } else {
        256 * span((k - 1) as nat)
    }
}

proof fn lemma_spans()
    ensures
        span(0) == 1,
        span(1) == 0x100,
        span(2) == 0x1_0000,
        span(3) == 0x100_0000,
        span(4) == 0x1_0000_0000,
        span(5) == 0x100_0000_0000,
        span(6) == 0x1_0000_0000_0000,
        span(7) == 0x100_0000_0000_0000,
        span(8) == 0x1_0000_0000_0000_0000,
{
    reveal_with_fuel(span, 9);
}

proof fn lemma_big_endian_bound(s: Seq<u8>)
    ensures
        big_endian(s) < span(s.len()),
    decreases s.len(),
{
    if s.len() > 0 {
        lemma_big_endian_bound(s.drop_last());
    }
}

/// Bytes spell a number that an integer of the same size can hold.
pub proof fn lemma_spelled_bound(s: Seq<u8>, order: ByteOrder)
    ensures
        s.len() == 1 ==> spelled(s, order) < 0x100,
        s.len() == 2 ==> spelled(s, order) < 0x1_0000,
        s.len() == 4 ==> spelled(s, order) < 0x1_0000_0000,
        s.len() == 8 ==> spelled(s, order) < 0x1_0000_0000_0000_0000,
{
    lemma_spans();
    lemma_big_endian_bound(s);
    lemma_big_endian_bound(s.reverse());
}

/// Bytes copied out of a target process, with the order its integers are stored in.
#[derive(Debug)]
pub struct Copied {
    pub data: Vec<u8>,
    pub order: ByteOrder,
}

impl View for Copied {
    type V = (Seq<u8>, ByteOrder);

    open spec fn view(&self) -> (Seq<u8>, ByteOrder) {
        (self.data@, self.order)
    }
}

impl Copied {
    /// The `i`-th of the integers, `width` bytes each, that these bytes are made of.
    pub fn unit(&self, i: usize, width: usize) -> (r: u64)
        requires
            1 <= width <= 8,
            (i + 1) * width <= self.data@.len(),
        ensures
            r == unit(self.data@, self.order, i as int, width as int),
    {
        let total: usize = self.data.len();
        assert(i * width + width == (i + 1) * width) by (nonlinear_arith);
        let start: usize = i * width;
        let ghost s = self.data@.subrange(start as int, start + width);
        let ghost t = match self.order {
            ByteOrder::Big => s,
            ByteOrder::Little => s.reverse(),
        };
        let mut acc: u64 = 0;
        let mut k: usize = 0;
        while k < width
            invariant
                k <= width <= 8,
                start + width <= total == self.data@.len(),
                s == self.data@.subrange(start as int, start + width),
                t == (match self.order {
                    ByteOrder::Big => s,
                    ByteOrder::Little => s.reverse(),
                }),
                acc == big_endian(t.take(k as int)),
            decreases width - k,
        {
            let byte: u8 = match self.order {
                ByteOrder::Big => self.data[start + k],
                ByteOrder::Little => self.data[start + (width - 1 - k)],
            };
            proof {
                assert(t[k as int] == byte);
                assert(t.take(k + 1).drop_last() =~= t.take(k as int));
                assert(t.take(k + 1).last() == byte);
                lemma_big_endian_bound(t.take(k + 1));
                lemma_spans();
            }
            acc = acc * 256 + byte as u64;
            k = k + 1;
        }
        proof {
            assert(t.take(width as int) =~= t);
        }
        acc
    }
}

/// The bytes that spell `n`, `width` of them, the most significant first.
pub open spec fn big_endian_bytes(n: nat, width: nat) -> Seq<u8>
    decreases width,
{
    if width == 0 {
        Seq::empty()
    } else {
        big_endian_bytes(n / 256, (width - 1) as nat).push((n % 256) as u8)
    }
}

/// The bytes that spell `n`, `width` of them, in a given order.
pub open spec fn written(n: nat, width: nat, order: ByteOrder) -> Seq<u8> {
    match order {
        ByteOrder::Big => big_endian_bytes(n, width),
        ByteOrder::Little => big_endian_bytes(n, width).reverse(),
    }
}

proof fn lemma_big_endian_bytes(n: nat, width: nat)
    requires
        n < span(width),
    ensures
        big_endian_bytes(n, width).len() == width,
        big_endian(big_endian_bytes(n, width)) == n,
    decreases width,
{
    if width > 0 {
        let rest = big_endian_bytes(n / 256, (width - 1) as nat);
        lemma_big_endian_bytes(n / 256, (width - 1) as nat);
        assert(rest.push((n % 256) as u8).drop_last() =~= rest);
    }
}

/// A number that was written in `width` bytes is spelled by them.
pub proof fn law_written_reads_back(n: nat, width: nat, order: ByteOrder)
    requires
        n < span(width),
    ensures
        written(n, width, order).len() == width,
        spelled(written(n, width, order), order) == n,
{
    lemma_big_endian_bytes(n, width);
    assert(big_endian_bytes(n, width).reverse().reverse() =~= big_endian_bytes(n, width));
}

/// Integers of `width` bytes each, one behind the other.
pub open spec fn packed(units: Seq<nat>, width: nat, order: ByteOrder) -> Seq<u8>
    decreases units.len(),
{
    if units.len() == 0 {
        Seq::empty()
    } else {
        packed(units.drop_last(), width, order) + written(units.last(), width, order)
    }
}

/// Integers that were packed one behind the other are read back one by one.
pub proof fn law_packed_reads_back(units: Seq<nat>, width: nat, order: ByteOrder)
    requires
        forall|i: int| 0 <= i < units.len() ==> #[trigger] units[i] < span(width),
    ensures
        packed(units, width, order).len() == units.len() * width,
        forall|i: int|
            0 <= i < units.len() ==> #[trigger] unit(packed(units, width, order), order, i, width as int)
                == units[i],
    decreases units.len(),
{
    if units.len() > 0 {
        let init = units.drop_last();
        let head = packed(init, width, order);
        let tail = written(units.last(), width, order);
        let all = packed(units, width, order);
        let n = init.len();
        law_packed_reads_back(init, width, order);
        law_written_reads_back(units.last(), width, order);
        assert((n + 1) * width == n * width + width) by (nonlinear_arith);
        assert forall|i: int| 0 <= i < units.len() implies #[trigger] unit(all, order, i, width as int)
            == units[i] by {
            if i == n {
                assert(all.subrange(i * width, i * width + width) =~= tail);
            } else {
                assert(i * width + width <= n * width) by (nonlinear_arith)
                    requires
                        0 <= i < n,
                ;
                assert(0 <= i * width) by (nonlinear_arith)
                    requires
                        0 <= i,
                ;
                assert(all.subrange(i * width, i * width + width) =~= head.subrange(
                    i * width,
                    i * width + width,
                ));
                assert(unit(head, order, i, width as int) == init[i]);
            }
        }
    }
}

} // verus!
