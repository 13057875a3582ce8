//! What strings, integers and dictionaries come to, said of the structures that were read.
use vstd::prelude::*;
#[allow(unused_imports)]
use vstd::arithmetic::div_mod::lemma_small_mod;
#[allow(unused_imports)]
use vstd::arithmetic::power2::pow2;

#[allow(unused_imports)]
use crate::bytes::{unit, word_size, ByteOrder};
#[allow(unused_imports)]
use crate::error::Cause;
#[allow(unused_imports)]
use crate::objects::{
    Bindings, BytesObject, DictEntry, DictObject, HeapType, IntObject, LogKeys, LongObject, SizedKeys,
    StringObject, TaggedLong,
};
#[allow(unused_imports)]
use crate::python_data_access::{
    bytes_run, dict_run, int_run, long_run, managed_dict_run, next_run, string_run, DictIterator,
};
#[allow(unused_imports)]
use crate::strings::decoded;
#[allow(unused_imports)]
use crate::target::{block_at, bytes_at, done, failed, struct_at, word_at, Event, Run};
#[allow(unused_imports)]
use crate::version::Version;

verus! {

/// A product that fits does not wrap.
pub proof fn lemma_product_fits(a: usize, b: usize)
    requires
        a * b <= usize::MAX,
    ensures
        a.wrapping_mul(b) == a * b,
{
    assert(0 <= a * b) by (nonlinear_arith);
    lemma_small_mod((a as nat) * (b as nat), (usize::MAX - usize::MIN + 1) as nat);
}

/// Copying a string reads its head and then, from the address in it, as many units as it says of as
/// many bytes as it says. What comes out is what those bytes come to, or why they could not be read.
pub proof fn law_string_reads(
    l: Seq<Event>,
    p: int,
    bindings: Bindings,
    ptr: usize,
    check_utf8: bool,
    obj: StringObject,
)
    requires
        struct_at::<StringObject>(l, p, bindings, ptr) == done(obj, p + 1),
        obj.size * obj.kind <= usize::MAX,
    ensures
        ({
            let run = string_run(l, p, bindings, ptr, check_utf8);
            let body = bytes_at(l, p + 1, obj.address, (obj.size * obj.kind) as usize);
            &&& obj.size == 0 ==> run == done(Seq::<char>::empty(), p + 1)
            &&& 1 <= obj.size <= 4095 ==> match body.out {
                Ok((data, order)) => {
                    &&& run.next == body.next
                    &&& match decoded(obj.kind, obj.ascii, data, order, check_utf8) {
                        Ok(text) => run.out == Ok::<Seq<char>, Seq<Cause>>(text),
                        Err(cause) => run.out == Err::<Seq<char>, Seq<Cause>>(seq![cause]),
                    }
                },
                Err(causes) => run == failed::<Seq<char>>(causes, body.next),
            }
            &&& obj.size >= 4096 ==> run == failed::<Seq<char>>(
                seq![Cause::StringTooLong(obj.size)],
                p + 1,
            )
        }),
{
    lemma_product_fits(obj.size, obj.kind as usize);
}

/// A string whose head cannot be read fails as that read did.
pub proof fn law_string_head_fails(
    l: Seq<Event>,
    p: int,
    bindings: Bindings,
    ptr: usize,
    check_utf8: bool,
)
    ensures
        struct_at::<StringObject>(l, p, bindings, ptr).out matches Err(causes) ==> string_run(
            l,
            p,
            bindings,
            ptr,
            check_utf8,
        ).out == Err::<Seq<char>, Seq<Cause>>(causes),
        struct_at::<BytesObject>(l, p, bindings, ptr).out matches Err(causes) ==> bytes_run(
            l,
            p,
            bindings,
            ptr,
        ).out == Err::<Seq<u8>, Seq<Cause>>(causes),
{
}

/// Copying bytes reads their head and then, from the address in it, as many as it says.
pub proof fn law_bytes_reads(l: Seq<Event>, p: int, bindings: Bindings, ptr: usize, obj: BytesObject)
    requires
        struct_at::<BytesObject>(l, p, bindings, ptr) == done(obj, p + 1),
    ensures
        ({
            let run = bytes_run(l, p, bindings, ptr);
            let body = bytes_at(l, p + 1, obj.address, obj.size);
            &&& obj.size <= 65535 ==> match body.out {
                Ok((data, _)) => run == done(data, body.next),
                Err(causes) => run == failed::<Seq<u8>>(causes, body.next),
            }
            &&& obj.size >= 65536 ==> run == failed::<Seq<u8>>(
                seq![Cause::BytesTooLong(obj.size)],
                p + 1,
            )
        }),
{
}

/// Whether integers are stored with a tag.
pub open spec fn is_3_12_to_3_14(version: &Version) -> bool {
    version.major == 3 && (version.minor == 12 || version.minor == 13 || version.minor == 14)
}

/// The sum of the digits of an integer by their powers, as they stand behind one another in eight
/// bytes: two of thirty bits, or on a 32 bit machine up to four of fifteen bits.
pub open spec fn digit_sum(data: Seq<u8>, order: ByteOrder, count: int) -> nat {
    if usize::BITS == 64 {
        unit(data, order, 0, 4) + unit(data, order, 1, 4) * pow2(30)
    } else {
        unit(data, order, 0, 2) + unit(data, order, 1, 2) * pow2(15) + (if count >= 3 {
            unit(data, order, 2, 2) * pow2(30)
        } else {
            0
        }) + (if count >= 4 {
            unit(data, order, 3, 2) * pow2(45)
        } else {
            0
        })
    }
}

/// Whether `run` is what an integer of `count` digits comes to, given its sign, its lowest digit and
/// the read of its digits: zero without digits, its only digit with the sign, the sum of its digits
/// by their powers while these are at most sixty bits, and otherwise their number, marked as an
/// overflow.
pub open spec fn is_long_value(
    run: Run<(i64, bool)>,
    next: int,
    count: int,
    sign: int,
    digit: u32,
    digits: Run<(Seq<u8>, ByteOrder)>,
) -> bool {
    let most: int = if usize::BITS == 64 {
        2
    } else {
        4
    };
    if count == 0 {
        run == done((0i64, false), next)
    } else if count == 1 {
        &&& run.next == next
        &&& run.out is Ok
        &&& run.out->Ok_0.0 == sign * digit
        &&& !run.out->Ok_0.1
    } else if count <= most {
        &&& run.next == digits.next
        &&& match digits.out {
            Err(causes) => run.out == Err::<(i64, bool), Seq<Cause>>(causes),
            Ok((data, order)) => {
                &&& run.out is Ok
                &&& run.out->Ok_0.0 == sign * digit_sum(data, order, count)
                &&& !run.out->Ok_0.1
            },
        }
    } else {
        run == done((count as usize as i64, true), next)
    }
}

/// Whether the digits of an integer start at `at`: they take the last eight bytes of its structure,
/// or on a 32 bit machine start four bytes before its end.
pub open spec fn digits_start(addr: usize, size: usize, at: usize) -> bool {
    at == addr + size - (if usize::BITS == 64 {
        8int
    } else {
        4int
    })
}

proof fn lemma_powers()
    ensures
        pow2(15) == 0x8000,
        pow2(30) == 0x4000_0000,
        pow2(45) == 0x2000_0000_0000,
{
    vstd::arithmetic::power2::lemma2_to64();
    vstd::arithmetic::power2::lemma2_to64_rest();
}

proof fn lemma_unit_bounds(data: Seq<u8>, order: ByteOrder)
    requires
        data.len() == 8,
    ensures
        unit(data, order, 0, 4) < 0x1_0000_0000,
        unit(data, order, 1, 4) < 0x1_0000_0000,
        unit(data, order, 0, 2) < 0x1_0000,
        unit(data, order, 1, 2) < 0x1_0000,
        unit(data, order, 2, 2) < 0x1_0000,
        unit(data, order, 3, 2) < 0x1_0000,
{
    crate::bytes::lemma_spelled_bound(data.subrange(0int * 4, 0int * 4 + 4), order);
    crate::bytes::lemma_spelled_bound(data.subrange(1int * 4, 1int * 4 + 4), order);
    crate::bytes::lemma_spelled_bound(data.subrange(0int * 2, 0int * 2 + 2), order);
    crate::bytes::lemma_spelled_bound(data.subrange(1int * 2, 1int * 2 + 2), order);
    crate::bytes::lemma_spelled_bound(data.subrange(2int * 2, 2int * 2 + 2), order);
    crate::bytes::lemma_spelled_bound(data.subrange(3int * 2, 3int * 2 + 2), order);
}

/// An integer of Python 3.12 to 3.14, by its tag: the number of digits is the tag without its three
/// lowest bits, and the number is negative where the two lowest bits are two.
pub proof fn law_tagged_integers(
    l: Seq<Event>,
    p: int,
    version: &Version,
    addr: usize,
    obj: TaggedLong,
    count: nat,
    bits: nat,
    at: usize,
)
    requires
        is_3_12_to_3_14(version),
        struct_at::<TaggedLong>(l, p, Bindings::V3_12_0, addr) == done(obj, p + 1),
        obj.lv_tag == 8 * count + bits,
        bits < 8,
        digits_start(addr, obj.size, at),
    ensures
        is_long_value(
            long_run(l, p, version, addr),
            p + 1,
            count as int,
            if bits == 2 || bits == 6 {
                -1
            } else {
                1
            },
            obj.digit,
            block_at(l, p + 1, at, 8),
        ),
{
    lemma_powers();
    assert(obj.lv_tag / 8 == count);
    assert(obj.lv_tag % 4 == bits % 4);
    if let Ok((data, order)) = block_at(l, p + 1, at, 8).out {
        lemma_unit_bounds(data, order);
    }
}

/// An integer of any other version, by its signed number of digits.
pub proof fn law_signed_integers(
    l: Seq<Event>,
    p: int,
    version: &Version,
    addr: usize,
    obj: LongObject,
    count: nat,
    at: usize,
)
    requires
        !is_3_12_to_3_14(version),
        struct_at::<LongObject>(l, p, Bindings::V3_7_0, addr) == done(obj, p + 1),
        obj.ob_size == count || obj.ob_size == -count,
        digits_start(addr, obj.size, at),
    ensures
        is_long_value(
            long_run(l, p, version, addr),
            p + 1,
            count as int,
            if obj.ob_size < 0 {
                -1
            } else {
                1
            },
            obj.digit,
            block_at(l, p + 1, at, 8),
        ),
{
    lemma_powers();
    if let Ok((data, order)) = block_at(l, p + 1, at, 8).out {
        lemma_unit_bounds(data, order);
    }
}

/// An integer of Python 2 is what its structure holds.
pub proof fn law_python2_integers(l: Seq<Event>, p: int, addr: usize, obj: IntObject)
    requires
        struct_at::<IntObject>(l, p, Bindings::V2_7_15, addr) == done(obj, p + 1),
    ensures
        int_run(l, p, addr) == done(obj.ob_ival, p + 1),
{
}

/// An integer whose structure cannot be read fails as that read did.
pub proof fn law_integer_reads_fail(l: Seq<Event>, p: int, version: &Version, addr: usize)
    ensures
        is_3_12_to_3_14(version) ==> (struct_at::<TaggedLong>(
            l,
            p,
            Bindings::V3_12_0,
            addr,
        ).out matches Err(causes) ==> long_run(l, p, version, addr).out == Err::<
            (i64, bool),
            Seq<Cause>,
        >(causes)),
        !is_3_12_to_3_14(version) ==> (struct_at::<LongObject>(
            l,
            p,
            Bindings::V3_7_0,
            addr,
        ).out matches Err(causes) ==> long_run(l, p, version, addr).out == Err::<
            (i64, bool),
            Seq<Cause>,
        >(causes)),
        struct_at::<IntObject>(l, p, Bindings::V2_7_15, addr).out matches Err(causes) ==> int_run(
            l,
            p,
            addr,
        ).out == Err::<i64, Seq<Cause>>(causes),
{
}

proof fn lemma_shift_is_power(n: u8)
    requires
        n < usize::BITS,
    ensures
        1usize.wrapping_shl(n as u32) == pow2(n as nat),
        pow2(n as nat) <= usize::MAX,
{
    vstd::bits::lemma_usize_pow2_no_overflow(n as nat);
    vstd::bits::lemma_usize_shl_is_mul(1, n as usize);
    assert(1usize << ((n as u32) % usize::BITS) == 1usize << (n as usize)) by {
        assert((n as u32) % usize::BITS == n as u32);
    }
}

/// The dictionaries of Python 3.11 to 3.14: behind the head of the key table stands an index of
/// 2^n bytes, and behind it the entries. The iteration starts at the first of as many entries as the
/// table has, with the values where the dictionary says.
pub proof fn law_dictionaries_since_3_11(
    l: Seq<Event>,
    p: int,
    version: &Version,
    addr: usize,
    dict: DictObject,
    keys: LogKeys,
    start: usize,
)
    requires
        version.major == 3,
        11 <= version.minor <= 14,
        struct_at::<DictObject>(l, p, Bindings::V3_11_0, addr) == done(dict, p + 1),
        struct_at::<LogKeys>(l, p + 1, Bindings::V3_11_0, dict.ma_keys) == done(keys, p + 2),
        keys.dk_log2_index_bytes < usize::BITS,
        keys.dk_nentries >= 0,
        start == dict.ma_keys + pow2(keys.dk_log2_index_bytes as nat) + keys.size,
    ensures
        ({
            let run = dict_run(l, p, version, addr);
            &&& run.next == p + 2
            &&& run.out matches Ok(it)
            &&& it.entries_addr == start
            &&& it.index == 0
            &&& it.entries == keys.dk_nentries
            &&& it.values == dict.ma_values
            &&& it.kind == keys.dk_kind
        }),
{
    lemma_shift_is_power(keys.dk_log2_index_bytes);
}

/// The dictionaries of all other versions: the index has as many slots as the table says, of the
/// fewest bytes, one, two, four or eight, that can count them, and the entries store hashes.
pub proof fn law_dictionaries_before_3_11(
    l: Seq<Event>,
    p: int,
    version: &Version,
    addr: usize,
    dict: DictObject,
    keys: SizedKeys,
    width: nat,
    start: usize,
)
    requires
        version.major != 3 || version.minor < 11 || version.minor > 14,
        struct_at::<DictObject>(l, p, Bindings::V3_7_0, addr) == done(dict, p + 1),
        struct_at::<SizedKeys>(l, p + 1, Bindings::V3_7_0, dict.ma_keys) == done(keys, p + 2),
        keys.dk_size >= 0,
        keys.dk_nentries >= 0,
        width == 1 || width == 2 || width == 4 || width == 8,
        keys.dk_size < pow2(8 * width),
        width > 1 ==> keys.dk_size >= pow2((8 * width / 2) as nat),
        keys.dk_size * width <= isize::MAX,
        start == dict.ma_keys + keys.dk_size * width + keys.size,
    ensures
        ({
            let run = dict_run(l, p, version, addr);
            &&& run.next == p + 2
            &&& run.out matches Ok(it)
            &&& it.entries_addr == start
            &&& it.index == 0
            &&& it.entries == keys.dk_nentries
            &&& it.values == dict.ma_values
            &&& it.kind == 0
        }),
{
    vstd::arithmetic::power2::lemma2_to64();
    vstd::arithmetic::power2::lemma2_to64_rest();
    let size = keys.dk_size;
    let slot = crate::python_data_access::index_slot_size(size);
    assert(slot == width);
    assert(size * slot >= 0) by (nonlinear_arith)
        requires
            size >= 0,
            slot >= 0,
    ;
    lemma_small_mod((size * slot) as nat, (usize::MAX - usize::MIN + 1) as nat);
    assert(size.wrapping_mul(slot) == size * slot);
}

/// A dictionary whose head or key table cannot be read fails as that read did.
pub proof fn law_dictionary_reads_fail(
    l: Seq<Event>,
    p: int,
    version: &Version,
    addr: usize,
    dict: DictObject,
)
    ensures
        ({
            let recent = version.major == 3 && 11 <= version.minor <= 14;
            let bindings = if recent {
                Bindings::V3_11_0
            } else {
                Bindings::V3_7_0
            };
            let head = struct_at::<DictObject>(l, p, bindings, addr);
            let run = dict_run(l, p, version, addr);
            &&& head.out matches Err(causes) ==> run == failed::<DictIterator>(causes, head.next)
            &&& head == done(dict, p + 1) && recent ==> (struct_at::<LogKeys>(
                l,
                p + 1,
                bindings,
                dict.ma_keys,
            ).out matches Err(causes) ==> run.out == Err::<DictIterator, Seq<Cause>>(causes))
            &&& head == done(dict, p + 1) && !recent ==> (struct_at::<SizedKeys>(
                l,
                p + 1,
                bindings,
                dict.ma_keys,
            ).out matches Err(causes) ==> run.out == Err::<DictIterator, Seq<Cause>>(causes))
        }),
{
}

/// The entry that comes next stands behind those before it, each of two words, or of three where
/// the entries store hashes. One without a key is passed over. Otherwise its key comes out, with the
/// value in the entry, or with the word at its place among values kept elsewhere.
pub proof fn law_next_entry(
    l: Seq<Event>,
    p: int,
    it: DictIterator,
    at: usize,
    place: usize,
    entry: DictEntry,
)
    requires
        it.index < it.entries,
        at == it.entries_addr + it.index * (if it.kind == 0 {
            3int
        } else {
            2int
        }) * (usize::BITS / 8),
        it.values != 0 ==> place == it.values + it.index * (usize::BITS / 8),
        struct_at::<DictEntry>(
            l,
            p,
            if it.kind == 0 {
                Bindings::V3_7_0
            } else {
                Bindings::V3_11_0
            },
            at,
        ) == done(entry, p + 1),
    ensures
        ({
            let (item, rest) = next_run(l, p, it);
            let further = DictIterator {
                entries_addr: it.entries_addr,
                kind: it.kind,
                index: (it.index + 1) as usize,
                entries: it.entries,
                values: it.values,
            };
            &&& entry.me_key == 0 ==> (item, rest) == next_run(l, p + 1, further)
            &&& entry.me_key != 0 && it.values == 0 ==> (item, rest) == (
                done(Some((entry.me_key, entry.me_value)), p + 1),
                further,
            )
            &&& entry.me_key != 0 && it.values != 0 ==> {
                let value = word_at(l, p + 1, place);
                &&& rest == further
                &&& item.next == value.next
                &&& match value.out {
                    Ok(word) => item.out == Ok::<Option<(usize, usize)>, Seq<Cause>>(
                        Some((entry.me_key, word)),
                    ),
                    Err(causes) => item.out == Err::<Option<(usize, usize)>, Seq<Cause>>(causes),
                }
            }
        }),
{
    lemma_entry_place(it, at);
    if it.values != 0 {
        let i = it.index as int;
        let w = word_size() as int;
        assert(0 <= i * w) by (nonlinear_arith)
            requires
                0 <= i,
                0 <= w,
        ;
        lemma_product_fits(it.index, word_size());
    }
}

proof fn lemma_entry_place(it: DictIterator, at: usize)
    requires
        at == it.entries_addr + it.index * (if it.kind == 0 {
            3int
        } else {
            2int
        }) * (usize::BITS / 8),
    ensures
        it.kind == 0 ==> it.index.wrapping_mul(3usize.wrapping_mul(word_size())).wrapping_add(
            it.entries_addr,
        ) == at,
        it.kind != 0 ==> it.index.wrapping_mul(2usize.wrapping_mul(word_size())).wrapping_add(
            it.entries_addr,
        ) == at,
{
    let i = it.index as int;
    let w = word_size() as int;
    let k: int = if it.kind == 0 {
        3
    } else {
        2
    };
    assert(i * k * w == i * (k * w)) by (nonlinear_arith);
    assert(0 <= i * (k * w)) by (nonlinear_arith)
        requires
            0 <= i,
            0 <= k,
            0 <= w,
    ;
    lemma_product_fits(3, word_size());
    lemma_product_fits(2, word_size());
    lemma_product_fits(it.index, (k * w) as usize);
}

/// An entry that cannot be read is passed over with the failure of that read.
pub proof fn law_next_entry_fails(l: Seq<Event>, p: int, it: DictIterator, at: usize)
    requires
        it.index < it.entries,
        at == it.entries_addr + it.index * (if it.kind == 0 {
            3int
        } else {
            2int
        }) * (usize::BITS / 8),
    ensures
        ({
            let read = struct_at::<DictEntry>(
                l,
                p,
                if it.kind == 0 {
                    Bindings::V3_7_0
                } else {
                    Bindings::V3_11_0
                },
                at,
            );
            let (item, rest) = next_run(l, p, it);
            read.out matches Err(causes) ==> {
                &&& item == failed::<Option<(usize, usize)>>(causes, read.next)
                &&& rest.index == it.index + 1
                &&& rest.entries == it.entries
                &&& rest.entries_addr == it.entries_addr
                &&& rest.kind == it.kind
                &&& rest.values == it.values
            }
        }),
{
    lemma_entry_place(it, at);
}

/// An iterator that passed all entries gives nothing, reads nothing and stays as it is.
pub proof fn law_iterator_ends(l: Seq<Event>, p: int, it: DictIterator)
    requires
        it.index >= it.entries,
    ensures
        next_run(l, p, it) == (done(None::<(usize, usize)>, p), it),
{
}

/// The attributes of an object with a managed dictionary: the word four words in front of it is the
/// address of its values, the word three in front that of its dictionary. In Python 3.12 the latter
/// alone counts, for the address of a dictionary where it is even, and one less than that of values
/// where it is odd. Without values the attributes are those of the dictionary, and with neither
/// there are none.
pub proof fn law_managed_dictionaries(
    l: Seq<Event>,
    p: int,
    version: &Version,
    addr: usize,
    tp_addr: usize,
    flags: usize,
    first: usize,
    second: usize,
    values: usize,
    dict: usize,
)
    requires
        addr >= 4 * (usize::BITS / 8),
        word_at(l, p, (addr - 4 * (usize::BITS / 8)) as usize) == done(first, p + 1),
        word_at(l, p + 1, (addr - 3 * (usize::BITS / 8)) as usize) == done(second, p + 2),
        version.major == 3 && version.minor == 12 ==> {
            if second % 2 == 0 {
                values == 0 && dict == second
            } else {
                values == second + 1 && dict == 0
            }
        },
        !(version.major == 3 && version.minor == 12) ==> values == first && dict == second,
    ensures
        ({
            let run = managed_dict_run(l, p, version, addr, tp_addr, flags);
            &&& values == 0 && dict != 0 ==> run == dict_run(l, p + 2, version, dict)
            &&& values == 0 && dict == 0 ==> run == failed::<DictIterator>(
                seq![Cause::Message("neither values or dict is set in managed dict")],
                p + 2,
            )
            &&& values != 0 ==> ({
                let bindings = if version.major == 3 && version.minor >= 12 {
                    Bindings::V3_12_0
                } else {
                    Bindings::V3_11_0
                };
                let heap_type = struct_at::<HeapType>(l, p + 2, bindings, tp_addr);
                &&& heap_type.out matches Err(causes) ==> run.out == Err::<DictIterator, Seq<Cause>>(
                    causes,
                )
            })
        }),
{
    lemma_product_fits(4, word_size());
    lemma_product_fits(3, word_size());
}

/// Where an object with a managed dictionary has values, the keys are those that its type caches,
/// and the values stand where the object says or, where they are inline, behind its two words of
/// head and one of bookkeeping.
pub proof fn law_managed_values(
    l: Seq<Event>,
    p: int,
    version: &Version,
    addr: usize,
    tp_addr: usize,
    flags: usize,
    first: usize,
    second: usize,
    values: usize,
    heap_type: HeapType,
    keys: LogKeys,
    start: usize,
)
    requires
        4 * (usize::BITS / 8) <= addr <= usize::MAX - 3 * (usize::BITS / 8),
        word_at(l, p, (addr - 4 * (usize::BITS / 8)) as usize) == done(first, p + 1),
        word_at(l, p + 1, (addr - 3 * (usize::BITS / 8)) as usize) == done(second, p + 2),
        version.major == 3 && version.minor == 12 ==> second % 2 == 1 && values == second + 1,
        !(version.major == 3 && version.minor == 12) ==> values == first,
        values != 0,
        struct_at::<HeapType>(
            l,
            p + 2,
            if version.major == 3 && version.minor >= 12 {
                Bindings::V3_12_0
            } else {
                Bindings::V3_11_0
            },
            tp_addr,
        ) == done(heap_type, p + 3),
        struct_at::<LogKeys>(l, p + 3, Bindings::V3_12_0, heap_type.ht_cached_keys) == done(
            keys,
            p + 4,
        ),
        keys.dk_log2_index_bytes < usize::BITS,
        keys.dk_nentries >= 0,
        start == heap_type.ht_cached_keys + pow2(keys.dk_log2_index_bytes as nat) + keys.size,
    ensures
        ({
            let run = managed_dict_run(l, p, version, addr, tp_addr, flags);
            &&& run.next == p + 4
            &&& run.out matches Ok(it)
            &&& it.entries_addr == start
            &&& it.index == 0
            &&& it.entries == keys.dk_nentries
            &&& it.kind == keys.dk_kind
            &&& flags & 4 == 0 ==> it.values == values
            &&& flags & 4 != 0 ==> it.values == addr + 3 * (usize::BITS / 8)
        }),
{
    lemma_product_fits(4, word_size());
    lemma_product_fits(3, word_size());
    lemma_product_fits(2, word_size());
    lemma_shift_is_power(keys.dk_log2_index_bytes);
}

/// The attributes of an object with a managed dictionary fail where one of the two words in front of
/// it, its type or the keys that its type caches cannot be read.
pub proof fn law_managed_reads_fail(
    l: Seq<Event>,
    p: int,
    version: &Version,
    addr: usize,
    tp_addr: usize,
    flags: usize,
    first: usize,
    second: usize,
    values: usize,
    heap_type: HeapType,
)
    requires
        addr >= 4 * (usize::BITS / 8),
        version.major == 3 && version.minor == 12 ==> second % 2 == 1 && values == second + 1,
        !(version.major == 3 && version.minor == 12) ==> values == first,
        values != 0,
    ensures
        ({
            let run = managed_dict_run(l, p, version, addr, tp_addr, flags);
            let front = word_at(l, p, (addr - 4 * (usize::BITS / 8)) as usize);
            let back = word_at(l, p + 1, (addr - 3 * (usize::BITS / 8)) as usize);
            let bindings = if version.major == 3 && version.minor >= 12 {
                Bindings::V3_12_0
            } else {
                Bindings::V3_11_0
            };
            let class = struct_at::<HeapType>(l, p + 2, bindings, tp_addr);
            let keys = struct_at::<LogKeys>(l, p + 3, Bindings::V3_12_0, heap_type.ht_cached_keys);
            &&& front.out matches Err(causes) ==> run.out == Err::<DictIterator, Seq<Cause>>(causes)
            &&& front == done(first, p + 1) ==> (back.out matches Err(causes) ==> run.out == Err::<
                DictIterator,
                Seq<Cause>,
            >(causes))
            &&& front == done(first, p + 1) && back == done(second, p + 2) ==> {
                &&& class.out matches Err(causes) ==> run.out == Err::<DictIterator, Seq<Cause>>(
                    causes,
                )
                &&& class == done(heap_type, p + 3) ==> (keys.out matches Err(causes) ==> run.out
                    == Err::<DictIterator, Seq<Cause>>(causes))
            }
        }),
{
    lemma_product_fits(4, word_size());
    lemma_product_fits(3, word_size());
}

} // verus!
