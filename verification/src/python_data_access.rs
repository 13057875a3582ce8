//! Strings, integers and dictionaries out of a target process.
use vstd::prelude::*;
#[allow(unused_imports)]
use vstd::utf8::is_ascii_chars;

use crate::bytes::word_size;
#[allow(unused_imports)]
use crate::bytes::{lemma_spelled_bound, packed, unit, ByteOrder};
use crate::error::{Cause, Error};
#[allow(unused_imports)]
use crate::error::holds_invalid_string;
use crate::objects::{
    Bindings, BytesObject, DictEntry, DictObject, HeapType, IntObject, LogKeys, LongObject, SizedKeys,
    StringObject, TaggedLong,
};
use crate::strings::decode_string;
#[allow(unused_imports)]
use crate::strings::{
    all_ascii, code_points, decoded, latin1_text, law_ascii_reads_back, law_decoded_length,
    law_latin1_reads_back, law_lenient_failure_is_not_invalid, law_strict_ascii,
    law_strict_text_is_lenient_text, law_ucs2_reads_back, law_ucs4_reads_back, low_bytes,
    ucs2_units, ucs4_text, ucs4_valid, utf16_text, utf16_units,
};
use crate::target::{ProcessMemory, Target};
#[allow(unused_imports)]
use crate::target::{
    block_at, bytes_at, continued, done, failed, grown, law_read_in_order, ran, ran_view, struct_at,
    word_at, Event, Run,
};
pub use crate::error::{is_invalid_string, InvalidString};
pub use crate::variables::format_variable;
use crate::version::Version;

verus! {

/// The type's instances keep their attribute values right behind the object.
pub const PY_TPFLAGS_INLINE_VALUES: usize = 0x4;

/// The type's instances keep their dictionary in front of the object.
pub const PY_TPFLAGS_MANAGED_DICT: usize = 0x10;

/// Copies a string: its header, then, unless it is empty or too long, its characters.
pub open spec fn string_run(
    l: Seq<Event>,
    p: int,
    bindings: Bindings,
    ptr: usize,
    check_utf8: bool,
) -> Run<Seq<char>> {
    let header = struct_at::<StringObject>(l, p, bindings, ptr);
    match header.out {
        Err(causes) => failed(causes, header.next),
        Ok(obj) => if obj.size == 0 {
            done(Seq::empty(), header.next)
        } else if obj.size >= 4096 {
            failed(seq![Cause::StringTooLong(obj.size)], header.next)
        } else {
            let body = bytes_at(
                l,
                header.next,
                obj.address,
                obj.size.wrapping_mul(obj.kind as usize),
            );
            match body.out {
                Err(causes) => failed(causes, body.next),
                Ok((data, order)) => match decoded(obj.kind, obj.ascii, data, order, check_utf8) {
                    Ok(text) => done(text, body.next),
                    Err(cause) => failed(seq![cause], body.next),
                },
            }
        },
    }
}

/// Copies a string from a target process. Attempts to handle unicode differences, which mostly
/// seems to be working.
///
/// `check_utf8` rejects anything inconsistent with the string's declared kind instead of
/// substituting replacement characters. The kind comes from the target too, so bad data means
/// that there is no string at `ptr`.
pub fn copy_string<P: ProcessMemory>(
    bindings: Bindings,
    ptr: usize,
    process: &mut Target<P>,
    check_utf8: bool,
) -> (r: Result<String, Error>)
    ensures
        continued(*old(process), *final(process)),
        forall|l: Seq<Event>|
            grown(final(process).log(), l) ==> #[trigger] string_run(
                l,
                old(process).log().len() as int,
                bindings,
                ptr,
                check_utf8,
            ) == ran_view(r, final(process).log()),
{
    let obj: StringObject = match process.copy_struct(bindings, ptr) {
        Ok(obj) => obj,
        Err(e) => {
            return Err(e);
        },
    };
    if obj.size == 0 {
        return Ok(String::new());
    }
    if obj.size >= 4096 {
        return Err(Error::new(Cause::StringTooLong(obj.size)));
    }
    let bytes = match process.copy(obj.address, obj.size.wrapping_mul(obj.kind as usize)) {
        Ok(bytes) => bytes,
        Err(e) => {
            return Err(e);
        },
    };
    match decode_string(obj.kind, obj.ascii, bytes, check_utf8) {
        Ok(text) => Ok(text),
        Err(cause) => Err(Error::new(cause)),
    }
}

/// Copies a bytes object: its header, then, unless it is too long, its bytes.
pub open spec fn bytes_run(l: Seq<Event>, p: int, bindings: Bindings, ptr: usize) -> Run<Seq<u8>> {
    let header = struct_at::<BytesObject>(l, p, bindings, ptr);
    match header.out {
        Err(causes) => failed(causes, header.next),
        Ok(obj) => if obj.size >= 65536 {
            failed(seq![Cause::BytesTooLong(obj.size)], header.next)
        } else {
            let body = bytes_at(l, header.next, obj.address, obj.size);
            match body.out {
                Err(causes) => failed(causes, body.next),
                Ok((data, _)) => done(data, body.next),
            }
        },
    }
}

/// Copies data from a bytes object.
pub fn copy_bytes<P: ProcessMemory>(
    bindings: Bindings,
    ptr: usize,
    process: &mut Target<P>,
) -> (r: Result<Vec<u8>, Error>)
    ensures
        continued(*old(process), *final(process)),
        forall|l: Seq<Event>|
            grown(final(process).log(), l) ==> #[trigger] bytes_run(
                l,
                old(process).log().len() as int,
                bindings,
                ptr,
            ) == ran_view(r, final(process).log()),
{
    let obj: BytesObject = match process.copy_struct(bindings, ptr) {
        Ok(obj) => obj,
        Err(e) => {
            return Err(e);
        },
    };
    if obj.size >= 65536 {
        return Err(Error::new(Cause::BytesTooLong(obj.size)));
    }
    match process.copy(obj.address, obj.size) {
        Ok(bytes) => Ok(bytes.data),
        Err(e) => Err(e),
    }
}

/// Whether integers have a tag word in this version.
pub open spec fn has_tagged_longs(version: &Version) -> bool {
    version.major == 3 && 12 <= version.minor <= 14
}

/// The head of an integer object.
pub struct LongHead {
    /// Number of digits.
    pub count: usize,
    pub negative: bool,
    /// The least significant digit.
    pub digit: u32,
    /// The size of the structure that the head was read from.
    pub size: usize,
}

/// How many digits a signed digit count stands for.
pub open spec fn digit_count(ob_size: isize) -> usize {
    if ob_size < 0 {
        (-ob_size) as usize
    } else {
        ob_size as usize
    }
}

/// Copies the head of an integer object.
pub open spec fn long_head_run(l: Seq<Event>, p: int, version: &Version, addr: usize) -> Run<
    LongHead,
> {
    if has_tagged_longs(version) {
        let run = struct_at::<TaggedLong>(l, p, Bindings::V3_12_0, addr);
        match run.out {
            Err(causes) => failed(causes, run.next),
            Ok(v) => done(
                LongHead {
                    count: v.lv_tag / 8,
                    negative: v.lv_tag % 4 == 2,
                    digit: v.digit,
                    size: v.size,
                },
                run.next,
            ),
        }
    } else {
        let run = struct_at::<LongObject>(l, p, Bindings::V3_7_0, addr);
        match run.out {
            Err(causes) => failed(causes, run.next),
            Ok(v) => done(
                LongHead {
                    count: digit_count(v.ob_size),
                    negative: v.ob_size < 0,
                    digit: v.digit,
                    size: v.size,
                },
                run.next,
            ),
        }
    }
}

fn copy_long_head<P: ProcessMemory>(process: &mut Target<P>, version: &Version, addr: usize) -> (r:
    Result<LongHead, Error>)
    ensures
        continued(*old(process), *final(process)),
        forall|l: Seq<Event>|
            grown(final(process).log(), l) ==> #[trigger] long_head_run(
                l,
                old(process).log().len() as int,
                version,
                addr,
            ) == ran(r, final(process).log()),
{
    if version.major == 3 && 12 <= version.minor && version.minor <= 14 {
        let read: Result<TaggedLong, Error> = process.copy_struct(Bindings::V3_12_0, addr);
        match read {
            Ok(v) => Ok(
                LongHead {
                    count: v.lv_tag / 8,
                    negative: v.lv_tag % 4 == 2,
                    digit: v.digit,
                    size: v.size,
                },
            ),
            Err(e) => Err(e),
        }
    } else {
        let read: Result<LongObject, Error> = process.copy_struct(Bindings::V3_7_0, addr);
        match read {
            Ok(v) => {
                let negative = v.ob_size < 0;
                let count: usize = if negative {
                    (-(v.ob_size as i128)) as usize
                } else {
                    v.ob_size as usize
                };
                Ok(LongHead { count, negative, digit: v.digit, size: v.size })
            },
            Err(e) => Err(e),
        }
    }
}

/// The magnitude that `count` digits stand for, where they are read all at once: two digits of
/// thirty bits each, or on a 32 bit machine up to four digits of fifteen bits each.
pub open spec fn digits_value(data: Seq<u8>, order: ByteOrder, count: usize) -> nat {
    if usize::BITS == 64 {
        unit(data, order, 0, 4) + unit(data, order, 1, 4) * 0x4000_0000
    } else {
        unit(data, order, 0, 2) + unit(data, order, 1, 2) * 0x8000 + (if count >= 3 {
            unit(data, order, 2, 2) * 0x4000_0000
        } else {
            0
        }) + (if count >= 4 {
            unit(data, order, 3, 2) * 0x2000_0000_0000
        } else {
            0
        })
    }
}

/// The most digits that are read.
pub open spec fn max_digits() -> usize {
    if usize::BITS == 64 {
        2
    } else {
        4
    }
}

/// Where the digits of an integer object start, from the end of its structure: a structure
/// declares one digit, and the padding behind it is room for more on a 64 bit machine.
pub open spec fn digits_from_end() -> usize {
    if usize::BITS == 64 {
        8
    } else {
        4
    }
}

/// Copies an integer. Of one with too many digits only their number comes out, marked as an
/// overflow.
pub open spec fn long_run(l: Seq<Event>, p: int, version: &Version, addr: usize) -> Run<
    (i64, bool),
> {
    let run = long_head_run(l, p, version, addr);
    match run.out {
        Err(causes) => failed(causes, run.next),
        Ok(head) => if head.count == 0 {
            done((0, false), run.next)
        } else if head.count == 1 {
            done(
                (if head.negative {
                    (-head.digit) as i64
                } else {
                    head.digit as i64
                }, false),
                run.next,
            )
        } else if head.count <= max_digits() {
            let digits = block_at(
                l,
                run.next,
                addr.wrapping_add(head.size).wrapping_sub(digits_from_end()),
                8,
            );
            match digits.out {
                Err(causes) => failed(causes, digits.next),
                Ok((data, order)) => {
                    let magnitude = digits_value(data, order, head.count);
                    done(
                        (if head.negative {
                            (-magnitude) as i64
                        } else {
                            magnitude as i64
                        }, false),
                        digits.next,
                    )
                },
            }
        } else {
            done((head.count as i64, true), run.next)
        },
    }
}

/// Copies an integer. Returns the value + if it overflowed.
pub fn copy_long<P: ProcessMemory>(process: &mut Target<P>, version: &Version, addr: usize) -> (r:
    Result<(i64, bool), Error>)
    ensures
        continued(*old(process), *final(process)),
        forall|l: Seq<Event>|
            grown(final(process).log(), l) ==> #[trigger] long_run(
                l,
                old(process).log().len() as int,
                version,
                addr,
            ) == ran(r, final(process).log()),
{
    let head = match copy_long_head(process, version, addr) {
        Ok(head) => head,
        Err(e) => {
            return Err(e);
        },
    };
    let (most, back): (usize, usize) = if usize::BITS == 64 {
        (2, 8)
    } else {
        (4, 4)
    };
    if head.count == 0 {
        Ok((0, false))
    } else if head.count == 1 {
        let value: i64 = head.digit as i64;
        Ok((if head.negative {
            -value
        } else {
            value
        }, false))
    } else if head.count <= most {
        let at: usize = addr.wrapping_add(head.size).wrapping_sub(back);
        match process.block(at, 8) {
            Ok(digits) => {
                proof {
                    let d = digits.data@;
                    assert forall|i: int| 0 <= i < 2 implies #[trigger] unit(d, digits.order, i, 4)
                        < 0x1_0000_0000 by {
                        lemma_spelled_bound(d.subrange(i * 4, i * 4 + 4), digits.order);
                    }
                    assert forall|i: int| 0 <= i < 4 implies #[trigger] unit(d, digits.order, i, 2)
                        < 0x1_0000 by {
                        lemma_spelled_bound(d.subrange(i * 2, i * 2 + 2), digits.order);
                    }
                }
                let mut magnitude: u64 = 0;
                if usize::BITS == 64 {
                    magnitude = digits.unit(0, 4) + digits.unit(1, 4) * 0x4000_0000;
                } else {
                    magnitude = digits.unit(0, 2) + digits.unit(1, 2) * 0x8000;
                    if head.count >= 3 {
                        magnitude = magnitude + digits.unit(2, 2) * 0x4000_0000;
                    }
                    if head.count >= 4 {
                        magnitude = magnitude + digits.unit(3, 2) * 0x2000_0000_0000;
                    }
                }
                let value: i64 = magnitude as i64;
                Ok((if head.negative {
                    -value
                } else {
                    value
                }, false))
            },
            Err(e) => Err(e),
        }
    } else {
        Ok((head.count as i64, true))
    }
}

/// Copies an integer of Python 2.
pub open spec fn int_run(l: Seq<Event>, p: int, addr: usize) -> Run<i64> {
    let run = struct_at::<IntObject>(l, p, Bindings::V2_7_15, addr);
    match run.out {
        Err(causes) => failed(causes, run.next),
        Ok(v) => done(v.ob_ival, run.next),
    }
}

/// Copies an integer of Python 2.
pub fn copy_int<P: ProcessMemory>(process: &mut Target<P>, addr: usize) -> (r: Result<i64, Error>)
    ensures
        continued(*old(process), *final(process)),
        forall|l: Seq<Event>|
            grown(final(process).log(), l) ==> #[trigger] int_run(
                l,
                old(process).log().len() as int,
                addr,
            ) == ran(r, final(process).log()),
{
    let read: Result<IntObject, Error> = process.copy_struct(Bindings::V2_7_15, addr);
    match read {
        Ok(v) => Ok(v.ob_ival),
        Err(e) => Err(e),
    }
}

/// Allows iteration of a python dictionary. Only supports python 3.6+ right now.
#[derive(Clone, Copy, Debug)]
pub struct DictIterator {
    /// Where the entries start.
    pub entries_addr: usize,
    /// Zero where the entries store the hash of their key.
    pub kind: u8,
    /// The entry that comes next.
    pub index: usize,
    /// The number of entries.
    pub entries: usize,
    /// Where the values are, or zero where they stand in the entries.
    pub values: usize,
}

/// Whether dictionaries have an index table of 2^n bytes in this version.
pub open spec fn has_log_keys(version: &Version) -> bool {
    version.major == 3 && 11 <= version.minor <= 14
}

/// The size of a slot in an index table with this many slots.
pub open spec fn index_slot_size(dk_size: isize) -> isize {
    if 0 <= dk_size <= 0xff {
        1
    } else if 0 <= dk_size <= 0xffff {
        2
    } else if usize::BITS == 32 || 0 <= dk_size <= 0xffff_ffff {
        4
    } else {
        8
    }
}

/// An iterator over entries that follow a key table with an index of 2^n bytes.
pub open spec fn log_keys_iterator(ma_keys: usize, keys: LogKeys, values: usize) -> DictIterator {
    DictIterator {
        entries_addr: ma_keys.wrapping_add(
            1usize.wrapping_shl(keys.dk_log2_index_bytes as u32),
        ).wrapping_add(keys.size),
        kind: keys.dk_kind,
        index: 0,
        entries: keys.dk_nentries as usize,
        values,
    }
}

/// An iterator over entries that follow a key table with a sized index.
pub open spec fn sized_keys_iterator(ma_keys: usize, keys: SizedKeys, values: usize) -> DictIterator {
    DictIterator {
        entries_addr: ma_keys.wrapping_add(
            keys.dk_size.wrapping_mul(index_slot_size(keys.dk_size)) as usize,
        ).wrapping_add(keys.size),
        kind: 0,
        index: 0,
        entries: keys.dk_nentries as usize,
        values,
    }
}

/// Starts the iteration of the dictionary at `addr`.
pub open spec fn dict_run(l: Seq<Event>, p: int, version: &Version, addr: usize) -> Run<
    DictIterator,
> {
    let bindings = if has_log_keys(version) {
        Bindings::V3_11_0
    } else {
        Bindings::V3_7_0
    };
    let head = struct_at::<DictObject>(l, p, bindings, addr);
    match head.out {
        Err(causes) => failed(causes, head.next),
        Ok(dict) => if has_log_keys(version) {
            let run = struct_at::<LogKeys>(l, head.next, bindings, dict.ma_keys);
            match run.out {
                Err(causes) => failed(causes, run.next),
                Ok(keys) => done(
                    log_keys_iterator(dict.ma_keys, keys, dict.ma_values),
                    run.next,
                ),
            }
        } else {
            let run = struct_at::<SizedKeys>(l, head.next, bindings, dict.ma_keys);
            match run.out {
                Err(causes) => failed(causes, run.next),
                Ok(keys) => done(
                    sized_keys_iterator(dict.ma_keys, keys, dict.ma_values),
                    run.next,
                ),
            }
        },
    }
}

/// Where the attributes of an object with a managed dictionary are, given the two words in front
/// of it: the address of its values and that of its dictionary. In python 3.12 they are combined
/// into a single tagged pointer.
pub open spec fn managed_pointers(version: &Version, values_word: usize, dict_word: usize) -> (
    usize,
    usize,
) {
    if version.major == 3 && version.minor == 12 {
        if dict_word % 2 == 0 {
            (0, dict_word)
        } else {
            (dict_word.wrapping_add(1), 0)
        }
    } else {
        (values_word, dict_word)
    }
}

/// Where inline values start: behind the object's own two words, and a word of bookkeeping.
pub open spec fn inline_values(addr: usize) -> usize {
    addr.wrapping_add(2usize.wrapping_mul(word_size())).wrapping_add(word_size())
}

/// Starts the iteration of the attributes of the object at `addr`, whose type is at `tp_addr` and
/// has these flags.
pub open spec fn managed_dict_run(
    l: Seq<Event>,
    p: int,
    version: &Version,
    addr: usize,
    tp_addr: usize,
    flags: usize,
) -> Run<DictIterator> {
    let first = word_at(l, p, addr.wrapping_sub(4usize.wrapping_mul(word_size())));
    match first.out {
        Err(causes) => failed(causes, first.next),
        Ok(values_word) => {
            let second = word_at(
                l,
                first.next,
                addr.wrapping_sub(3usize.wrapping_mul(word_size())),
            );
            match second.out {
                Err(causes) => failed(causes, second.next),
                Ok(dict_word) => {
                    let (values, dict) = managed_pointers(version, values_word, dict_word);
                    if values != 0 {
                        let bindings = if version.major == 3 && version.minor >= 12 {
                            Bindings::V3_12_0
                        } else {
                            Bindings::V3_11_0
                        };
                        let ht = struct_at::<HeapType>(l, second.next, bindings, tp_addr);
                        match ht.out {
                            Err(causes) => failed(causes, ht.next),
                            Ok(heap_type) => {
                                let run = struct_at::<LogKeys>(
                                    l,
                                    ht.next,
                                    Bindings::V3_12_0,
                                    heap_type.ht_cached_keys,
                                );
                                match run.out {
                                    Err(causes) => failed(causes, run.next),
                                    Ok(keys) => done(
                                        log_keys_iterator(
                                            heap_type.ht_cached_keys,
                                            keys,
                                            if flags & PY_TPFLAGS_INLINE_VALUES != 0 {
                                                inline_values(addr)
                                            } else {
                                                values
                                            },
                                        ),
                                        run.next,
                                    ),
                                }
                            },
                        }
                    } else if dict != 0 {
                        dict_run(l, second.next, version, dict)
                    } else {
                        failed(
                            seq![Cause::Message("neither values or dict is set in managed dict")],
                            second.next,
                        )
                    }
                },
            }
        },
    }
}

/// The key of an entry, with the value that stands in the entry itself.
pub open spec fn entry_run(l: Seq<Event>, p: int, it: DictIterator) -> Run<DictEntry> {
    if it.kind == 0 {
        struct_at::<DictEntry>(
            l,
            p,
            Bindings::V3_7_0,
            it.index.wrapping_mul(3usize.wrapping_mul(word_size())).wrapping_add(it.entries_addr),
        )
    } else {
        struct_at::<DictEntry>(
            l,
            p,
            Bindings::V3_11_0,
            it.index.wrapping_mul(2usize.wrapping_mul(word_size())).wrapping_add(it.entries_addr),
        )
    }
}

/// The iterator, one entry further on.
pub open spec fn advanced(it: DictIterator) -> DictIterator {
    DictIterator { index: (it.index + 1) as usize, ..it }
}

/// Looks for the next entry that has a key. Comes to the key and value, or to nothing where no
/// entry is left, and leaves the iterator behind the last entry that was looked at.
pub open spec fn next_run(l: Seq<Event>, p: int, it: DictIterator) -> (
    Run<Option<(usize, usize)>>,
    DictIterator,
)
    decreases it.entries - it.index,
{
    if it.index >= it.entries {
        (done(None, p), it)
    } else {
        let read = entry_run(l, p, it);
        match read.out {
            Err(causes) => (failed(causes, read.next), advanced(it)),
            Ok(entry) => if entry.me_key == 0 {
                next_run(l, read.next, advanced(it))
            } else if it.values != 0 {
                let value = word_at(
                    l,
                    read.next,
                    it.values.wrapping_add(it.index.wrapping_mul(word_size())),
                );
                match value.out {
                    Err(causes) => (failed(causes, value.next), advanced(it)),
                    Ok(addr) => (done(Some((entry.me_key, addr)), value.next), advanced(it)),
                }
            } else {
                (done(Some((entry.me_key, entry.me_value)), read.next), advanced(it))
            },
        }
    }
}

/// Each step of an iteration goes on, an item or a failure comes out only of an entry that was
/// left, and no item has a null key.
pub proof fn law_next_advances(l: Seq<Event>, p: int, it: DictIterator)
    ensures
        ({
            let (item, rest) = next_run(l, p, it);
            &&& rest.entries == it.entries
            &&& it.index <= rest.index
            &&& item.out matches Ok(Some((key, _))) ==> it.index < rest.index <= it.entries && key
                != 0
            &&& item.out is Err ==> it.index < rest.index <= it.entries
            &&& item.out matches Ok(None) ==> rest.index >= rest.entries
        }),
    decreases it.entries - it.index,
{
    if it.index < it.entries {
        let read = entry_run(l, p, it);
        if read.out is Ok && read.out->Ok_0.me_key == 0 {
            law_next_advances(l, read.next, advanced(it));
        }
    }
}

/// The run that came to an item of an iterator, and left the log as `log`.
pub open spec fn ran_item(r: Option<Result<(usize, usize), Error>>, log: Seq<Event>) -> Run<
    Option<(usize, usize)>,
> {
    match r {
        None => done(None, log.len() as int),
        Some(Ok(item)) => done(Some(item), log.len() as int),
        Some(Err(e)) => failed(e@, log.len() as int),
    }
}

fn log_keys_start(ma_keys: usize, keys: LogKeys, values: usize) -> (r: DictIterator)
    ensures
        r == log_keys_iterator(ma_keys, keys, values),
{
    DictIterator {
        entries_addr: ma_keys.wrapping_add(
            1usize.wrapping_shl(keys.dk_log2_index_bytes as u32),
        ).wrapping_add(keys.size),
        kind: keys.dk_kind,
        index: 0,
        entries: keys.dk_nentries as usize,
        values,
    }
}

impl DictIterator {
    /// Starts the iteration of the attributes of an object that has a managed dictionary.
    pub fn from_managed_dict<P: ProcessMemory>(
        process: &mut Target<P>,
        version: &Version,
        addr: usize,
        tp_addr: usize,
        flags: usize,
    ) -> (r: Result<DictIterator, Error>)
        ensures
            continued(*old(process), *final(process)),
            forall|l: Seq<Event>|
                grown(final(process).log(), l) ==> #[trigger] managed_dict_run(
                    l,
                    old(process).log().len() as int,
                    version,
                    addr,
                    tp_addr,
                    flags,
                ) == ran(r, final(process).log()),
    {
        let word = word_size();
        let mut values_addr: usize = match process.word(
            addr.wrapping_sub(4usize.wrapping_mul(word)),
        ) {
            Ok(value) => value,
            Err(e) => {
                return Err(e);
            },
        };
        let mut dict_addr: usize = match process.word(
            addr.wrapping_sub(3usize.wrapping_mul(word)),
        ) {
            Ok(value) => value,
            Err(e) => {
                return Err(e);
            },
        };
        if version.major == 3 && version.minor == 12 {
            if dict_addr % 2 == 0 {
                values_addr = 0;
            } else {
                values_addr = dict_addr.wrapping_add(1);
                dict_addr = 0;
            }
        }
        if values_addr != 0 {
            let bindings = if version.major == 3 && version.minor >= 12 {
                Bindings::V3_12_0
            } else {
                Bindings::V3_11_0
            };
            let heap_type: HeapType = match process.copy_struct(bindings, tp_addr) {
                Ok(heap_type) => heap_type,
                Err(e) => {
                    return Err(e);
                },
            };
            if flags & PY_TPFLAGS_INLINE_VALUES != 0 {
                values_addr = addr.wrapping_add(2usize.wrapping_mul(word)).wrapping_add(word);
            }
            let keys: LogKeys = match process.copy_struct(
                Bindings::V3_12_0,
                heap_type.ht_cached_keys,
            ) {
                Ok(keys) => keys,
                Err(e) => {
                    return Err(e);
                },
            };
            Ok(log_keys_start(heap_type.ht_cached_keys, keys, values_addr))
        } else if dict_addr != 0 {
            DictIterator::from(process, version, dict_addr)
        } else {
            Err(Error::msg("neither values or dict is set in managed dict"))
        }
    }

    /// Starts the iteration of a dictionary.
    pub fn from<P: ProcessMemory>(process: &mut Target<P>, version: &Version, addr: usize) -> (r:
        Result<DictIterator, Error>)
        ensures
            continued(*old(process), *final(process)),
            forall|l: Seq<Event>|
                grown(final(process).log(), l) ==> #[trigger] dict_run(
                    l,
                    old(process).log().len() as int,
                    version,
                    addr,
                ) == ran(r, final(process).log()),
    {
        if version.major == 3 && 11 <= version.minor && version.minor <= 14 {
            let dict: DictObject = match process.copy_struct(Bindings::V3_11_0, addr) {
                Ok(dict) => dict,
                Err(e) => {
                    return Err(e);
                },
            };
            let keys: LogKeys = match process.copy_struct(Bindings::V3_11_0, dict.ma_keys) {
                Ok(keys) => keys,
                Err(e) => {
                    return Err(e);
                },
            };
            Ok(log_keys_start(dict.ma_keys, keys, dict.ma_values))
        } else {
            let dict: DictObject = match process.copy_struct(Bindings::V3_7_0, addr) {
                Ok(dict) => dict,
                Err(e) => {
                    return Err(e);
                },
            };
            // Getting this going generically is tricky: there is a lot of variation on how
            // dictionaries are handled. Instead this just focuses on a single version, which works
            // for python 3.6/3.7/3.8/3.9/3.10.
            let keys: SizedKeys = match process.copy_struct(Bindings::V3_7_0, dict.ma_keys) {
                Ok(keys) => keys,
                Err(e) => {
                    return Err(e);
                },
            };
            let slot: isize = if 0 <= keys.dk_size && keys.dk_size <= 0xff {
                1
            } else if 0 <= keys.dk_size && keys.dk_size <= 0xffff {
                2
            } else if usize::BITS == 32 || (0 <= keys.dk_size && keys.dk_size as i128
                <= 0xffff_ffff) {
                4
            } else {
                8
            };
            Ok(
                DictIterator {
                    entries_addr: dict.ma_keys.wrapping_add(
                        keys.dk_size.wrapping_mul(slot) as usize,
                    ).wrapping_add(keys.size),
                    kind: 0,
                    index: 0,
                    entries: keys.dk_nentries as usize,
                    values: dict.ma_values,
                },
            )
        }
    }

    /// The next key and value.
    pub fn next<P: ProcessMemory>(&mut self, process: &mut Target<P>) -> (r: Option<
        Result<(usize, usize), Error>,
    >)
        ensures
            continued(*old(process), *final(process)),
            forall|l: Seq<Event>|
                grown(final(process).log(), l) ==> #[trigger] next_run(
                    l,
                    old(process).log().len() as int,
                    *old(self),
                ) == (ran_item(r, final(process).log()), *final(self)),
    {
        let word = word_size();
        let ghost start = process.log().len() as int;
        let ghost it = *self;
        while self.index < self.entries
            invariant
                word == word_size(),
                start == old(process).log().len(),
                it == *old(self),
                continued(*old(process), *process),
                forall|l: Seq<Event>|
                    grown(process.log(), l) ==> #[trigger] next_run(l, start, it) == next_run(
                        l,
                        process.log().len() as int,
                        *self,
                    ),
            decreases self.entries - self.index,
        {
            let index = self.index;
            self.index = self.index + 1;
            let read: Result<DictEntry, Error> = if self.kind == 0 {
                process.copy_struct(
                    Bindings::V3_7_0,
                    index.wrapping_mul(3usize.wrapping_mul(word)).wrapping_add(self.entries_addr),
                )
            } else {
                process.copy_struct(
                    Bindings::V3_11_0,
                    index.wrapping_mul(2usize.wrapping_mul(word)).wrapping_add(self.entries_addr),
                )
            };
            match read {
                Ok(entry) => {
                    if entry.me_key != 0 {
                        if self.values != 0 {
                            let valueaddr: usize = self.values.wrapping_add(
                                index.wrapping_mul(word),
                            );
                            return match process.word(valueaddr) {
                                Ok(value) => Some(Ok((entry.me_key, value))),
                                Err(e) => Some(Err(e)),
                            };
                        }
                        return Some(Ok((entry.me_key, entry.me_value)));
                    }
                },
                Err(e) => {
                    return Some(Err(e));
                },
            }
        }
        None
    }
}

/// Strict copying gives the text that lenient copying gives, or fails. Only characters that do
/// not fit the string's kind make an invalid string, and only under strict copying: a failed read
/// is never taken for one.
pub proof fn law_string_strictness(l: Seq<Event>, p: int, bindings: Bindings, ptr: usize)
    ensures
        string_run(l, p, bindings, ptr, true).out is Ok ==> string_run(l, p, bindings, ptr, false)
            == string_run(l, p, bindings, ptr, true),
        string_run(l, p, bindings, ptr, false).out matches Err(causes) ==> !holds_invalid_string(
            causes,
        ),
        ({
            let header = struct_at::<StringObject>(l, p, bindings, ptr);
            string_run(l, p, bindings, ptr, true).out matches Err(causes)
                ==> holds_invalid_string(causes) ==> (header.out matches Ok(obj) && bytes_at(
                l,
                header.next,
                obj.address,
                obj.size.wrapping_mul(obj.kind as usize),
            ).out is Ok)
        }),
{
    let header = struct_at::<StringObject>(l, p, bindings, ptr);
    if let Ok(obj) = header.out {
        let body = bytes_at(l, header.next, obj.address, obj.size.wrapping_mul(obj.kind as usize));
        if let Ok((data, order)) = body.out {
            law_strict_text_is_lenient_text(obj.kind, obj.ascii, data, order);
            law_lenient_failure_is_not_invalid(obj.kind, obj.ascii, data, order);
        }
    }
}

/// Whether a text can be stored in a string object of this kind.
pub open spec fn storable(kind: u32, ascii: bool, text: Seq<char>) -> bool {
    if kind == 1 && ascii {
        is_ascii_chars(text)
    } else if kind == 1 {
        forall|i: int| 0 <= i < text.len() ==> (#[trigger] text[i] as u32 as nat) < 0x100
    } else {
        kind == 2 || kind == 4
    }
}

/// The bytes of a text in a string object of this kind.
pub open spec fn stored(kind: u32, text: Seq<char>, order: ByteOrder) -> Seq<u8> {
    if kind == 4 {
        packed(code_points(text), 4, order)
    } else if kind == 2 {
        packed(utf16_units(text), 2, order)
    } else {
        low_bytes(text)
    }
}

/// The number of code units that a text takes in a string object of this kind.
pub open spec fn stored_size(kind: u32, text: Seq<char>) -> nat {
    if kind == 2 {
        utf16_units(text).len()
    } else {
        text.len()
    }
}

/// A text that is stored in the target as a string object, short enough to be copied, is what
/// copying it gives, strictly or not.
pub proof fn law_stored_string_is_copied(
    l: Seq<Event>,
    p: int,
    bindings: Bindings,
    ptr: usize,
    check_utf8: bool,
    obj: StringObject,
    text: Seq<char>,
    order: ByteOrder,
)
    requires
        struct_at::<StringObject>(l, p, bindings, ptr) == done(obj, p + 1),
        storable(obj.kind, obj.ascii, text),
        obj.size == stored_size(obj.kind, text),
        obj.size < 4096,
        obj.size > 0 ==> bytes_at(
            l,
            p + 1,
            obj.address,
            obj.size.wrapping_mul(obj.kind as usize),
        ) == done((stored(obj.kind, text, order), order), p + 2),
    ensures
        string_run(l, p, bindings, ptr, check_utf8) == done(
            text,
            if obj.size == 0 {
                p + 1
            } else {
                p + 2
            },
        ),
{
    if obj.size == 0 {
        assert(text =~= Seq::empty());
    } else if obj.kind == 4 {
        law_ucs4_reads_back(text, order, obj.ascii, check_utf8);
    } else if obj.kind == 2 {
        law_ucs2_reads_back(text, order, obj.ascii, check_utf8);
    } else if obj.ascii {
        law_ascii_reads_back(text, order, check_utf8);
    } else {
        law_latin1_reads_back(text, order, check_utf8);
    }
}

proof fn lemma_string_bytes(obj: StringObject)
    requires
        obj.size < 4096,
        obj.kind == 1 || obj.kind == 2 || obj.kind == 4,
    ensures
        obj.size.wrapping_mul(obj.kind as usize) == obj.size * obj.kind,
        (obj.size * obj.kind) / (obj.kind as int) == obj.size,
{
    let size = obj.size as int;
    let kind = obj.kind as int;
    assert(size * kind / kind == size && 0 <= size * kind < 0x1_0000) by (nonlinear_arith)
        requires
            0 <= size < 4096,
            kind == 1 || kind == 2 || kind == 4,
    ;
    vstd::arithmetic::div_mod::lemma_small_mod(
        (size * kind) as nat,
        (usize::MAX - usize::MIN + 1) as nat,
    );
}

/// The characters of a string are taken in the byte order of the target, which is that of the
/// machine for a target made by [`Target::new`]. In that order, strict copying fails for an invalid
/// string exactly where a four byte word is no character, the two byte units are not UTF-16, or an
/// ASCII string holds another byte; and Latin-1, and without strictness four byte words, come out
/// one character each.
pub proof fn law_string_in_target_order<P: ProcessMemory>(
    before: Target<P>,
    after: Target<P>,
    bindings: Bindings,
    ptr: usize,
    check_utf8: bool,
    obj: StringObject,
    data: Seq<u8>,
)
    requires
        continued(before, after),
        ({
            let (l, p) = (after.log(), before.log().len() as int);
            let body = bytes_at(l, p + 1, obj.address, obj.size.wrapping_mul(obj.kind as usize));
            &&& struct_at::<StringObject>(l, p, bindings, ptr) == done(obj, p + 1)
            &&& body.out matches Ok((bytes, _))
            &&& bytes == data
            &&& data.len() == obj.size * obj.kind
        }),
        0 < obj.size < 4096,
        obj.kind == 1 || obj.kind == 2 || obj.kind == 4,
    ensures
        ({
            let (l, p) = (after.log(), before.log().len() as int);
            let out = string_run(l, p, bindings, ptr, check_utf8).out;
            let order = after.order();
            &&& out is Err && holds_invalid_string(out->Err_0) <==> check_utf8 && ((obj.kind == 4
                && !ucs4_valid(data, order)) || (obj.kind == 2 && utf16_text(
                ucs2_units(data, order),
            ) is None) || (obj.kind == 1 && obj.ascii && !all_ascii(data)))
            &&& obj.kind == 4 && !check_utf8 ==> out == Ok::<Seq<char>, Seq<Cause>>(
                ucs4_text(data, order),
            ) && ucs4_text(data, order).len() == obj.size
            &&& obj.kind == 1 && !obj.ascii ==> out == Ok::<Seq<char>, Seq<Cause>>(
                latin1_text(data),
            ) && latin1_text(data).len() == obj.size
        }),
{
    let (l, p) = (after.log(), before.log().len() as int);
    let length = obj.size.wrapping_mul(obj.kind as usize);
    let order = after.order();
    law_read_in_order(before, after, p + 1, obj.address, length);
    lemma_string_bytes(obj);
    law_strict_ascii(data, order);
    law_lenient_failure_is_not_invalid(obj.kind, obj.ascii, data, order);
    if let Err(cause) = decoded(obj.kind, obj.ascii, data, order, check_utf8) {
        assert(seq![cause][0] == cause);
    }
}

/// A string that claims to be too long is refused without reading its characters, and none that
/// is copied is too long, as long as the target answers with as many bytes as it was asked for.
pub proof fn law_string_length(
    l: Seq<Event>,
    p: int,
    bindings: Bindings,
    ptr: usize,
    check_utf8: bool,
)
    ensures
        struct_at::<StringObject>(l, p, bindings, ptr).out matches Ok(obj) ==> obj.size >= 4096
            ==> string_run(l, p, bindings, ptr, check_utf8) == failed::<Seq<char>>(
            seq![Cause::StringTooLong(obj.size)],
            p + 1,
        ),
        ({
            let header = struct_at::<StringObject>(l, p, bindings, ptr);
            let length = header.out->Ok_0.size.wrapping_mul(header.out->Ok_0.kind as usize);
            let body = bytes_at(l, header.next, header.out->Ok_0.address, length);
            string_run(l, p, bindings, ptr, check_utf8).out matches Ok(text) ==> (
            body.out matches Ok((data, _)) ==> data.len() == length) ==> text.len() < 4096
        }),
{
    let header = struct_at::<StringObject>(l, p, bindings, ptr);
    if let Ok(obj) = header.out {
        let length = obj.size.wrapping_mul(obj.kind as usize);
        let body = bytes_at(l, header.next, obj.address, length);
        if 0 < obj.size < 4096 {
            if let Ok((data, order)) = body.out {
                law_decoded_length(obj.kind, obj.ascii, data, order, check_utf8);
                if obj.kind == 1 || obj.kind == 2 || obj.kind == 4 {
                    lemma_string_bytes(obj);
                }
            }
        }
    }
}

/// Bytes that claim to be too many are refused without reading them, and any others come out as
/// the target gives them.
pub proof fn law_bytes_length(l: Seq<Event>, p: int, bindings: Bindings, ptr: usize)
    ensures
        struct_at::<BytesObject>(l, p, bindings, ptr).out matches Ok(obj) ==> {
            let body = bytes_at(l, p + 1, obj.address, obj.size);
            if obj.size >= 65536 {
                bytes_run(l, p, bindings, ptr) == failed::<Seq<u8>>(
                    seq![Cause::BytesTooLong(obj.size)],
                    p + 1,
                )
            } else {
                body.out matches Ok((data, _)) ==> bytes_run(l, p, bindings, ptr) == done(
                    data,
                    p + 2,
                )
            }
        },
{
}

/// The number of values a digit of an integer can have.
pub open spec fn digit_base() -> nat {
    if usize::BITS == 64 {
        0x4000_0000
    } else {
        0x8000
    }
}

/// The size of a digit of an integer.
pub open spec fn digit_width() -> int {
    if usize::BITS == 64 {
        4
    } else {
        2
    }
}

/// The number that digits stand for, the least significant first.
pub open spec fn digits_number(digits: Seq<nat>) -> nat
    decreases digits.len(),
{
    if digits.len() == 0 {
        0
    } else {
        digits[0] + digit_base() * digits_number(digits.skip(1))
    }
}

proof fn lemma_digits_number(digits: Seq<nat>)
    requires
        digits.len() <= 4,
    ensures
        digits.len() == 0 ==> digits_number(digits) == 0,
        digits.len() == 1 ==> digits_number(digits) == digits[0],
        digits.len() == 2 ==> digits_number(digits) == digits[0] + digit_base() * digits[1],
        digits.len() == 3 ==> digits_number(digits) == digits[0] + digit_base() * (digits[1]
            + digit_base() * digits[2]),
        digits.len() == 4 ==> digits_number(digits) == digits[0] + digit_base() * (digits[1]
            + digit_base() * (digits[2] + digit_base() * digits[3])),
    decreases digits.len(),
{
    if digits.len() > 0 {
        lemma_digits_number(digits.skip(1));
        assert(digit_base() * 0 == 0);
    }
}

/// An integer of at most sixty bits is copied as it is, whatever its sign.
pub proof fn law_long_reads_back(
    l: Seq<Event>,
    p: int,
    version: &Version,
    addr: usize,
    head: LongHead,
    digits: Seq<nat>,
)
    requires
        long_head_run(l, p, version, addr) == done(head, p + 1),
        head.count == digits.len() <= max_digits(),
        forall|i: int| 0 <= i < digits.len() ==> #[trigger] digits[i] < digit_base(),
        digits.len() >= 1 ==> head.digit == digits[0],
        digits.len() >= 2 ==> {
            let body = block_at(
                l,
                p + 1,
                addr.wrapping_add(head.size).wrapping_sub(digits_from_end()),
                8,
            );
            body.out matches Ok((data, order)) && forall|i: int|
                0 <= i < digits.len() ==> #[trigger] unit(data, order, i, digit_width())
                    == digits[i]
        },
    ensures
        long_run(l, p, version, addr).out == Ok::<(i64, bool), Seq<Cause>>(
            (if head.negative {
                (-digits_number(digits)) as i64
            } else {
                digits_number(digits) as i64
            }, false),
        ),
        digits_number(digits) < 0x1000_0000_0000_0000,
{
    lemma_digits_number(digits);
    if digits.len() >= 2 {
        let body = block_at(
            l,
            p + 1,
            addr.wrapping_add(head.size).wrapping_sub(digits_from_end()),
            8,
        );
        let (data, order) = body.out->Ok_0;
        assert(unit(data, order, 0, digit_width()) == digits[0]);
        assert(unit(data, order, 1, digit_width()) == digits[1]);
        if digits.len() >= 3 {
            assert(unit(data, order, 2, digit_width()) == digits[2]);
        }
        if digits.len() >= 4 {
            assert(unit(data, order, 3, digit_width()) == digits[3]);
        }
    }
}

/// An integer with more digits than are read comes out as their number, marked as an overflow,
/// and its digits are not read.
pub proof fn law_long_overflow(
    l: Seq<Event>,
    p: int,
    version: &Version,
    addr: usize,
    head: LongHead,
)
    requires
        long_head_run(l, p, version, addr) == done(head, p + 1),
        head.count > max_digits(),
    ensures
        long_run(l, p, version, addr) == done((head.count as i64, true), p + 1),
{
}

/// All that an iterator has left.
pub open spec fn walk_run(l: Seq<Event>, p: int, it: DictIterator) -> Run<Seq<(usize, usize)>>
    decreases it.entries - it.index,
{
    proof {
        law_next_advances(l, p, it);
    }
    let (item, rest) = next_run(l, p, it);
    match item.out {
        Err(causes) => failed(causes, item.next),
        Ok(None) => done(Seq::empty(), item.next),
        Ok(Some(pair)) => {
            let others = walk_run(l, item.next, rest);
            match others.out {
                Err(causes) => failed(causes, others.next),
                Ok(pairs) => done(seq![pair] + pairs, others.next),
            }
        },
    }
}

/// The keys and values of the entries that have a key.
pub open spec fn live_pairs(entries: Seq<DictEntry>) -> Seq<(usize, usize)>
    decreases entries.len(),
{
    if entries.len() == 0 {
        Seq::empty()
    } else if entries[0].me_key == 0 {
        live_pairs(entries.skip(1))
    } else {
        seq![(entries[0].me_key, entries[0].me_value)] + live_pairs(entries.skip(1))
    }
}

/// An iterator never gives more items than it has entries left, and none with a null key.
pub proof fn law_walk_is_bounded(l: Seq<Event>, p: int, it: DictIterator)
    ensures
        walk_run(l, p, it).out matches Ok(pairs) ==> {
            &&& it.index <= it.entries ==> pairs.len() <= it.entries - it.index
            &&& it.index > it.entries ==> pairs.len() == 0
            &&& forall|i: int| 0 <= i < pairs.len() ==> (#[trigger] pairs[i]).0 != 0
        },
    decreases it.entries - it.index,
{
    law_next_advances(l, p, it);
    let (item, rest) = next_run(l, p, it);
    if let Ok(Some(pair)) = item.out {
        law_walk_is_bounded(l, item.next, rest);
    }
}

/// Whether the log holds, from `p` on, the reads of all entries that `it` has left, and these are
/// the keys and values that the dictionary holds in them. A value is only read of an entry that
/// has a key.
pub open spec fn entries_read(
    l: Seq<Event>,
    p: int,
    it: DictIterator,
    entries: Seq<DictEntry>,
) -> bool
    decreases entries.len(),
{
    if entries.len() == 0 {
        it.index >= it.entries
    } else {
        let read = entry_run(l, p, it);
        &&& it.index < it.entries
        &&& read.out matches Ok(entry)
        &&& entry.me_key == entries[0].me_key
        &&& if entry.me_key == 0 {
            entries_read(l, read.next, advanced(it), entries.skip(1))
        } else if it.values == 0 {
            &&& entry.me_value == entries[0].me_value
            &&& entries_read(l, read.next, advanced(it), entries.skip(1))
        } else {
            let value = word_at(
                l,
                read.next,
                it.values.wrapping_add(it.index.wrapping_mul(word_size())),
            );
            &&& value.out == Ok::<usize, Seq<Cause>>(entries[0].me_value)
            &&& entries_read(l, value.next, advanced(it), entries.skip(1))
        }
    }
}

/// Iterating a dictionary gives exactly its entries that have a key, in their order, wherever the
/// values are kept.
pub proof fn law_walk_gives_live_entries(
    l: Seq<Event>,
    p: int,
    it: DictIterator,
    entries: Seq<DictEntry>,
)
    requires
        entries_read(l, p, it, entries),
    ensures
        walk_run(l, p, it).out == Ok::<Seq<(usize, usize)>, Seq<Cause>>(live_pairs(entries)),
    decreases entries.len(),
{
    law_next_advances(l, p, it);
    if entries.len() > 0 {
        let read = entry_run(l, p, it);
        let rest = advanced(it);
        let others = entries.skip(1);
        if entries[0].me_key == 0 {
            law_walk_gives_live_entries(l, read.next, rest, others);
            assert(next_run(l, p, it) == next_run(l, read.next, rest));
        } else if it.values == 0 {
            law_walk_gives_live_entries(l, read.next, rest, others);
        } else {
            let value = word_at(
                l,
                read.next,
                it.values.wrapping_add(it.index.wrapping_mul(word_size())),
            );
            law_walk_gives_live_entries(l, value.next, rest, others);
        }
    }
}

/// What an iterator makes of the one entry that comes next: its key and value, nothing where it has
/// no key, or a failure.
pub open spec fn slot_run(l: Seq<Event>, p: int, it: DictIterator) -> Run<Option<(usize, usize)>> {
    let read = entry_run(l, p, it);
    match read.out {
        Err(causes) => failed(causes, read.next),
        Ok(entry) => if entry.me_key == 0 {
            done(None, read.next)
        } else if it.values == 0 {
            done(Some((entry.me_key, entry.me_value)), read.next)
        } else {
            let value = word_at(
                l,
                read.next,
                it.values.wrapping_add(it.index.wrapping_mul(word_size())),
            );
            match value.out {
                Err(causes) => failed(causes, value.next),
                Ok(addr) => done(Some((entry.me_key, addr)), value.next),
            }
        },
    }
}

/// One item for each entry left that has a key or cannot be read, in their order, and the place in
/// the log behind the last entry.
pub open spec fn slot_items(l: Seq<Event>, p: int, it: DictIterator) -> (
    Seq<Result<(usize, usize), Seq<Cause>>>,
    int,
)
    decreases it.entries - it.index,
{
    if it.index >= it.entries {
        (Seq::empty(), p)
    } else {
        let slot = slot_run(l, p, it);
        let (others, end) = slot_items(l, slot.next, advanced(it));
        match slot.out {
            Err(causes) => (seq![Err(causes)] + others, end),
            Ok(None) => (others, end),
            Ok(Some(pair)) => (seq![Ok(pair)] + others, end),
        }
    }
}

/// Everything that an iterator gives until it ends, going on after failures, the place in the log
/// where it ends, and the iterator as it is then.
pub open spec fn drain_run(l: Seq<Event>, p: int, it: DictIterator) -> (
    Seq<Result<(usize, usize), Seq<Cause>>>,
    int,
    DictIterator,
)
    decreases it.entries - it.index,
{
    proof {
        law_next_advances(l, p, it);
    }
    let (item, rest) = next_run(l, p, it);
    match item.out {
        Ok(None) => (Seq::empty(), item.next, rest),
        Ok(Some(pair)) => {
            let (others, end, left) = drain_run(l, item.next, rest);
            (seq![Ok(pair)] + others, end, left)
        },
        Err(causes) => {
            let (others, end, left) = drain_run(l, item.next, rest);
            (seq![Err(causes)] + others, end, left)
        },
    }
}

/// An iteration gives one item for each entry that has a key or cannot be read, in the order of the
/// entries, and then ends for good, without reading anything more.
pub proof fn law_iteration(l: Seq<Event>, p: int, it: DictIterator)
    ensures
        ({
            let (items, end, left) = drain_run(l, p, it);
            &&& (items, end) == slot_items(l, p, it)
            &&& forall|later: Seq<Event>, q: int| #[trigger]
                next_run(later, q, left) == (done(None::<(usize, usize)>, q), left)
        }),
    decreases it.entries - it.index,
{
    law_next_advances(l, p, it);
    if it.index < it.entries {
        let slot = slot_run(l, p, it);
        let rest = advanced(it);
        law_iteration(l, slot.next, rest);
        if slot.out matches Ok(None) {
            assert(next_run(l, p, it) == next_run(l, slot.next, rest));
        }
    }
}

} // verus!
