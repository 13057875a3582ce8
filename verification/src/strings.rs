//! Python's string representations.
use vstd::prelude::*;
#[allow(unused_imports)]
use vstd::utf8::{
    char_is_scalar, char_u32_cast, decode_utf8, encode_utf8, encode_utf8_decode_utf8,
    encode_utf8_valid_utf8, is_ascii_chars, is_ascii_chars_encode_utf8, pop_first_scalar, valid_utf8,
};

use crate::bytes::{ByteOrder, Copied};
#[allow(unused_imports)]
use crate::bytes::{law_packed_reads_back, lemma_spelled_bound, packed, span, unit};
use crate::error::{Cause, InvalidString, Utf8Fault};

verus! {

/// Whether a `char` can have this value: whether it is a unicode scalar value.
pub open spec fn is_char_value(u: nat) -> bool {
    u < 0xd800 || 0xe000 <= u < 0x110000
}

/// Converts an integer to the `char` of that value, as std's `char::from_u32` documents: there
/// is none exactly where the integer is not a valid value for a `char`.
pub assume_specification[ char::from_u32 ](i: u32) -> (r: Option<char>)
    ensures
        r is Some <==> is_char_value(i as nat),
        r matches Some(c) ==> c == i as char,
;

/// The length of the longest prefix of `data`, of at most `most` bytes, that is valid UTF-8.
pub open spec fn longest_valid(data: Seq<u8>, most: nat) -> nat
    decreases most,
{
    if most == 0 || valid_utf8(data.take(most as int)) {
        most
    } else {
        longest_valid(data, (most - 1) as nat)
    }
}

/// What `error_len` of std gives for the error that decoding these bytes as UTF-8 ends in: the
/// length of the sequence that is invalid, or nothing where the bytes end too early.
pub uninterp spec fn utf8_error_len(data: Seq<u8>) -> Option<usize>;

/// Where bytes that are not valid UTF-8 stop being so.
pub open spec fn utf8_fault(data: Seq<u8>) -> Utf8Fault {
    Utf8Fault {
        valid_up_to: longest_valid(data, data.len()) as usize,
        error_len: utf8_error_len(data),
    }
}

/// Calls `String::from_utf8` of std: gives the text that the bytes encode where they are valid
/// UTF-8. Where they are not, the error is taken apart by its `valid_up_to`, the most bytes that
/// are valid by themselves, and its `error_len`, which only has a name here.
#[verifier::external_body]
fn utf8_string(bytes: Vec<u8>) -> (r: Result<String, Utf8Fault>)
    ensures
        r is Ok <==> valid_utf8(bytes@),
        r matches Ok(s) ==> s@ == decode_utf8(bytes@),
        r matches Err(fault) ==> fault.valid_up_to == longest_valid(bytes@, bytes@.len()),
        r matches Err(fault) ==> fault.error_len == utf8_error_len(bytes@),
{
    match String::from_utf8(bytes) {
        Ok(s) => Ok(s),
        Err(e) => Err(
            Utf8Fault {
                valid_up_to: e.utf8_error().valid_up_to(),
                error_len: e.utf8_error().error_len(),
            },
        ),
    }
}

/// What a string comes to, given how decoding its bytes as UTF-8 went.
pub fn utf8_outcome(text: Result<String, Utf8Fault>, check_utf8: bool) -> (r: Result<String, Cause>)
    ensures
        r == match text {
            Ok(s) => Ok::<String, Cause>(s),
            Err(_) if check_utf8 => Err(Cause::Invalid(InvalidString)),
            Err(fault) => Err(Cause::NotUtf8(fault)),
        },
{
    match text {
        Ok(s) => Ok(s),
        Err(_) if check_utf8 => Err(Cause::Invalid(InvalidString)),
        Err(fault) => Err(Cause::NotUtf8(fault)),
    }
}

/// The text that UTF-8 bytes encode, if they are valid, and where they stop being so otherwise.
pub fn decode_name(bytes: &Vec<u8>, length: usize) -> (r: Result<String, Utf8Fault>)
    requires
        length <= bytes@.len(),
    ensures
        r is Ok <==> valid_utf8(bytes@.take(length as int)),
        r matches Ok(s) ==> s@ == decode_utf8(bytes@.take(length as int)),
        r matches Err(fault) ==> fault == utf8_fault(bytes@.take(length as int)),
{
    let mut name: Vec<u8> = Vec::new();
    for i in 0..length
        invariant
            length <= bytes@.len(),
            name@ == bytes@.take(i as int),
    {
        name.push(bytes[i]);
        assert(name@ =~= bytes@.take(i + 1));
    }
    utf8_string(name)
}

/// The character of this value, or the replacement character where there is none.
pub open spec fn char_or_replacement(u: nat) -> char {
    if is_char_value(u) {
        u as u32 as char
    } else {
        '\u{fffd}'
    }
}

/// The text that four byte code points stand for, with replacement characters for what is not
/// a character.
pub open spec fn ucs4_text(data: Seq<u8>, order: ByteOrder) -> Seq<char> {
    Seq::new(data.len() / 4, |i: int| char_or_replacement(unit(data, order, i, 4)))
}

/// Whether each of the four byte code points is a character.
pub open spec fn ucs4_valid(data: Seq<u8>, order: ByteOrder) -> bool {
    forall|i: int| 0 <= i < data.len() / 4 ==> is_char_value(#[trigger] unit(data, order, i, 4))
}

/// The two byte units that `data` is made of.
pub open spec fn ucs2_units(data: Seq<u8>, order: ByteOrder) -> Seq<nat> {
    Seq::new(data.len() / 2, |i: int| unit(data, order, i, 2))
}

/// Whether a pair of UTF-16 units starts with this one.
pub open spec fn is_high_surrogate(u: nat) -> bool {
    0xd800 <= u < 0xdc00
}

/// Whether a pair of UTF-16 units ends with this one.
pub open spec fn is_low_surrogate(u: nat) -> bool {
    0xdc00 <= u < 0xe000
}

/// The character that a pair of UTF-16 units stands for.
pub open spec fn surrogate_pair(high: nat, low: nat) -> char {
    (0x10000 + (high - 0xd800) * 0x400 + (low - 0xdc00)) as u32 as char
}

/// The text that UTF-16 units encode, if they are valid.
pub open spec fn utf16_text(units: Seq<nat>) -> Option<Seq<char>>
    decreases units.len(),
{
    if units.len() == 0 {
        Some(Seq::empty())
    } else if is_char_value(units[0]) {
        match utf16_text(units.skip(1)) {
            Some(rest) => Some(seq![units[0] as u32 as char] + rest),
            None => None,
        }
    } else if is_high_surrogate(units[0]) && units.len() >= 2 && is_low_surrogate(units[1]) {
        match utf16_text(units.skip(2)) {
            Some(rest) => Some(seq![surrogate_pair(units[0], units[1])] + rest),
            None => None,
        }
    } else {
        None
    }
}

/// The text that Latin-1 bytes stand for.
pub open spec fn latin1_text(data: Seq<u8>) -> Seq<char> {
    Seq::new(data.len(), |i: int| data[i] as char)
}

/// Whether all bytes are ASCII.
pub open spec fn all_ascii(data: Seq<u8>) -> bool {
    forall|i: int| 0 <= i < data.len() ==> #[trigger] data[i] < 0x80
}

/// What the characters of a string object come to, `kind` bytes each.
///
/// `check_utf8` rejects anything inconsistent with the declared kind as an invalid string.
pub open spec fn decoded(
    kind: u32,
    ascii: bool,
    data: Seq<u8>,
    order: ByteOrder,
    check_utf8: bool,
) -> Result<Seq<char>, Cause> {
    if kind == 4 {
        if check_utf8 && !ucs4_valid(data, order) {
            Err(Cause::Invalid(InvalidString))
        } else {
            Ok(ucs4_text(data, order))
        }
    } else if kind == 2 {
        match utf16_text(ucs2_units(data, order)) {
            Some(text) => Ok(text),
            None => if check_utf8 {
                Err(Cause::Invalid(InvalidString))
            } else {
                Err(Cause::NotUtf16)
            },
        }
    } else if kind == 1 && ascii {
        if check_utf8 && !all_ascii(data) {
            Err(Cause::Invalid(InvalidString))
        } else if valid_utf8(data) {
            Ok(decode_utf8(data))
        } else if check_utf8 {
            Err(Cause::Invalid(InvalidString))
        } else {
            Err(Cause::NotUtf8(utf8_fault(data)))
        }
    } else if kind == 1 {
        Ok(latin1_text(data))
    } else {
        Err(Cause::UnknownKind(kind))
    }
}

/// A decoding result with the text taken by its view.
pub open spec fn decoding(r: Result<String, Cause>) -> Result<Seq<char>, Cause> {
    match r {
        Ok(s) => Ok(s@),
        Err(cause) => Err(cause),
    }
}

fn decode_ucs4(bytes: &Copied, check_utf8: bool) -> (r: Result<String, Cause>)
    ensures
        decoding(r) == decoded(4, false, bytes.data@, bytes.order, check_utf8),
{
    let n: usize = bytes.data.len() / 4;
    let mut ret = String::new();
    for i in 0..n
        invariant
            n == bytes.data@.len() / 4,
            ret@ == ucs4_text(bytes.data@, bytes.order).take(i as int),
            check_utf8 ==> forall|j: int|
                0 <= j < i ==> is_char_value(#[trigger] unit(bytes.data@, bytes.order, j, 4)),
    {
        let ghost before = ret@;
        let code: u64 = bytes.unit(i, 4);
        proof {
            lemma_spelled_bound(bytes.data@.subrange(i * 4, i * 4 + 4), bytes.order);
        }
        match char::from_u32(code as u32) {
            Some(c) => {
                ret.push(c);
            },
            None => {
                if check_utf8 {
                    assert(!ucs4_valid(bytes.data@, bytes.order));
                    return Err(Cause::Invalid(InvalidString));
                }
                ret.push('\u{fffd}');
            },
        }
        assert(ret@ =~= ucs4_text(bytes.data@, bytes.order).take(i + 1));
    }
    assert(ret@ =~= ucs4_text(bytes.data@, bytes.order));
    Ok(ret)
}

fn decode_utf16(bytes: &Copied) -> (r: Option<String>)
    ensures
        match r {
            Some(s) => utf16_text(ucs2_units(bytes.data@, bytes.order)) == Some(s@),
            None => utf16_text(ucs2_units(bytes.data@, bytes.order)) is None,
        },
{
    let n: usize = bytes.data.len() / 2;
    let ghost units = ucs2_units(bytes.data@, bytes.order);
    let mut ret = String::new();
    let mut i: usize = 0;
    assert(units.skip(0) =~= units);
    proof {
        if utf16_text(units) is Some {
            assert(ret@ + utf16_text(units)->0 =~= utf16_text(units)->0);
        }
    }
    while i < n
        invariant
            i <= n == bytes.data@.len() / 2,
            units == ucs2_units(bytes.data@, bytes.order),
            match utf16_text(units.skip(i as int)) {
                Some(rest) => utf16_text(units) == Some(ret@ + rest),
                None => utf16_text(units) is None,
            },
        decreases n - i,
    {
        let ghost before = ret@;
        let ghost left = units.skip(i as int);
        let first: u64 = bytes.unit(i, 2);
        proof {
            lemma_spelled_bound(bytes.data@.subrange(i * 2, i * 2 + 2), bytes.order);
            assert(left[0] == first);
            assert(left.skip(1) =~= units.skip(i + 1));
        }
        match char::from_u32(first as u32) {
            Some(c) => {
                ret.push(c);
                i = i + 1;
                proof {
                    if let Some(rest) = utf16_text(left.skip(1)) {
                        assert(before + (seq![c] + rest) =~= ret@ + rest);
                    }
                }
            },
            None => {
                if first >= 0xdc00 || i + 1 >= n {
                    return None;
                }
                let second: u64 = bytes.unit(i + 1, 2);
                proof {
                    lemma_spelled_bound(
                        bytes.data@.subrange((i + 1) * 2, (i + 1) * 2 + 2),
                        bytes.order,
                    );
                    assert(left[1] == second);
                    assert(left.skip(2) =~= units.skip(i + 2));
                }
                if second < 0xdc00 || second >= 0xe000 {
                    return None;
                }
                let code: u64 = 0x10000 + (first - 0xd800) * 0x400 + (second - 0xdc00);
                match char::from_u32(code as u32) {
                    Some(c) => {
                        ret.push(c);
                        i = i + 2;
                        proof {
                            if let Some(rest) = utf16_text(left.skip(2)) {
                                assert(before + (seq![c] + rest) =~= ret@ + rest);
                            }
                        }
                    },
                    None => {
                        return None;
                    },
                }
            },
        }
    }
    assert(units.skip(i as int) =~= Seq::<nat>::empty());
    assert(ret@ + Seq::<char>::empty() =~= ret@);
    Some(ret)
}

fn decode_latin1(bytes: &Copied) -> (r: String)
    ensures
        r@ == latin1_text(bytes.data@),
{
    let n: usize = bytes.data.len();
    let mut ret = String::new();
    for i in 0..n
        invariant
            n == bytes.data@.len(),
            ret@ == latin1_text(bytes.data@).take(i as int),
    {
        ret.push(bytes.data[i] as char);
        assert(ret@ =~= latin1_text(bytes.data@).take(i + 1));
    }
    assert(ret@ =~= latin1_text(bytes.data@));
    ret
}

fn is_all_ascii(data: &Vec<u8>) -> (r: bool)
    ensures
        r == all_ascii(data@),
{
    for i in 0..data.len()
        invariant
            forall|j: int| 0 <= j < i ==> #[trigger] data@[j] < 0x80,
    {
        if data[i] >= 0x80 {
            return false;
        }
    }
    true
}

/// Decodes the characters of a string object.
///
/// A string stored with four bytes per character is not simply reinterpreted: the words are
/// whatever the target happened to have in memory, and need not be characters. An ASCII string
/// is held to more than UTF-8 under `check_utf8`, since it can't hold multibyte sequences.
pub fn decode_string(kind: u32, ascii: bool, bytes: Copied, check_utf8: bool) -> (r: Result<
    String,
    Cause,
>)
    ensures
        decoding(r) == decoded(kind, ascii, bytes.data@, bytes.order, check_utf8),
{
    if kind == 4 {
        decode_ucs4(&bytes, check_utf8)
    } else if kind == 2 {
        match decode_utf16(&bytes) {
            Some(s) => Ok(s),
            None => if check_utf8 {
                Err(Cause::Invalid(InvalidString))
            } else {
                Err(Cause::NotUtf16)
            },
        }
    } else if kind == 1 && ascii {
        if check_utf8 && !is_all_ascii(&bytes.data) {
            return Err(Cause::Invalid(InvalidString));
        }
        utf8_outcome(utf8_string(bytes.data), check_utf8)
    } else if kind == 1 {
        Ok(decode_latin1(&bytes))
    } else {
        Err(Cause::UnknownKind(kind))
    }
}

/// The values of the characters of a text.
pub open spec fn code_points(text: Seq<char>) -> Seq<nat> {
    Seq::new(text.len(), |i: int| text[i] as u32 as nat)
}

/// The UTF-16 units of a text.
pub open spec fn utf16_units(text: Seq<char>) -> Seq<nat>
    decreases text.len(),
{
    if text.len() == 0 {
        Seq::empty()
    } else {
        let c = text[0] as u32 as nat;
        let rest = utf16_units(text.skip(1));
        if c < 0x10000 {
            seq![c] + rest
        } else {
            seq![
                (0xd800 + (c - 0x10000) / 0x400) as nat,
                (0xdc00 + (c - 0x10000) % 0x400) as nat,
            ] + rest
        }
    }
}

/// The low bytes of the characters of a text.
pub open spec fn low_bytes(text: Seq<char>) -> Seq<u8> {
    Seq::new(text.len(), |i: int| text[i] as u32 as u8)
}

proof fn lemma_char_value(c: char)
    ensures
        is_char_value(c as u32 as nat),
        (c as u32) as char == c,
{
    char_is_scalar(c);
    char_u32_cast(c, c as u32);
}

/// A text stored as four byte code points is copied as it is.
pub proof fn law_ucs4_reads_back(text: Seq<char>, order: ByteOrder, ascii: bool, check_utf8: bool)
    ensures
        decoded(4, ascii, packed(code_points(text), 4, order), order, check_utf8)
            == Ok::<Seq<char>, Cause>(text),
{
    let units = code_points(text);
    let data = packed(units, 4, order);
    assert(span(4) == 0x1_0000_0000) by {
        reveal_with_fuel(span, 5);
    }
    law_packed_reads_back(units, 4, order);
    assert forall|i: int| 0 <= i < data.len() / 4 implies is_char_value(
        #[trigger] unit(data, order, i, 4),
    ) && unit(data, order, i, 4) as u32 as char == text[i] by {
        lemma_char_value(text[i]);
        assert(unit(data, order, i, 4) == units[i]);
    }
    assert(ucs4_text(data, order) =~= text);
}

proof fn lemma_utf16_units(text: Seq<char>)
    ensures
        utf16_text(utf16_units(text)) == Some(text),
        forall|i: int|
            0 <= i < utf16_units(text).len() ==> #[trigger] utf16_units(text)[i] < 0x10000,
    decreases text.len(),
{
    let units = utf16_units(text);
    if text.len() == 0 {
        assert(text =~= Seq::empty());
    } else {
        let c = text[0] as u32 as nat;
        let rest = utf16_units(text.skip(1));
        lemma_utf16_units(text.skip(1));
        lemma_char_value(text[0]);
        if c < 0x10000 {
            assert(units.skip(1) =~= rest);
            assert(seq![units[0] as u32 as char] + text.skip(1) =~= text);
        } else {
            assert(units.skip(2) =~= rest);
            assert(surrogate_pair(units[0], units[1]) == text[0]) by {
                assert((c - 0x10000) / 0x400 * 0x400 + (c - 0x10000) % 0x400 == c - 0x10000);
            }
            assert(seq![text[0]] + text.skip(1) =~= text);
        }
    }
}

/// A text stored as two byte units is copied as it is.
pub proof fn law_ucs2_reads_back(text: Seq<char>, order: ByteOrder, ascii: bool, check_utf8: bool)
    ensures
        decoded(2, ascii, packed(utf16_units(text), 2, order), order, check_utf8)
            == Ok::<Seq<char>, Cause>(text),
{
    let units = utf16_units(text);
    let data = packed(units, 2, order);
    lemma_utf16_units(text);
    assert(span(2) == 0x1_0000) by {
        reveal_with_fuel(span, 3);
    }
    law_packed_reads_back(units, 2, order);
    assert(ucs2_units(data, order) =~= units);
}

/// A text stored as Latin-1 is copied as it is.
pub proof fn law_latin1_reads_back(text: Seq<char>, order: ByteOrder, check_utf8: bool)
    requires
        forall|i: int| 0 <= i < text.len() ==> (#[trigger] text[i] as u32 as nat) < 0x100,
    ensures
        decoded(1, false, low_bytes(text), order, check_utf8) == Ok::<Seq<char>, Cause>(text),
{
    assert(latin1_text(low_bytes(text)) =~= text) by {
        assert forall|i: int| 0 <= i < text.len() implies latin1_text(low_bytes(text))[i] == text[i] by {
            lemma_char_value(text[i]);
            assert((text[i] as u32 as nat) < 0x100);
        }
    }
}

proof fn lemma_ascii_bytes(data: Seq<u8>)
    requires
        all_ascii(data),
    ensures
        valid_utf8(data),
        decode_utf8(data) == latin1_text(data),
{
    let text = latin1_text(data);
    assert forall|i: int| 0 <= i < text.len() implies '\0' <= #[trigger] text[i] <= '\u{7f}' by {
        assert(data[i] < 0x80);
    }
    is_ascii_chars_encode_utf8(text);
    assert(encode_utf8(text) =~= data) by {
        assert forall|i: int| 0 <= i < data.len() implies encode_utf8(text)[i] == data[i] by {
            assert(text[i] as u8 == encode_utf8(text)[i]);
            assert(data[i] < 0x80);
        }
    }
    encode_utf8_valid_utf8(text);
    encode_utf8_decode_utf8(text);
}

/// An ASCII string is taken strictly exactly where all its bytes are ASCII, and each byte is then
/// a character.
pub proof fn law_strict_ascii(data: Seq<u8>, order: ByteOrder)
    ensures
        decoded(1, true, data, order, true) is Ok <==> all_ascii(data),
        all_ascii(data) ==> decoded(1, true, data, order, true) == Ok::<Seq<char>, Cause>(
            latin1_text(data),
        ),
{
    if all_ascii(data) {
        lemma_ascii_bytes(data);
    }
}

/// An ASCII text stored as such is copied as it is.
pub proof fn law_ascii_reads_back(text: Seq<char>, order: ByteOrder, check_utf8: bool)
    requires
        is_ascii_chars(text),
    ensures
        decoded(1, true, low_bytes(text), order, check_utf8) == Ok::<Seq<char>, Cause>(text),
{
    let data = low_bytes(text);
    assert forall|i: int| 0 <= i < data.len() implies #[trigger] data[i] < 0x80 by {
        assert('\0' <= text[i] <= '\u{7f}');
    }
    lemma_ascii_bytes(data);
    assert(latin1_text(data) =~= text) by {
        assert forall|i: int| 0 <= i < text.len() implies latin1_text(data)[i] == text[i] by {
            assert('\0' <= text[i] <= '\u{7f}');
        }
    }
}

/// What strict decoding takes, lenient decoding takes too, with the same text.
pub proof fn law_strict_text_is_lenient_text(
    kind: u32,
    ascii: bool,
    data: Seq<u8>,
    order: ByteOrder,
)
    ensures
        decoded(kind, ascii, data, order, true) is Ok ==> decoded(kind, ascii, data, order, false)
            == decoded(kind, ascii, data, order, true),
{
}

/// Strict decoding reports whatever does not fit a known kind as an invalid string.
pub proof fn law_strict_failure_is_invalid(
    kind: u32,
    ascii: bool,
    data: Seq<u8>,
    order: ByteOrder,
)
    requires
        kind == 1 || kind == 2 || kind == 4,
    ensures
        decoded(kind, ascii, data, order, true) matches Err(cause) ==> cause is Invalid,
{
}

/// Lenient decoding reports nothing as an invalid string.
pub proof fn law_lenient_failure_is_not_invalid(
    kind: u32,
    ascii: bool,
    data: Seq<u8>,
    order: ByteOrder,
)
    ensures
        decoded(kind, ascii, data, order, false) matches Err(cause) ==> !(cause is Invalid),
{
}

/// Latin-1 and, unless strict, four byte code points can be decoded whatever the bytes are.
pub proof fn law_always_decoded(ascii: bool, data: Seq<u8>, order: ByteOrder, check_utf8: bool)
    ensures
        decoded(1, false, data, order, check_utf8) is Ok,
        decoded(4, ascii, data, order, false) is Ok,
{
}

proof fn lemma_utf16_shrinks(units: Seq<nat>)
    ensures
        utf16_text(units) matches Some(text) ==> text.len() <= units.len(),
    decreases units.len(),
{
    if units.len() > 0 {
        lemma_utf16_shrinks(units.skip(1));
        if units.len() > 1 {
            lemma_utf16_shrinks(units.skip(2));
        }
    }
}

proof fn lemma_decode_utf8_shrinks(data: Seq<u8>)
    requires
        valid_utf8(data),
    ensures
        decode_utf8(data).len() <= data.len(),
    decreases data.len(),
{
    if data.len() > 0 {
        let rest = pop_first_scalar(data);
        assert(rest.len() < data.len());
        lemma_decode_utf8_shrinks(rest);
    }
}

/// A decoded text has no more characters than there were code units.
pub proof fn law_decoded_length(
    kind: u32,
    ascii: bool,
    data: Seq<u8>,
    order: ByteOrder,
    check_utf8: bool,
)
    ensures
        decoded(kind, ascii, data, order, check_utf8) matches Ok(text) ==> text.len()
            <= data.len() / (kind as nat),
{
    if kind == 4 {
        assert(data.len() / 4 * 4 <= data.len());
    } else if kind == 2 {
        lemma_utf16_shrinks(ucs2_units(data, order));
    } else if kind == 1 && ascii && valid_utf8(data) {
        lemma_decode_utf8_shrinks(data);
    }
}

} // verus!
