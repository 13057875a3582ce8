//! What reading a target, numbers and strings come to, said of the answers themselves.
use vstd::prelude::*;
#[allow(unused_imports)]
use vstd::utf8::{decode_utf8, valid_utf8};

#[allow(unused_imports)]
use crate::bytes::{
    law_packed_reads_back, law_written_reads_back, packed, span, spelled, unit, word_size, written,
    ByteOrder,
};
#[allow(unused_imports)]
use crate::error::{cause_text, holds_invalid_string, Cause, InvalidString, ReadError};
#[allow(unused_imports)]
use crate::objects::{Bindings, CodeObject, InterpreterState, Structure};
#[allow(unused_imports)]
use crate::strings::{
    decoded, longest_valid, ucs2_units, utf16_text, utf16_units, utf8_error_len, utf8_fault,
};
#[allow(unused_imports)]
use crate::target::{
    block_at, bytes_at, done, double_text_at, failed, interpreter_at, line_number_at, single_text_at,
    struct_at, with_context, word_at, Event, Run,
};
#[allow(unused_imports)]
use crate::text::{decimal_text, hex_text, numeral, upper_hex_text};

verus! {

/// Bytes come out as the process answered with them, in the byte order of the answer, and a failed
/// read comes out as such.
pub proof fn law_bytes_come_as_answered(
    l: Seq<Event>,
    p: int,
    addr: usize,
    length: usize,
    order: ByteOrder,
    reply: Result<Seq<u8>, ReadError>,
)
    requires
        0 <= p < l.len(),
        l[p] == (Event::Bytes { addr, length, order, reply }),
    ensures
        reply matches Ok(data) ==> {
            &&& bytes_at(l, p, addr, length) == done((data, order), p + 1)
            &&& data.len() == length ==> block_at(l, p, addr, length) == done((data, order), p + 1)
            &&& data.len() != length ==> block_at(l, p, addr, length) == failed::<
                (Seq<u8>, ByteOrder),
            >(seq![Cause::ShortRead { wanted: length, got: data.len() as usize }], p + 1)
        },
        reply matches Err(e) ==> {
            &&& bytes_at(l, p, addr, length) == failed::<(Seq<u8>, ByteOrder)>(
                seq![Cause::Read(e)],
                p + 1,
            )
            &&& block_at(l, p, addr, length) == failed::<(Seq<u8>, ByteOrder)>(
                seq![Cause::Read(e)],
                p + 1,
            )
        },
{
}

/// An address has as many bytes as the machine's words.
pub proof fn law_word_size()
    ensures
        word_size() * 8 == usize::BITS,
{
}

/// An address that is stored in the target is what reading a word at its place gives.
pub proof fn law_word_reads_back(l: Seq<Event>, p: int, addr: usize, order: ByteOrder, value: usize)
    requires
        0 <= p < l.len(),
        l[p] == (Event::Bytes {
            addr,
            length: (usize::BITS / 8) as usize,
            order,
            reply: Ok(written(value as nat, (usize::BITS / 8) as nat, order)),
        }),
    ensures
        word_at(l, p, addr) == done(value, p + 1),
{
    assert(span(4) == 0x1_0000_0000 && span(8) == 0x1_0000_0000_0000_0000) by {
        reveal_with_fuel(span, 9);
    }
    law_written_reads_back(value as nat, word_size() as nat, order);
}

/// A structure comes out as the process answered with it, and a failed read comes out as such.
pub proof fn law_structures_come_as_answered<T: Structure>(
    l: Seq<Event>,
    p: int,
    bindings: Bindings,
    addr: usize,
    reply: Result<T, ReadError>,
)
    requires
        0 <= p < l.len(),
        l[p] == (Event::Struct { bindings, addr, record: T::record(reply) }),
    ensures
        reply matches Ok(value) ==> struct_at::<T>(l, p, bindings, addr) == done(value, p + 1),
        reply matches Err(e) ==> struct_at::<T>(l, p, bindings, addr) == failed::<T>(
            seq![Cause::Read(e)],
            p + 1,
        ),
{
    T::lemma_reply_of_record(reply);
}

/// What the headers of the process's Python say comes out as it was answered.
pub proof fn law_lookups_come_as_answered(
    l: Seq<Event>,
    p: int,
    bindings: Bindings,
    code: CodeObject,
    lasti: i32,
    table: Seq<u8>,
    state: InterpreterState,
    line: i32,
)
    requires
        0 <= p < l.len(),
    ensures
        l[p] == (Event::Interpreter { bindings, reply: state }) ==> interpreter_at(l, p, bindings)
            == done(state, p + 1),
        l[p] == (Event::LineNumber { bindings, code, lasti, table, reply: line })
            ==> line_number_at(l, p, bindings, code, lasti, table) == done(line, p + 1),
{
}

/// The text of a floating point number is the one answered for its own bits.
pub proof fn law_float_texts_come_as_answered(
    l: Seq<Event>,
    p: int,
    single: u32,
    double: u64,
    text: Seq<char>,
)
    requires
        0 <= p < l.len(),
    ensures
        l[p] == (Event::SingleText { bits: single, reply: text }) ==> single_text_at(l, p, single)
            == done(text, p + 1),
        l[p] == (Event::DoubleText { bits: double, reply: text }) ==> double_text_at(l, p, double)
            == done(text, p + 1),
{
}

/// Context is the outermost cause of a failure, with the others as they were, and a success has
/// none.
pub proof fn law_context_is_outermost<A>(run: Run<A>, message: &'static str)
    ensures
        with_context(run, message).next == run.next,
        run.out is Ok ==> with_context(run, message).out == run.out,
        run.out matches Err(causes) ==> {
            let wrapped = with_context(run, message).out->Err_0;
            &&& with_context(run, message).out is Err
            &&& wrapped.len() == causes.len() + 1
            &&& wrapped.last() == Cause::Message(message)
            &&& wrapped.take(causes.len() as int) == causes
        },
{
    if let Err(causes) = run.out {
        assert(causes.push(Cause::Message(message)).take(causes.len() as int) =~= causes);
    }
}

/// An invalid string counts wherever in the chain of causes it stands.
pub proof fn law_any_cause_counts(causes: Seq<Cause>, i: int)
    requires
        0 <= i < causes.len(),
    ensures
        causes[i] is Invalid ==> holds_invalid_string(causes),
        (forall|j: int| 0 <= j < causes.len() ==> !(#[trigger] causes[j] is Invalid))
            ==> !holds_invalid_string(causes),
{
}

/// The words for each cause, around what it was about.
pub proof fn law_cause_texts(cause: Cause)
    ensures
        match cause {
            Cause::Read(e) => cause_text(cause) == e.message@,
            Cause::ShortRead { wanted, got } => cause_text(cause) == "Read "@ + decimal_text(
                got as int,
            ) + " of "@ + decimal_text(wanted as int) + " bytes"@,
            Cause::Invalid(_) => cause_text(cause) == "invalid string read from target process"@,
            Cause::StringTooLong(n) => cause_text(cause) == "Refusing to copy "@ + decimal_text(
                n as int,
            ) + " chars of a string"@,
            Cause::BytesTooLong(n) => cause_text(cause) == "Refusing to copy "@ + decimal_text(
                n as int,
            ) + " bytes"@,
            Cause::UnknownKind(n) => cause_text(cause) == "Unknown string kind "@ + decimal_text(
                n as int,
            ),
            Cause::NotUtf8(fault) => match fault.error_len {
                Some(n) => cause_text(cause) == "invalid utf-8 sequence of "@ + decimal_text(n as int)
                    + " bytes from index "@ + decimal_text(fault.valid_up_to as int),
                None => cause_text(cause) == "incomplete utf-8 byte sequence from index "@
                    + decimal_text(fault.valid_up_to as int),
            },
            Cause::NotUtf16 => cause_text(cause) == "invalid utf-16: lone surrogate found"@,
            Cause::Message(m) => cause_text(cause) == m@,
        },
{
}

/// Decimal numerals: a digit is its own character, each further digit is written behind the others,
/// and a negative number has a minus in front.
pub proof fn law_decimal_text(n: nat, d: nat)
    requires
        d < 10,
    ensures
        decimal_text(d as int) == seq![(48 + d) as u32 as char],
        n > 0 ==> decimal_text((10 * n + d) as int) == decimal_text(n as int).push(
            (48 + d) as u32 as char,
        ),
        n > 0 ==> decimal_text(-n) == seq!['-'] + decimal_text(n as int),
{
    reveal_strlit("0123456789");
    reveal_strlit("-");
    let digits = "0123456789"@;
    assert(digits[d as int] == (48 + d) as u32 as char);
    assert("-"@ =~= seq!['-']);
    if n > 0 {
        assert((10 * n + d) / 10 == n);
        assert((10 * n + d) % 10 == d);
        assert(decimal_text((10 * n + d) as int) == numeral(n, digits).push(digits[d as int]));
    }
}

/// Hexadecimal numerals in lower and upper case: a digit is its own character, and each further
/// digit is written behind the others.
pub proof fn law_hex_text(n: nat, d: nat)
    requires
        d < 16,
    ensures
        ({
            let lower = (if d < 10 {
                48 + d
            } else {
                87 + d
            }) as u32 as char;
            let upper = (if d < 10 {
                48 + d
            } else {
                55 + d
            }) as u32 as char;
            &&& hex_text(d) == seq![lower]
            &&& upper_hex_text(d) == seq![upper]
            &&& n > 0 ==> hex_text(16 * n + d) == hex_text(n).push(lower)
            &&& n > 0 ==> upper_hex_text(16 * n + d) == upper_hex_text(n).push(upper)
        }),
{
    reveal_strlit("0123456789abcdef");
    reveal_strlit("0123456789ABCDEF");
    let lower = "0123456789abcdef"@;
    let upper = "0123456789ABCDEF"@;
    assert(lower[d as int] == (if d < 10 {
        48 + d
    } else {
        87 + d
    }) as u32 as char);
    assert(upper[d as int] == (if d < 10 {
        48 + d
    } else {
        55 + d
    }) as u32 as char);
    if n > 0 {
        assert((16 * n + d) / 16 == n);
        assert((16 * n + d) % 16 == d);
        assert(hex_text(16 * n + d) == numeral(n, lower).push(lower[d as int]));
        assert(upper_hex_text(16 * n + d) == numeral(n, upper).push(upper[d as int]));
    }
}

/// Two bytes spell the one in front times 256 and the other, or the other way round.
pub proof fn law_byte_orders(a: u8, b: u8)
    ensures
        spelled(seq![a, b], ByteOrder::Little) == a + 256 * b,
        spelled(seq![a, b], ByteOrder::Big) == 256 * a + b,
{
    reveal_with_fuel(crate::bytes::big_endian, 3);
    assert(seq![a, b].drop_last() =~= seq![a]);
    assert(seq![a].drop_last() =~= Seq::<u8>::empty());
    assert(seq![a, b].reverse() =~= seq![b, a]);
    assert(seq![b, a].drop_last() =~= seq![b]);
    assert(seq![b].drop_last() =~= Seq::<u8>::empty());
}

/// Whether a character has this code point.
pub open spec fn is_code_point(n: nat) -> bool {
    n <= 0xd7ff || (0xe000 <= n && n <= 0x10ffff)
}

/// Four byte code points: strictly they come out where all of them are characters, and otherwise
/// they are an invalid string; leniently each that is no character comes out as U+FFFD.
pub proof fn law_four_byte_strings(units: Seq<nat>, order: ByteOrder, ascii: bool)
    requires
        forall|i: int| 0 <= i < units.len() ==> #[trigger] units[i] < 0x1_0000_0000,
    ensures
        ({
            let data = packed(units, 4, order);
            let all = forall|i: int| 0 <= i < units.len() ==> is_code_point(#[trigger] units[i]);
            let strict = decoded(4, ascii, data, order, true);
            let lenient = decoded(4, ascii, data, order, false);
            &&& all ==> strict == lenient
            &&& !all ==> strict == Err::<Seq<char>, Cause>(Cause::Invalid(InvalidString))
            &&& lenient matches Ok(text)
            &&& text.len() == units.len()
            &&& forall|i: int|
                0 <= i < units.len() ==> #[trigger] text[i] == if is_code_point(units[i]) {
                    units[i] as u32 as char
                } else {
                    '\u{fffd}'
                }
        }),
{
    let data = packed(units, 4, order);
    assert(span(4) == 0x1_0000_0000) by {
        reveal_with_fuel(span, 5);
    }
    law_packed_reads_back(units, 4, order);
    let valid = crate::strings::ucs4_valid(data, order);
    assert(data.len() / 4 == units.len());
    if valid {
        assert forall|i: int| 0 <= i < units.len() implies is_code_point(#[trigger] units[i]) by {
            assert(unit(data, order, i, 4) == units[i]);
        }
    }
    let text = crate::strings::ucs4_text(data, order);
    assert forall|i: int| 0 <= i < units.len() implies #[trigger] text[i] == if is_code_point(
        units[i],
    ) {
        units[i] as u32 as char
    } else {
        '\u{fffd}'
    } by {
        assert(unit(data, order, i, 4) == units[i]);
    }
}

proof fn lemma_utf16_exact(units: Seq<nat>)
    requires
        forall|i: int| 0 <= i < units.len() ==> #[trigger] units[i] < 0x1_0000,
    ensures
        utf16_text(units) matches Some(text) ==> utf16_units(text) == units,
    decreases units.len(),
{
    if units.len() == 0 {
        assert(units =~= Seq::empty());
    } else if let Some(text) = utf16_text(units) {
        if units[0] < 0xd800 || units[0] >= 0xe000 {
            let rest = units.skip(1);
            lemma_utf16_exact(rest);
            assert(text.skip(1) =~= utf16_text(rest)->0);
            assert(seq![units[0]] + rest =~= units);
            assert(text[0] as u32 as nat == units[0]);
        } else {
            let rest = units.skip(2);
            lemma_utf16_exact(rest);
            assert(text.skip(1) =~= utf16_text(rest)->0);
            assert(seq![units[0], units[1]] + rest =~= units);
            let v = 0x10000 + (units[0] - 0xd800) * 0x400 + (units[1] - 0xdc00);
            assert(0x10000 <= v < 0x110000);
            assert(text[0] as u32 as int == v);
            assert((v - 0x10000) / 0x400 == units[0] - 0xd800);
            assert((v - 0x10000) % 0x400 == units[1] - 0xdc00);
        }
    }
}

/// Two byte units come out as a text exactly where they are the UTF-16 of that text. Other units are
/// an invalid string strictly, and no UTF-16 leniently.
pub proof fn law_two_byte_strings(units: Seq<nat>, order: ByteOrder, ascii: bool, check_utf8: bool)
    requires
        forall|i: int| 0 <= i < units.len() ==> #[trigger] units[i] < 0x1_0000,
    ensures
        ({
            let r = decoded(2, ascii, packed(units, 2, order), order, check_utf8);
            &&& r matches Ok(text) ==> utf16_units(text) == units
            &&& forall|text: Seq<char>| #[trigger]
                utf16_units(text) == units ==> r == Ok::<Seq<char>, Cause>(text)
            &&& r matches Err(cause) ==> cause == if check_utf8 {
                Cause::Invalid(InvalidString)
            } else {
                Cause::NotUtf16
            }
        }),
{
    let data = packed(units, 2, order);
    assert(span(2) == 0x1_0000) by {
        reveal_with_fuel(span, 3);
    }
    law_packed_reads_back(units, 2, order);
    assert(data.len() / 2 == units.len());
    assert(ucs2_units(data, order) =~= units);
    lemma_utf16_exact(units);
    assert forall|text: Seq<char>| #[trigger] utf16_units(text) == units implies decoded(
        2,
        ascii,
        data,
        order,
        check_utf8,
    ) == Ok::<Seq<char>, Cause>(text) by {
        crate::strings::law_ucs2_reads_back(text, order, ascii, check_utf8);
    }
}

/// One byte characters: Latin-1 widens each byte; ASCII is strictly only taken where all bytes are
/// below 0x80, and leniently is any UTF-8, or not UTF-8.
pub proof fn law_one_byte_strings(data: Seq<u8>, order: ByteOrder)
    ensures
        ({
            let all = forall|i: int| 0 <= i < data.len() ==> #[trigger] data[i] < 0x80;
            let strict = decoded(1, true, data, order, true);
            let lenient = decoded(1, true, data, order, false);
            &&& !all ==> strict == Err::<Seq<char>, Cause>(Cause::Invalid(InvalidString))
            &&& all ==> strict == lenient && strict is Ok && strict->Ok_0.len() == data.len()
                && forall|i: int| 0 <= i < data.len() ==> #[trigger] strict->Ok_0[i] == data[i] as char
            &&& valid_utf8(data) ==> lenient == Ok::<Seq<char>, Cause>(decode_utf8(data))
            &&& !valid_utf8(data) ==> lenient == Err::<Seq<char>, Cause>(
                Cause::NotUtf8(utf8_fault(data)),
            )
        }),
        forall|check_utf8: bool| #[trigger]
            decoded(1, false, data, order, check_utf8) is Ok && decoded(
                1,
                false,
                data,
                order,
                check_utf8,
            )->Ok_0 == Seq::new(data.len(), |i: int| data[i] as char),
{
    crate::strings::law_strict_ascii(data, order);
    crate::strings::law_strict_text_is_lenient_text(1, true, data, order);
    assert forall|check_utf8: bool| #[trigger]
        decoded(1, false, data, order, check_utf8) is Ok && decoded(
            1,
            false,
            data,
            order,
            check_utf8,
        )->Ok_0 == Seq::new(data.len(), |i: int| data[i] as char) by {
        assert(crate::strings::latin1_text(data) =~= Seq::new(data.len(), |i: int| data[i] as char));
    }
}

/// A string of any other kind is refused by its kind.
pub proof fn law_unknown_kinds(
    kind: u32,
    ascii: bool,
    data: Seq<u8>,
    order: ByteOrder,
    check_utf8: bool,
)
    requires
        kind != 1,
        kind != 2,
        kind != 4,
    ensures
        decoded(kind, ascii, data, order, check_utf8) == Err::<Seq<char>, Cause>(
            Cause::UnknownKind(kind),
        ),
{
}

proof fn lemma_longest_valid(data: Seq<u8>, most: nat)
    requires
        most <= data.len(),
        forall|k: int| most < k <= data.len() ==> !valid_utf8(#[trigger] data.take(k)),
    ensures
        longest_valid(data, most) <= most,
        longest_valid(data, most) > 0 ==> valid_utf8(data.take(longest_valid(data, most) as int)),
        forall|k: int|
            longest_valid(data, most) < k <= data.len() ==> !valid_utf8(#[trigger] data.take(k)),
    decreases most,
{
    if most > 0 && !valid_utf8(data.take(most as int)) {
        lemma_longest_valid(data, (most - 1) as nat);
    }
}

/// Bytes that are not UTF-8 stop being so behind their longest prefix that is.
pub proof fn law_utf8_fault(data: Seq<u8>)
    requires
        !valid_utf8(data),
        data.len() <= usize::MAX,
    ensures
        ({
            let n = utf8_fault(data).valid_up_to as int;
            &&& n < data.len()
            &&& n > 0 ==> valid_utf8(data.take(n))
            &&& forall|k: int| n < k <= data.len() ==> !valid_utf8(#[trigger] data.take(k))
            &&& utf8_fault(data).error_len == utf8_error_len(data)
        }),
{
    assert(data.take(data.len() as int) =~= data);
    if data.len() == 0 {
        assert(data =~= Seq::<u8>::empty());
    }
    lemma_longest_valid(data, data.len());
}

} // verus!
