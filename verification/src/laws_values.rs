//! What values come to as text, said of the texts and structures themselves.
use vstd::prelude::*;
#[allow(unused_imports)]
use vstd::arithmetic::power2::pow2;
#[allow(unused_imports)]
use vstd::utf8::{decode_utf8, encode_utf8, valid_utf8};

#[allow(unused_imports)]
use crate::bytes::{spelled, word_size, ByteOrder};
#[allow(unused_imports)]
use crate::error::Cause;
use crate::laws_data::lemma_product_fits;
#[allow(unused_imports)]
use crate::objects::{Bindings, FloatObject, ListObject, Object, TupleObject, TypeObject};
#[allow(unused_imports)]
use crate::python_data_access::{dict_run, int_run, long_run, next_run, string_run, DictIterator};
#[allow(unused_imports)]
use crate::strings::utf8_fault;
#[allow(unused_imports)]
use crate::target::{
    block_at, bytes_at, done, double_text_at, failed, single_text_at, struct_at, word_at, Event,
};
#[allow(unused_imports)]
use crate::text::{decimal_text, hex_text};
#[allow(unused_imports)]
use crate::variables::{
    escaped, int_text, items_run, joined, listing, long_text, obval_run, opaque_text, pairs_run,
    quoted, scalar_of, type_run, typed_run, variable_run, Scalar,
};
#[allow(unused_imports)]
use crate::version::Version;

verus! {

proof fn lemma_escaped_concat(a: Seq<char>, b: Seq<char>)
    ensures
        escaped(a + b) == escaped(a) + escaped(b),
    decreases b.len(),
{
    if b.len() == 0 {
        assert(a + b =~= a);
        assert(escaped(a) + escaped(b) =~= escaped(a));
    } else {
        assert((a + b).drop_last() =~= a + b.drop_last());
        assert((a + b).last() == b.last());
        lemma_escaped_concat(a, b.drop_last());
        assert(escaped(a + b) =~= escaped(a) + escaped(b));
    }
}

proof fn lemma_escapes()
    ensures
        "\\\""@ == seq!['\\', '"'],
        "\\n"@ == seq!['\\', 'n'],
{
    reveal_strlit("\\\"");
    reveal_strlit("\\n");
    assert("\\\""@ =~= seq!['\\', '"']);
    assert("\\n"@ =~= seq!['\\', 'n']);
}

proof fn lemma_escaped_char(c: char)
    ensures
        escaped(seq![c]) == if c == '\'' {
            seq!['\\', '"']
        } else if c == '\n' {
            seq!['\\', 'n']
        } else {
            seq![c]
        },
{
    lemma_escapes();
    let one = seq![c];
    assert(one.drop_last() =~= Seq::<char>::empty());
    assert(one.last() == c);
    assert(escaped(one) =~= escaped(one.drop_last()) + crate::variables::escaped_char(c));
    assert(escaped(one) =~= crate::variables::escaped_char(c));
}

/// Inside quotes each character stands for itself, in its place, but for a single quote, which is
/// written as a backslash and a double quote, and a line break, which is written as a backslash and
/// an n.
pub proof fn law_escaped(before: Seq<char>, c: char, after: Seq<char>)
    ensures
        escaped(before.push(c) + after) == escaped(before) + (if c == '\'' {
            seq!['\\', '"']
        } else if c == '\n' {
            seq!['\\', 'n']
        } else {
            seq![c]
        }) + escaped(after),
        escaped(Seq::<char>::empty()).len() == 0,
{
    lemma_escaped_concat(before.push(c), after);
    assert(before.push(c) =~= before + seq![c]);
    lemma_escaped_concat(before, seq![c]);
    lemma_escaped_char(c);
}

proof fn lemma_plain(text: Seq<char>)
    requires
        forall|i: int| 0 <= i < text.len() ==> #[trigger] text[i] != '\'' && text[i] != '\n',
    ensures
        escaped(text) == text,
    decreases text.len(),
{
    if text.len() > 0 {
        lemma_plain(text.drop_last());
        assert(text[text.len() - 1] == text.last());
        assert(text.drop_last().push(text.last()) =~= text);
        assert(escaped(text) =~= text.drop_last() + seq![text.last()]);
        assert(escaped(text) =~= text);
    } else {
        assert(escaped(text) =~= text);
    }
}

/// A text without single quotes and line breaks that fits stands between two double quotes just as
/// it is.
pub proof fn law_plain_text_is_quoted_as_it_is(text: Seq<char>, max_length: int)
    requires
        max_length > 5,
        text.len() <= max_length - 5,
        forall|i: int| 0 <= i < text.len() ==> #[trigger] text[i] != '\'' && text[i] != '\n',
    ensures
        quoted(text, max_length) == seq!['"'] + text + seq!['"'],
{
    lemma_plain(text);
    reveal_strlit("\"");
    assert("\""@ =~= seq!['"']);
}

/// A text stands between double quotes. Where it has more characters than five less than there is
/// room for, it is cut off there, and three dots show it.
pub proof fn law_quoted_cut(text: Seq<char>, max_length: int)
    requires
        max_length > 5,
    ensures
        escaped(text).len() <= max_length - 5 ==> quoted(text, max_length) == seq!['"'] + escaped(
            text,
        ) + seq!['"'],
        escaped(text).len() > max_length - 5 ==> quoted(text, max_length) == seq!['"'] + escaped(
            text,
        ).take(max_length - 5) + seq!['.', '.', '.', '"'],
{
    reveal_strlit("\"");
    reveal_strlit("...\"");
    assert("\""@ =~= seq!['"']);
    assert("...\""@ =~= seq!['.', '.', '.', '"']);
}

/// An integer is written in decimal, except that for the type `bool` a positive one is `True` and any
/// other `False`.
pub proof fn law_integer_texts(kind: Seq<char>, value: int)
    ensures
        kind == seq!['b', 'o', 'o', 'l'] ==> int_text(kind, value) == if value > 0 {
            seq!['T', 'r', 'u', 'e']
        } else {
            seq!['F', 'a', 'l', 's', 'e']
        },
        kind != seq!['b', 'o', 'o', 'l'] ==> int_text(kind, value) == decimal_text(value),
{
    reveal_strlit("bool");
    reveal_strlit("True");
    reveal_strlit("False");
    assert("bool"@ =~= seq!['b', 'o', 'o', 'l']);
    assert("True"@ =~= seq!['T', 'r', 'u', 'e']);
    assert("False"@ =~= seq!['F', 'a', 'l', 's', 'e']);
}

/// An integer that was copied is written as such, and one that overflowed as a bigint, with a plus
/// where its number of digits came out positive and a minus otherwise.
pub proof fn law_long_texts(kind: Seq<char>, value: i64)
    ensures
        long_text(kind, value, false) == int_text(kind, value as int),
        long_text(kind, value, true) == seq![
            if value > 0 {
                '+'
            } else {
                '-'
            },
        ] + seq!['b', 'i', 'g', 'i', 'n', 't'],
{
    reveal_strlit("+bigint");
    reveal_strlit("-bigint");
    assert("+bigint"@ =~= seq!['+'] + seq!['b', 'i', 'g', 'i', 'n', 't']);
    assert("-bigint"@ =~= seq!['-'] + seq!['b', 'i', 'g', 'i', 'n', 't']);
}

/// A value that is not understood is shown by its type and its address.
pub proof fn law_opaque_text(kind: Seq<char>, addr: usize)
    ensures
        opaque_text(kind, addr) == seq!['<'] + kind + seq![' ', 'a', 't', ' ', '0', 'x'] + hex_text(
            addr as nat,
        ) + seq!['>'],
{
    reveal_strlit("<");
    reveal_strlit(" at 0x");
    reveal_strlit(">");
    assert("<"@ =~= seq!['<']);
    assert(" at 0x"@ =~= seq![' ', 'a', 't', ' ', '0', 'x']);
    assert(">"@ =~= seq!['>']);
}

/// A listing has its texts in their order between its two ends, with a comma and a space between
/// each two of them.
pub proof fn law_listing(
    open_text: Seq<char>,
    texts: Seq<Seq<char>>,
    text: Seq<char>,
    close_text: Seq<char>,
)
    ensures
        listing(open_text, Seq::empty(), close_text) == open_text + close_text,
        listing(open_text, seq![text], close_text) == open_text + text + close_text,
        texts.len() > 0 ==> forall|body: Seq<char>| #[trigger]
            (open_text + body + close_text) == listing(open_text, texts, close_text) ==> listing(
                open_text,
                texts.push(text),
                close_text,
            ) == open_text + body + seq![',', ' '] + text + close_text,
{
    reveal_strlit(", ");
    assert(", "@ =~= seq![',', ' ']);
    assert(listing(open_text, Seq::empty(), close_text) =~= open_text + close_text);
    if texts.len() > 0 {
        assert(texts.push(text).drop_last() =~= texts);
        let j = joined(texts, ", "@);
        assert forall|body: Seq<char>| #[trigger]
            (open_text + body + close_text) == listing(open_text, texts, close_text) implies listing(
            open_text,
            texts.push(text),
            close_text,
        ) == open_text + body + seq![',', ' '] + text + close_text by {
            let whole = open_text + body + close_text;
            let other = open_text + j + close_text;
            assert(whole.len() == other.len());
            assert(body.len() == j.len());
            assert forall|i: int| 0 <= i < body.len() implies body[i] == j[i] by {
                assert(whole[open_text.len() + i] == body[i]);
                assert(other[open_text.len() + i] == j[i]);
            }
            assert(body =~= j);
            assert(listing(open_text, texts.push(text), close_text) =~= open_text + body + seq![
                ',',
                ' ',
            ] + text + close_text);
        }
    }
}

/// The type of a value is read through the value and its type: the flags as the type has them, and
/// the name from the bytes that it points to, 128 at most, up to the first that is zero.
pub proof fn law_type_of_value(
    l: Seq<Event>,
    p: int,
    bindings: Bindings,
    addr: usize,
    object: Object,
    class: TypeObject,
    data: Seq<u8>,
    order: ByteOrder,
    end: int,
)
    requires
        struct_at::<Object>(l, p, bindings, addr) == done(object, p + 1),
        struct_at::<TypeObject>(l, p + 1, bindings, object.ob_type) == done(class, p + 2),
        bytes_at(l, p + 2, class.name, 128) == done((data, order), p + 3),
        0 <= end <= data.len(),
        forall|i: int| 0 <= i < end ==> #[trigger] data[i] != 0,
        (end < data.len() && data[end] == 0) || (end == 128 && !data.contains(0)),
    ensures
        ({
            let run = type_run(l, p, bindings, addr);
            let name = data.take(end);
            &&& run.next == p + 3
            &&& valid_utf8(name) ==> run.out == Ok::<(Seq<char>, usize), Seq<Cause>>(
                (decode_utf8(name), class.flags),
            )
            &&& !valid_utf8(name) ==> run.out == Err::<(Seq<char>, usize), Seq<Cause>>(
                seq![Cause::NotUtf8(utf8_fault(name))],
            )
        }),
{
    data.index_of_first_ensures(0);
    if end < data.len() {
        assert(data.contains(data[end]));
    }
}

/// The type of a value fails where the value, its type or the name of the type cannot be read.
pub proof fn law_type_reads_fail(
    l: Seq<Event>,
    p: int,
    bindings: Bindings,
    addr: usize,
    object: Object,
    class: TypeObject,
)
    ensures
        ({
            let run = type_run(l, p, bindings, addr);
            let first = struct_at::<Object>(l, p, bindings, addr);
            let second = struct_at::<TypeObject>(l, p + 1, bindings, object.ob_type);
            let third = bytes_at(l, p + 2, class.name, 128);
            &&& first.out matches Err(causes) ==> run.out == Err::<(Seq<char>, usize), Seq<Cause>>(
                causes,
            )
            &&& first == done(object, p + 1) ==> (second.out matches Err(causes) ==> run.out == Err::<
                (Seq<char>, usize),
                Seq<Cause>,
            >(causes))
            &&& first == done(object, p + 1) && second == done(class, p + 2) ==> (
            third.out matches Err(causes) ==> run.out == Err::<(Seq<char>, usize), Seq<Cause>>(
                causes,
            ))
        }),
{
}

proof fn lemma_scalar_names()
    ensures
        "numpy.bool"@.len() == 10,
        "numpy.uint8"@.len() == 11,
        "numpy.uint16"@.len() == 12,
        "numpy.uint32"@.len() == 12,
        "numpy.uint64"@.len() == 12,
        "numpy.int8"@.len() == 10,
        "numpy.int16"@.len() == 11,
        "numpy.int32"@.len() == 11,
        "numpy.int64"@.len() == 11,
        "numpy.float32"@.len() == 13,
        "numpy.float64"@.len() == 13,
        "numpy.bool"@[6] == 'b',
        "numpy.int8"@[6] == 'i',
        "numpy.uint8"@[6] == 'u',
        "numpy.int16"@[6] == 'i',
        "numpy.int32"@[6] == 'i',
        "numpy.int64"@[6] == 'i',
        "numpy.int16"@[9] == '1',
        "numpy.int32"@[9] == '3',
        "numpy.int64"@[9] == '6',
        "numpy.uint16"@[10] == '1',
        "numpy.uint32"@[10] == '3',
        "numpy.uint64"@[10] == '6',
        "numpy.float32"@[11] == '3',
        "numpy.float64"@[11] == '6',
{
    reveal_strlit("numpy.bool");
    reveal_strlit("numpy.uint8");
    reveal_strlit("numpy.uint16");
    reveal_strlit("numpy.uint32");
    reveal_strlit("numpy.uint64");
    reveal_strlit("numpy.int8");
    reveal_strlit("numpy.int16");
    reveal_strlit("numpy.int32");
    reveal_strlit("numpy.int64");
    reveal_strlit("numpy.float32");
    reveal_strlit("numpy.float64");
}

/// The numpy types whose values are shown, and how wide these are.
pub proof fn law_scalars(kind: Seq<char>)
    ensures
        scalar_of("numpy.bool"@) == Some(Scalar::Unsigned(1)),
        scalar_of("numpy.uint8"@) == Some(Scalar::Unsigned(1)),
        scalar_of("numpy.uint16"@) == Some(Scalar::Unsigned(2)),
        scalar_of("numpy.uint32"@) == Some(Scalar::Unsigned(4)),
        scalar_of("numpy.uint64"@) == Some(Scalar::Unsigned(8)),
        scalar_of("numpy.int8"@) == Some(Scalar::Signed(1)),
        scalar_of("numpy.int16"@) == Some(Scalar::Signed(2)),
        scalar_of("numpy.int32"@) == Some(Scalar::Signed(4)),
        scalar_of("numpy.int64"@) == Some(Scalar::Signed(8)),
        scalar_of("numpy.float32"@) == Some(Scalar::Single),
        scalar_of("numpy.float64"@) == Some(Scalar::Double),
        kind != "numpy.bool"@ && kind != "numpy.uint8"@ && kind != "numpy.uint16"@ && kind
            != "numpy.uint32"@ && kind != "numpy.uint64"@ && kind != "numpy.int8"@ && kind
            != "numpy.int16"@ && kind != "numpy.int32"@ && kind != "numpy.int64"@ && kind
            != "numpy.float32"@ && kind != "numpy.float64"@ ==> scalar_of(kind) is None,
{
    lemma_scalar_names();
}

/// The value of a numpy scalar stands behind the two words of an object's head. Unsigned it is
/// the number that its bytes spell, signed it is that number in two's complement, and a floating
/// point number is shown by the text for its own bits.
pub proof fn law_scalar_texts(
    l: Seq<Event>,
    p: int,
    scalar: Scalar,
    addr: usize,
    width: nat,
    at: usize,
    data: Seq<u8>,
    order: ByteOrder,
    value: int,
)
    requires
        width == 1 || width == 2 || width == 4 || width == 8,
        match scalar {
            Scalar::Unsigned(n) => n == width,
            Scalar::Signed(n) => n == width,
            Scalar::Single => width == 4,
            Scalar::Double => width == 8,
        },
        at == addr + 2 * (usize::BITS / 8),
        block_at(l, p, at, width as usize) == done((data, order), p + 1),
    ensures
        ({
            let run = obval_run(l, p, scalar, addr);
            let n = spelled(data, order);
            match scalar {
                Scalar::Unsigned(_) => run == done(decimal_text(n as int), p + 1),
                Scalar::Signed(_) => -pow2((8 * width - 1) as nat) <= value < pow2(
                    (8 * width - 1) as nat,
                ) && (n == value || n == value + pow2(8 * width)) ==> run == done(
                    decimal_text(value),
                    p + 1,
                ),
                Scalar::Single => run == single_text_at(l, p + 1, n as u32),
                Scalar::Double => run == double_text_at(l, p + 1, n as u64),
            }
        }),
{
    vstd::arithmetic::power2::lemma2_to64();
    vstd::arithmetic::power2::lemma2_to64_rest();
    lemma_product_fits(2, word_size());
}

/// A scalar whose value cannot be read fails as that read did.
pub proof fn law_scalar_read_fails(
    l: Seq<Event>,
    p: int,
    scalar: Scalar,
    addr: usize,
    width: usize,
    at: usize,
)
    requires
        match scalar {
            Scalar::Unsigned(n) => n == width,
            Scalar::Signed(n) => n == width,
            Scalar::Single => width == 4,
            Scalar::Double => width == 8,
        },
        at == addr + 2 * (usize::BITS / 8),
    ensures
        block_at(l, p, at, width).out matches Err(causes) ==> obval_run(l, p, scalar, addr).out
            == Err::<Seq<char>, Seq<Cause>>(causes),
{
    lemma_product_fits(2, word_size());
}

/// With more than five characters of room a value is shown by its type, and with fewer as three dots,
/// unread.
pub proof fn law_value_by_type(
    l: Seq<Event>,
    p: int,
    bindings: Bindings,
    version: &Version,
    addr: usize,
    max_length: int,
)
    ensures
        max_length <= 5 ==> variable_run(l, p, bindings, version, addr, max_length) == done(
            seq!['.', '.', '.'],
            p,
        ),
        max_length >= 6 ==> ({
            let run = variable_run(l, p, bindings, version, addr, max_length);
            let head = type_run(l, p, bindings, addr);
            match head.out {
                Err(causes) => run == failed::<Seq<char>>(causes, head.next),
                Ok((kind, flags)) => run == typed_run(
                    l,
                    head.next,
                    bindings,
                    version,
                    addr,
                    max_length,
                    kind,
                    flags,
                ),
            }
        }),
{
    reveal_strlit("...");
    assert("..."@ =~= seq!['.', '.', '.']);
}

/// Integers, by the flags of their type: those of Python 2 before all others, then the long ones.
pub proof fn law_integers_by_flags(
    l: Seq<Event>,
    p: int,
    bindings: Bindings,
    version: &Version,
    addr: usize,
    max_length: int,
    kind: Seq<char>,
    flags: usize,
)
    requires
        max_length >= 6,
    ensures
        ({
            let run = typed_run(l, p, bindings, version, addr, max_length, kind, flags);
            let short = int_run(l, p, addr);
            let long = long_run(l, p, version, addr);
            &&& flags & 0x80_0000 != 0 ==> run.next == short.next && match short.out {
                Ok(value) => run.out == Ok::<Seq<char>, Seq<Cause>>(int_text(kind, value as int)),
                Err(causes) => run.out == Err::<Seq<char>, Seq<Cause>>(causes),
            }
            &&& flags & 0x80_0000 == 0 && flags & 0x100_0000 != 0 ==> run.next == long.next
                && match long.out {
                Ok((value, overflowed)) => run.out == Ok::<Seq<char>, Seq<Cause>>(
                    long_text(kind, value, overflowed),
                ),
                Err(causes) => run.out == Err::<Seq<char>, Seq<Cause>>(causes),
            }
        }),
{
}

/// Whether these flags are of a type of strings, under this version.
pub open spec fn of_strings(version: &Version, flags: usize) -> bool {
    flags & 0x80_0000 == 0 && flags & 0x100_0000 == 0 && (flags & 0x1000_0000 != 0 || (version.major
        == 2 && flags & 0x800_0000 != 0))
}

/// Whether these flags are of a type that is neither of integers nor of strings.
pub open spec fn of_neither(version: &Version, flags: usize) -> bool {
    flags & 0x80_0000 == 0 && flags & 0x100_0000 == 0 && flags & 0x1000_0000 == 0 && !(version.major
        == 2 && flags & 0x800_0000 != 0)
}

/// Strings, and in Python 2 bytes, are copied leniently and shown in quotes.
pub proof fn law_strings_by_flags(
    l: Seq<Event>,
    p: int,
    bindings: Bindings,
    version: &Version,
    addr: usize,
    max_length: int,
    kind: Seq<char>,
    flags: usize,
)
    requires
        max_length >= 6,
        of_strings(version, flags),
    ensures
        ({
            let run = typed_run(l, p, bindings, version, addr, max_length, kind, flags);
            let text = string_run(l, p, bindings, addr, false);
            &&& run.next == text.next
            &&& match text.out {
                Ok(copied) => run.out == Ok::<Seq<char>, Seq<Cause>>(quoted(copied, max_length)),
                Err(causes) => run.out == Err::<Seq<char>, Seq<Cause>>(causes),
            }
        }),
{
}

/// Dictionaries are shown by their pairs in braces since Python 3.6, with two characters set aside for
/// these, and before that by the word `dict` alone.
pub proof fn law_dictionaries_by_flags(
    l: Seq<Event>,
    p: int,
    bindings: Bindings,
    version: &Version,
    addr: usize,
    max_length: int,
    kind: Seq<char>,
    flags: usize,
)
    requires
        max_length >= 6,
        of_neither(version, flags),
        flags & 0x2000_0000 != 0,
    ensures
        ({
            let run = typed_run(l, p, bindings, version, addr, max_length, kind, flags);
            let head = dict_run(l, p, version, addr);
            let pairs = pairs_run(
                l,
                head.next,
                bindings,
                version,
                head.out->Ok_0,
                max_length - 2,
                Seq::empty(),
            );
            &&& version.major != 3 || version.minor < 6 ==> run == done(seq!['d', 'i', 'c', 't'], p)
            &&& version.major == 3 && version.minor >= 6 ==> {
                &&& head.out matches Err(causes) ==> run == failed::<Seq<char>>(causes, head.next)
                &&& head.out is Ok ==> run.next == pairs.next && match pairs.out {
                    Ok(texts) => run.out == Ok::<Seq<char>, Seq<Cause>>(
                        listing(seq!['{'], texts, seq!['}']),
                    ),
                    Err(causes) => run.out == Err::<Seq<char>, Seq<Cause>>(causes),
                }
            }
        }),
{
    reveal_strlit("dict");
    reveal_strlit("{");
    reveal_strlit("}");
    assert("dict"@ =~= seq!['d', 'i', 'c', 't']);
    assert("{"@ =~= seq!['{']);
    assert("}"@ =~= seq!['}']);
}

/// Lists are shown by their items in square brackets and tuples in round ones, with two characters
/// set aside for these.
pub proof fn law_sequences_by_flags(
    l: Seq<Event>,
    p: int,
    bindings: Bindings,
    version: &Version,
    addr: usize,
    max_length: int,
    kind: Seq<char>,
    flags: usize,
    items: usize,
    size: usize,
)
    requires
        max_length >= 6,
        of_neither(version, flags),
        flags & 0x2000_0000 == 0,
        flags & 0x200_0000 != 0 || flags & 0x400_0000 != 0,
    ensures
        ({
            let run = typed_run(l, p, bindings, version, addr, max_length, kind, flags);
            let is_list = flags & 0x200_0000 != 0;
            let list = struct_at::<ListObject>(l, p, bindings, addr);
            let tuple = struct_at::<TupleObject>(l, p, bindings, addr);
            let shown = items_run(
                l,
                p + 1,
                bindings,
                version,
                items,
                size,
                0,
                max_length - 2,
                Seq::empty(),
            );
            let ends = if is_list {
                (seq!['['], seq![']'])
            } else {
                (seq!['('], seq![')'])
            };
            &&& is_list ==> (list.out matches Err(causes) ==> run == failed::<Seq<char>>(
                causes,
                list.next,
            ))
            &&& !is_list ==> (tuple.out matches Err(causes) ==> run == failed::<Seq<char>>(
                causes,
                tuple.next,
            ))
            &&& (is_list && list == done(ListObject { size, item: items }, p + 1)) || (!is_list
                && tuple == done(TupleObject { size, items }, p + 1)) ==> run.next == shown.next
                && match shown.out {
                Ok(texts) => run.out == Ok::<Seq<char>, Seq<Cause>>(
                    listing(ends.0, texts, ends.1),
                ),
                Err(causes) => run.out == Err::<Seq<char>, Seq<Cause>>(causes),
            }
        }),
{
    reveal_strlit("[");
    reveal_strlit("]");
    reveal_strlit("(");
    reveal_strlit(")");
    assert("["@ =~= seq!['[']);
    assert("]"@ =~= seq![']']);
    assert("("@ =~= seq!['(']);
    assert(")"@ =~= seq![')']);
}

/// All other values go by the name of their type: floats by the text for their bits, None by its
/// name, the numpy scalars by their value, and the rest by their type and address.
pub proof fn law_values_by_name(
    l: Seq<Event>,
    p: int,
    bindings: Bindings,
    version: &Version,
    addr: usize,
    max_length: int,
    kind: Seq<char>,
    flags: usize,
)
    requires
        max_length >= 6,
        of_neither(version, flags),
        flags & 0x2000_0000 == 0,
        flags & 0x200_0000 == 0,
        flags & 0x400_0000 == 0,
    ensures
        ({
            let run = typed_run(l, p, bindings, version, addr, max_length, kind, flags);
            let float = struct_at::<FloatObject>(l, p, Bindings::V3_7_0, addr);
            let is_float = kind == seq!['f', 'l', 'o', 'a', 't'];
            let is_none = kind == seq!['N', 'o', 'n', 'e', 'T', 'y', 'p', 'e'];
            &&& is_float ==> match float.out {
                Ok(value) => run == double_text_at(l, float.next, value.bits),
                Err(causes) => run == failed::<Seq<char>>(causes, float.next),
            }
            &&& is_none ==> run == done(seq!['N', 'o', 'n', 'e'], p)
            &&& !is_float && !is_none ==> match scalar_of(kind) {
                Some(scalar) => run == obval_run(l, p, scalar, addr),
                None => run == done(opaque_text(kind, addr), p),
            }
        }),
{
    reveal_strlit("float");
    reveal_strlit("NoneType");
    reveal_strlit("None");
    assert("float"@ =~= seq!['f', 'l', 'o', 'a', 't']);
    assert("NoneType"@ =~= seq!['N', 'o', 'n', 'e', 'T', 'y', 'p', 'e']);
    assert("None"@ =~= seq!['N', 'o', 'n', 'e']);
}

/// The items of a list are shown in turn, each by the value that the word at its place leads to, in
/// the room that is left. Each takes its own bytes and two more. Where that leaves more than five, it
/// is listed and the next one follows; otherwise three dots stand in its place and end the list.
pub proof fn law_item_by_item(
    l: Seq<Event>,
    p: int,
    bindings: Bindings,
    version: &Version,
    items: usize,
    size: usize,
    i: usize,
    remaining: int,
    texts: Seq<Seq<char>>,
    at: usize,
    addr: usize,
    text: Seq<char>,
    q: int,
)
    requires
        at == items + i * (usize::BITS / 8),
    ensures
        i >= size ==> items_run(l, p, bindings, version, items, size, i, remaining, texts) == done(
            texts,
            p,
        ),
        i < size ==> ({
            let run = items_run(l, p, bindings, version, items, size, i, remaining, texts);
            let item = word_at(l, p, at);
            let value = variable_run(l, p + 1, bindings, version, addr, remaining);
            &&& item.out matches Err(causes) ==> run == failed::<Seq<Seq<char>>>(causes, item.next)
            &&& item == done(addr, p + 1) ==> {
                &&& value.out matches Err(causes) ==> run == failed::<Seq<Seq<char>>>(
                    causes,
                    value.next,
                )
                &&& value == done(text, q) ==> {
                    let left = remaining - encode_utf8(text).len() - 2;
                    &&& left >= 6 ==> run == items_run(
                        l,
                        q,
                        bindings,
                        version,
                        items,
                        size,
                        (i + 1) as usize,
                        left,
                        texts.push(text),
                    )
                    &&& left <= 5 ==> run == done(texts.push(seq!['.', '.', '.']), q)
                }
            }
        }),
{
    reveal_strlit("...");
    assert("..."@ =~= seq!['.', '.', '.']);
    let k = i as int;
    let w = word_size() as int;
    assert(0 <= k * w) by (nonlinear_arith)
        requires
            0 <= k,
            0 <= w,
    ;
    lemma_product_fits(i, word_size());
}

/// The pairs of a dictionary are shown in turn, key and value each in the room that is left. A pair
/// takes the bytes of both and four more. Where that leaves more than five, it is listed with a colon
/// and a space between them and the next one follows; otherwise three dots stand in its place and end
/// the list.
pub proof fn law_pair_by_pair(
    l: Seq<Event>,
    p: int,
    bindings: Bindings,
    version: &Version,
    it: DictIterator,
    remaining: int,
    texts: Seq<Seq<char>>,
    key_addr: usize,
    value_addr: usize,
    rest: DictIterator,
    q: int,
    key: Seq<char>,
    r: int,
    value: Seq<char>,
    s: int,
)
    ensures
        ({
            let run = pairs_run(l, p, bindings, version, it, remaining, texts);
            let step = next_run(l, p, it);
            let first = variable_run(l, q, bindings, version, key_addr, remaining);
            let second = variable_run(l, r, bindings, version, value_addr, remaining);
            &&& step.0.out matches Err(causes) ==> run == failed::<Seq<Seq<char>>>(
                causes,
                step.0.next,
            )
            &&& step.0 == done(None::<(usize, usize)>, q) ==> run == done(texts, q)
            &&& step == (done(Some((key_addr, value_addr)), q), rest) ==> {
                &&& first.out matches Err(causes) ==> run == failed::<Seq<Seq<char>>>(
                    causes,
                    first.next,
                )
                &&& first == done(key, r) ==> {
                    &&& second.out matches Err(causes) ==> run == failed::<Seq<Seq<char>>>(
                        causes,
                        second.next,
                    )
                    &&& second == done(value, s) ==> {
                        let left = remaining - encode_utf8(key).len() - encode_utf8(value).len() - 4;
                        &&& left >= 6 ==> run == pairs_run(
                            l,
                            s,
                            bindings,
                            version,
                            rest,
                            left,
                            texts.push(key + seq![':', ' '] + value),
                        )
                        &&& left <= 5 ==> run == done(texts.push(seq!['.', '.', '.']), s)
                    }
                }
            }
        }),
{
    reveal_strlit("...");
    reveal_strlit(": ");
    assert("..."@ =~= seq!['.', '.', '.']);
    assert(": "@ =~= seq![':', ' ']);
}

} // verus!
