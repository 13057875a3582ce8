//! Python values as human readable text.
use vstd::prelude::*;
#[allow(unused_imports)]
use vstd::utf8::{
    decode_utf8, encode_utf8, is_ascii_chars, is_ascii_chars_encode_utf8, valid_utf8,
};

use crate::bytes::{word_size, Copied};
#[allow(unused_imports)]
use crate::bytes::{lemma_spelled_bound, spelled, unit};
use crate::error::{Cause, Error};
use crate::objects::{Bindings, FloatObject, ListObject, Object, TupleObject, TypeObject};
#[allow(unused_imports)]
use crate::python_data_access::{dict_run, int_run, long_run, next_run, string_run};
use crate::python_data_access::{copy_int, copy_long, copy_string, DictIterator};
use crate::strings::{decode_name, utf8_outcome};
#[allow(unused_imports)]
use crate::strings::utf8_fault;
use crate::target::{ProcessMemory, Target};
#[allow(unused_imports)]
use crate::target::{
    block_at, bytes_at, continued, done, double_text_at, failed, grown, ran, ran_view,
    single_text_at, struct_at, word_at, Event, Run,
};
#[allow(unused_imports)]
use crate::text::{decimal_text, hex_text};
use crate::text::{decimal, hex};
use crate::version::Version;

verus! {

pub const PY_TPFLAGS_INT_SUBCLASS: usize = 0x80_0000;

pub const PY_TPFLAGS_LONG_SUBCLASS: usize = 0x100_0000;

pub const PY_TPFLAGS_LIST_SUBCLASS: usize = 0x200_0000;

pub const PY_TPFLAGS_TUPLE_SUBCLASS: usize = 0x400_0000;

pub const PY_TPFLAGS_BYTES_SUBCLASS: usize = 0x800_0000;

pub const PY_TPFLAGS_STRING_SUBCLASS: usize = 0x1000_0000;

pub const PY_TPFLAGS_DICT_SUBCLASS: usize = 0x2000_0000;

/// The size of a text in UTF-8.
pub open spec fn utf8_len(text: Seq<char>) -> nat {
    encode_utf8(text).len()
}

fn text_len(text: &String) -> (r: usize)
    ensures
        r == utf8_len(text@),
{
    text.as_str().as_bytes().len()
}

fn is_text(text: &String, other: &'static str) -> (r: bool)
    ensures
        r == (text@ == other@),
{
    *text == other.to_owned()
}

/// The texts one after the other, with `separator` between them.
pub open spec fn joined(texts: Seq<Seq<char>>, separator: Seq<char>) -> Seq<char>
    decreases texts.len(),
{
    if texts.len() == 0 {
        Seq::empty()
    } else if texts.len() == 1 {
        texts[0]
    } else {
        joined(texts.drop_last(), separator) + separator + texts.last()
    }
}

pub open spec fn texts_view(texts: Seq<String>) -> Seq<Seq<char>> {
    Seq::new(texts.len(), |i: int| texts[i]@)
}

/// `open`, the texts with commas between them, and `close`.
pub open spec fn listing(open_text: Seq<char>, texts: Seq<Seq<char>>, close_text: Seq<char>) -> Seq<
    char,
> {
    open_text + joined(texts, ", "@) + close_text
}

fn write_listing(open_text: &str, texts: &Vec<String>, close_text: &str) -> (r: String)
    ensures
        r@ == listing(open_text@, texts_view(texts@), close_text@),
{
    let mut body = String::new();
    let ghost views = texts_view(texts@);
    for i in 0..texts.len()
        invariant
            views == texts_view(texts@),
            body@ == joined(views.take(i as int), ", "@),
    {
        if i > 0 {
            body.append(", ");
        }
        body.append(texts[i].as_str());
        proof {
            assert(views.take(i + 1).drop_last() =~= views.take(i as int));
            assert(views.take(i + 1).last() == texts[i as int]@);
            assert(body@ =~= joined(views.take(i + 1), ", "@));
        }
    }
    assert(views.take(texts@.len() as int) =~= views);
    open_text.to_owned().concat(body.as_str()).concat(close_text)
}

/// What stands for a character inside quotes.
pub open spec fn escaped_char(c: char) -> Seq<char> {
    if c == '\'' {
        "\\\""@
    } else if c == '\n' {
        "\\n"@
    } else {
        seq![c]
    }
}

/// What stands for a text inside quotes.
pub open spec fn escaped(text: Seq<char>) -> Seq<char>
    decreases text.len(),
{
    if text.len() == 0 {
        Seq::empty()
    } else {
        escaped(text.drop_last()) + escaped_char(text.last())
    }
}

/// The text in quotes, cut off so that the whole takes no more than `max_length` characters.
pub open spec fn quoted(text: Seq<char>, max_length: int) -> Seq<char> {
    let body = escaped(text);
    if body.len() > max_length - 5 {
        "\""@ + body.take(max_length - 5) + "...\""@
    } else {
        "\""@ + body + "\""@
    }
}

fn escape(text: &String) -> (r: String)
    ensures
        r@ == escaped(text@),
{
    let mut body = String::new();
    let n: usize = text.as_str().unicode_len();
    for i in 0..n
        invariant
            n == text@.len(),
            body@ == escaped(text@.take(i as int)),
    {
        let c = text.as_str().get_char(i);
        if c == '\'' {
            body.append("\\\"");
        } else if c == '\n' {
            body.append("\\n");
        } else {
            body.push(c);
        }
        proof {
            assert(text@.take(i + 1).drop_last() =~= text@.take(i as int));
            assert(text@.take(i + 1).last() == c);
            assert(body@ =~= escaped(text@.take(i + 1)));
        }
    }
    assert(text@.take(n as int) =~= text@);
    body
}

fn quote(text: &String, max_length: isize) -> (r: String)
    requires
        max_length > 5,
    ensures
        r@ == quoted(text@, max_length as int),
{
    let body = escape(text);
    let limit: usize = (max_length - 5) as usize;
    if body.as_str().unicode_len() > limit {
        "\"".to_owned().concat(body.as_str().substring_char(0, limit)).concat("...\"")
    } else {
        "\"".to_owned().concat(body.as_str()).concat("\"")
    }
}

/// The text of an integer, or of a boolean where that is its type.
pub open spec fn int_text(kind: Seq<char>, value: int) -> Seq<char> {
    if kind == "bool"@ {
        if value > 0 {
            "True"@
        } else {
            "False"@
        }
    } else {
        decimal_text(value)
    }
}

fn format_int(kind: &String, value: i64) -> (r: String)
    ensures
        r@ == int_text(kind@, value as int),
{
    if is_text(kind, "bool") {
        if value > 0 {
            "True".to_owned()
        } else {
            "False".to_owned()
        }
    } else {
        decimal(value as i128)
    }
}

/// The text for an integer as it was copied; one that overflowed is a bigint of some sign.
pub open spec fn long_text(kind: Seq<char>, value: i64, overflowed: bool) -> Seq<char> {
    if !overflowed {
        int_text(kind, value as int)
    } else if value > 0 {
        "+bigint"@
    } else {
        "-bigint"@
    }
}

/// The text for a value of which nothing more is known than its type and place.
pub open spec fn opaque_text(kind: Seq<char>, addr: usize) -> Seq<char> {
    "<"@ + kind + " at 0x"@ + hex_text(addr as nat) + ">"@
}

fn format_opaque(kind: &String, addr: usize) -> (r: String)
    ensures
        r@ == opaque_text(kind@, addr),
{
    "<".to_owned().concat(kind.as_str()).concat(" at 0x").concat(
        hex(addr as u64).as_str(),
    ).concat(">")
}

/// How many bytes of a type's name are read.
pub const MAX_TYPE_LEN: usize = 128;

/// Where a name ends: at its first zero byte, or where it is cut off.
pub open spec fn name_length(data: Seq<u8>) -> int {
    match data.index_of_first(0) {
        Some(i) => i,
        None => MAX_TYPE_LEN as int,
    }
}

fn find_name_length(data: &Vec<u8>) -> (r: usize)
    ensures
        r == name_length(data@),
{
    proof {
        data@.index_of_first_ensures(0);
    }
    let total: usize = data.len();
    for i in 0..total
        invariant
            total == data@.len(),
            forall|j: int| 0 <= j < i ==> data@[j] != 0,
            match data@.index_of_first(0) {
                Some(k) => 0 <= k < data@.len() && data@[k] == 0 && forall|j: int|
                    0 <= j < k ==> data@[j] != 0,
                None => !data@.contains(0),
            },
    {
        if data[i] == 0 {
            assert(data@.contains(data@[i as int]));
            return i;
        }
    }
    MAX_TYPE_LEN
}

/// Copies the name of the type of the object at `addr`, and the flags of that type.
pub open spec fn type_run(l: Seq<Event>, p: int, bindings: Bindings, addr: usize) -> Run<
    (Seq<char>, usize),
> {
    let object = struct_at::<Object>(l, p, bindings, addr);
    match object.out {
        Err(causes) => failed(causes, object.next),
        Ok(value) => {
            let head = struct_at::<TypeObject>(l, object.next, bindings, value.ob_type);
            match head.out {
                Err(causes) => failed(causes, head.next),
                Ok(value_type) => {
                    let body = bytes_at(l, head.next, value_type.name, MAX_TYPE_LEN);
                    match body.out {
                        Err(causes) => failed(causes, body.next),
                        Ok((data, _)) => {
                            let name = data.take(name_length(data));
                            if name_length(data) > data.len() {
                                failed(
                                    seq![
                                        Cause::ShortRead {
                                            wanted: MAX_TYPE_LEN,
                                            got: data.len() as usize,
                                        },
                                    ],
                                    body.next,
                                )
                            } else if valid_utf8(name) {
                                done((decode_utf8(name), value_type.flags), body.next)
                            } else {
                                failed(seq![Cause::NotUtf8(utf8_fault(name))], body.next)
                            }
                        },
                    }
                },
            }
        },
    }
}

/// The run that came to the name and the flags of a type, and left the log as `log`.
pub open spec fn ran_type(r: Result<(String, usize), Error>, log: Seq<Event>) -> Run<
    (Seq<char>, usize),
> {
    match r {
        Ok((name, flags)) => done((name@, flags), log.len() as int),
        Err(e) => failed(e@, log.len() as int),
    }
}

fn copy_type<P: ProcessMemory>(bindings: Bindings, process: &mut Target<P>, addr: usize) -> (r:
    Result<(String, usize), Error>)
    ensures
        continued(*old(process), *final(process)),
        forall|l: Seq<Event>|
            grown(final(process).log(), l) ==> #[trigger] type_run(
                l,
                old(process).log().len() as int,
                bindings,
                addr,
            ) == ran_type(r, final(process).log()),
{
    let value: Object = match process.copy_struct(bindings, addr) {
        Ok(value) => value,
        Err(e) => {
            return Err(e);
        },
    };
    let value_type: TypeObject = match process.copy_struct(bindings, value.ob_type) {
        Ok(value_type) => value_type,
        Err(e) => {
            return Err(e);
        },
    };
    let copied = match process.copy(value_type.name, MAX_TYPE_LEN) {
        Ok(copied) => copied,
        Err(e) => {
            return Err(e);
        },
    };
    let length = find_name_length(&copied.data);
    let got: usize = copied.data.len();
    if length > got {
        return Err(Error::new(Cause::ShortRead { wanted: MAX_TYPE_LEN, got }));
    }
    match utf8_outcome(decode_name(&copied.data, length), false) {
        Ok(name) => Ok((name, value_type.flags)),
        Err(cause) => Err(Error::new(cause)),
    }
}

/// How the value inside a numpy scalar is stored.
#[derive(Clone, Copy, Debug, PartialEq, Eq, Structural)]
pub enum Scalar {
    Unsigned(usize),
    Signed(usize),
    Single,
    Double,
}

/// How the value inside a numpy scalar of this type is stored.
pub open spec fn scalar_of(kind: Seq<char>) -> Option<Scalar> {
    if kind == "numpy.bool"@ || kind == "numpy.uint8"@ {
        Some(Scalar::Unsigned(1))
    } else if kind == "numpy.uint16"@ {
        Some(Scalar::Unsigned(2))
    } else if kind == "numpy.uint32"@ {
        Some(Scalar::Unsigned(4))
    } else if kind == "numpy.uint64"@ {
        Some(Scalar::Unsigned(8))
    } else if kind == "numpy.int8"@ {
        Some(Scalar::Signed(1))
    } else if kind == "numpy.int16"@ {
        Some(Scalar::Signed(2))
    } else if kind == "numpy.int32"@ {
        Some(Scalar::Signed(4))
    } else if kind == "numpy.int64"@ {
        Some(Scalar::Signed(8))
    } else if kind == "numpy.float32"@ {
        Some(Scalar::Single)
    } else if kind == "numpy.float64"@ {
        Some(Scalar::Double)
    } else {
        None
    }
}

fn find_scalar(kind: &String) -> (r: Option<Scalar>)
    ensures
        r == scalar_of(kind@),
{
    if is_text(kind, "numpy.bool") || is_text(kind, "numpy.uint8") {
        Some(Scalar::Unsigned(1))
    } else if is_text(kind, "numpy.uint16") {
        Some(Scalar::Unsigned(2))
    } else if is_text(kind, "numpy.uint32") {
        Some(Scalar::Unsigned(4))
    } else if is_text(kind, "numpy.uint64") {
        Some(Scalar::Unsigned(8))
    } else if is_text(kind, "numpy.int8") {
        Some(Scalar::Signed(1))
    } else if is_text(kind, "numpy.int16") {
        Some(Scalar::Signed(2))
    } else if is_text(kind, "numpy.int32") {
        Some(Scalar::Signed(4))
    } else if is_text(kind, "numpy.int64") {
        Some(Scalar::Signed(8))
    } else if is_text(kind, "numpy.float32") {
        Some(Scalar::Single)
    } else if is_text(kind, "numpy.float64") {
        Some(Scalar::Double)
    } else {
        None
    }
}

/// The number of bytes that the value takes.
pub open spec fn scalar_width(scalar: Scalar) -> usize {
    match scalar {
        Scalar::Unsigned(width) => width,
        Scalar::Signed(width) => width,
        Scalar::Single => 4,
        Scalar::Double => 8,
    }
}

/// One more than the largest number that fits in `width` bytes.
pub open spec fn width_span(width: usize) -> int {
    if width == 1 {
        0x100
    } else if width == 2 {
        0x1_0000
    } else if width == 4 {
        0x1_0000_0000
    } else {
        0x1_0000_0000_0000_0000
    }
}

/// The number that the bits of `n` stand for in two's complement, `width` bytes wide.
pub open spec fn signed_value(n: nat, width: usize) -> int {
    if n < width_span(width) / 2 {
        n as int
    } else {
        n - width_span(width)
    }
}

/// Writes out the value of a numpy scalar, which stands right behind the object's head.
pub open spec fn obval_run(l: Seq<Event>, p: int, scalar: Scalar, addr: usize) -> Run<Seq<char>> {
    let width = scalar_width(scalar);
    let body = block_at(l, p, addr.wrapping_add(2usize.wrapping_mul(word_size())), width);
    match body.out {
        Err(causes) => failed(causes, body.next),
        Ok((data, order)) => {
            let n = spelled(data, order);
            match scalar {
                Scalar::Unsigned(_) => done(decimal_text(n as int), body.next),
                Scalar::Signed(_) => done(decimal_text(signed_value(n, width)), body.next),
                Scalar::Single => single_text_at(l, body.next, n as u32),
                Scalar::Double => double_text_at(l, body.next, n as u64),
            }
        },
    }
}

/// Format the numpy scalar to a string.
///
/// All numpy scalars have the head of an object, and behind it the value, which can be of
/// different sizes depending on the scalar type. The size goes by the name of the type, which
/// avoids the need to build bindings for the numpy C API.
///
/// * `addr`: Address of the numpy scalar
/// * `process`: Process memory in which the object resides
fn format_obval<P: ProcessMemory>(process: &mut Target<P>, scalar: Scalar, addr: usize) -> (r:
    Result<String, Error>)
    requires
        scalar_width(scalar) == 1 || scalar_width(scalar) == 2 || scalar_width(scalar) == 4
            || scalar_width(scalar) == 8,
    ensures
        continued(*old(process), *final(process)),
        forall|l: Seq<Event>|
            grown(final(process).log(), l) ==> #[trigger] obval_run(
                l,
                old(process).log().len() as int,
                scalar,
                addr,
            ) == ran_view(r, final(process).log()),
{
    let width: usize = match scalar {
        Scalar::Unsigned(width) => width,
        Scalar::Signed(width) => width,
        Scalar::Single => 4,
        Scalar::Double => 8,
    };
    let value_addr: usize = addr.wrapping_add(2usize.wrapping_mul(word_size()));
    let copied: Copied = match process.block(value_addr, width) {
        Ok(copied) => copied,
        Err(e) => {
            return Err(e);
        },
    };
    proof {
        assert(copied.data@.subrange(0int * width, 0int * width + width) =~= copied.data@);
        lemma_spelled_bound(copied.data@, copied.order);
    }
    let n: u64 = copied.unit(0, width);
    match scalar {
        Scalar::Unsigned(_) => Ok(decimal(n as i128)),
        Scalar::Signed(_) => {
            let span: i128 = if width == 1 {
                0x100
            } else if width == 2 {
                0x1_0000
            } else if width == 4 {
                0x1_0000_0000
            } else {
                0x1_0000_0000_0000_0000
            };
            if (n as i128) < span / 2 {
                Ok(decimal(n as i128))
            } else {
                Ok(decimal(n as i128 - span))
            }
        },
        Scalar::Single => Ok(process.single_text(n as u32)),
        Scalar::Double => Ok(process.double_text(n)),
    }
}

/// Finds where the pointers to the items of a list or a tuple are, and how many there are.
pub open spec fn sequence_run(
    l: Seq<Event>,
    p: int,
    bindings: Bindings,
    addr: usize,
    is_list: bool,
) -> Run<(usize, usize)> {
    if is_list {
        let head = struct_at::<ListObject>(l, p, bindings, addr);
        match head.out {
            Err(causes) => failed(causes, head.next),
            Ok(list) => done((list.item, list.size), head.next),
        }
    } else {
        let head = struct_at::<TupleObject>(l, p, bindings, addr);
        match head.out {
            Err(causes) => failed(causes, head.next),
            Ok(tuple) => done((tuple.items, tuple.size), head.next),
        }
    }
}

fn copy_sequence<P: ProcessMemory>(
    bindings: Bindings,
    process: &mut Target<P>,
    addr: usize,
    is_list: bool,
) -> (r: Result<(usize, usize), Error>)
    ensures
        continued(*old(process), *final(process)),
        forall|l: Seq<Event>|
            grown(final(process).log(), l) ==> #[trigger] sequence_run(
                l,
                old(process).log().len() as int,
                bindings,
                addr,
                is_list,
            ) == ran(r, final(process).log()),
{
    if is_list {
        let read: Result<ListObject, Error> = process.copy_struct(bindings, addr);
        match read {
            Ok(list) => Ok((list.item, list.size)),
            Err(e) => Err(e),
        }
    } else {
        let read: Result<TupleObject, Error> = process.copy_struct(bindings, addr);
        match read {
            Ok(tuple) => Ok((tuple.items, tuple.size)),
            Err(e) => Err(e),
        }
    }
}

/// Writes out a value by the name and the flags of its type, where there is room for it.
pub open spec fn typed_run(
    l: Seq<Event>,
    p: int,
    bindings: Bindings,
    version: &Version,
    addr: usize,
    max_length: int,
    kind: Seq<char>,
    flags: usize,
) -> Run<Seq<char>>
    decreases max_length, 1int,
{
    if max_length <= 5 {
        done("..."@, p)
    } else if flags & PY_TPFLAGS_INT_SUBCLASS != 0 {
        let run = int_run(l, p, addr);
        match run.out {
            Err(causes) => failed(causes, run.next),
            Ok(value) => done(int_text(kind, value as int), run.next),
        }
    } else if flags & PY_TPFLAGS_LONG_SUBCLASS != 0 {
        let run = long_run(l, p, version, addr);
        match run.out {
            Err(causes) => failed(causes, run.next),
            Ok((value, overflowed)) => done(long_text(kind, value, overflowed), run.next),
        }
    } else if flags & PY_TPFLAGS_STRING_SUBCLASS != 0 || (version.major == 2 && flags
        & PY_TPFLAGS_BYTES_SUBCLASS != 0) {
        let run = string_run(l, p, bindings, addr, false);
        match run.out {
            Err(causes) => failed(causes, run.next),
            Ok(text) => done(quoted(text, max_length), run.next),
        }
    } else if flags & PY_TPFLAGS_DICT_SUBCLASS != 0 {
        if version.major == 3 && version.minor >= 6 {
            let head = dict_run(l, p, version, addr);
            match head.out {
                Err(causes) => failed(causes, head.next),
                Ok(it) => {
                    let run = pairs_run(
                        l,
                        head.next,
                        bindings,
                        version,
                        it,
                        max_length - 2,
                        Seq::empty(),
                    );
                    match run.out {
                        Err(causes) => failed(causes, run.next),
                        Ok(texts) => done(listing("{"@, texts, "}"@), run.next),
                    }
                },
            }
        } else {
            done("dict"@, p)
        }
    } else if flags & PY_TPFLAGS_LIST_SUBCLASS != 0 || flags & PY_TPFLAGS_TUPLE_SUBCLASS != 0 {
        let is_list = flags & PY_TPFLAGS_LIST_SUBCLASS != 0;
        let head = sequence_run(l, p, bindings, addr, is_list);
        match head.out {
            Err(causes) => failed(causes, head.next),
            Ok((items, size)) => {
                let run = items_run(
                    l,
                    head.next,
                    bindings,
                    version,
                    items,
                    size,
                    0,
                    max_length - 2,
                    Seq::empty(),
                );
                match run.out {
                    Err(causes) => failed(causes, run.next),
                    Ok(texts) => done(
                        if is_list {
                            listing("["@, texts, "]"@)
                        } else {
                            listing("("@, texts, ")"@)
                        },
                        run.next,
                    ),
                }
            },
        }
    } else if kind == "float"@ {
        let run = struct_at::<FloatObject>(l, p, Bindings::V3_7_0, addr);
        match run.out {
            Err(causes) => failed(causes, run.next),
            Ok(value) => double_text_at(l, run.next, value.bits),
        }
    } else if kind == "NoneType"@ {
        done("None"@, p)
    } else {
        match scalar_of(kind) {
            Some(scalar) => obval_run(l, p, scalar, addr),
            None => done(opaque_text(kind, addr), p),
        }
    }
}

/// Writes out the value at `addr` in about `max_length` characters.
pub open spec fn variable_run(
    l: Seq<Event>,
    p: int,
    bindings: Bindings,
    version: &Version,
    addr: usize,
    max_length: int,
) -> Run<Seq<char>>
    decreases max_length, 2int,
{
    if max_length <= 5 {
        done("..."@, p)
    } else {
        let head = type_run(l, p, bindings, addr);
        match head.out {
            Err(causes) => failed(causes, head.next),
            Ok((kind, flags)) => typed_run(
                l,
                head.next,
                bindings,
                version,
                addr,
                max_length,
                kind,
                flags,
            ),
        }
    }
}

/// Writes out the values whose addresses are stored from `items` on, beginning with the `i`-th,
/// behind those in `texts`. The list is cut off with an ellipsis once `remaining` characters are
/// about used up.
pub open spec fn items_run(
    l: Seq<Event>,
    p: int,
    bindings: Bindings,
    version: &Version,
    items: usize,
    size: usize,
    i: usize,
    remaining: int,
    texts: Seq<Seq<char>>,
) -> Run<Seq<Seq<char>>>
    decreases remaining, 3int,
{
    if i >= size {
        done(texts, p)
    } else {
        let item = word_at(l, p, items.wrapping_add(i.wrapping_mul(word_size())));
        match item.out {
            Err(causes) => failed(causes, item.next),
            Ok(addr) => {
                let value = variable_run(l, item.next, bindings, version, addr, remaining);
                match value.out {
                    Err(causes) => failed(causes, value.next),
                    Ok(text) => {
                        let left = remaining - (utf8_len(text) + 2);
                        if left <= 5 {
                            done(texts.push("..."@), value.next)
                        } else {
                            items_run(
                                l,
                                value.next,
                                bindings,
                                version,
                                items,
                                size,
                                (i + 1) as usize,
                                left,
                                texts.push(text),
                            )
                        }
                    },
                }
            },
        }
    }
}

/// Writes out the keys and values that `it` has left, behind the pairs in `texts`. The list is
/// cut off with an ellipsis once `remaining` characters are about used up.
pub open spec fn pairs_run(
    l: Seq<Event>,
    p: int,
    bindings: Bindings,
    version: &Version,
    it: DictIterator,
    remaining: int,
    texts: Seq<Seq<char>>,
) -> Run<Seq<Seq<char>>>
    decreases remaining, 3int,
{
    let (item, rest) = next_run(l, p, it);
    match item.out {
        Err(causes) => failed(causes, item.next),
        Ok(None) => done(texts, item.next),
        Ok(Some((key_addr, value_addr))) => {
            let key = variable_run(l, item.next, bindings, version, key_addr, remaining);
            match key.out {
                Err(causes) => failed(causes, key.next),
                Ok(key_text) => {
                    let value = variable_run(
                        l,
                        key.next,
                        bindings,
                        version,
                        value_addr,
                        remaining,
                    );
                    match value.out {
                        Err(causes) => failed(causes, value.next),
                        Ok(value_text) => {
                            let left = remaining - (utf8_len(key_text) + utf8_len(value_text) + 4);
                            if left <= 5 {
                                done(texts.push("..."@), value.next)
                            } else {
                                pairs_run(
                                    l,
                                    value.next,
                                    bindings,
                                    version,
                                    rest,
                                    left,
                                    texts.push(key_text + ": "@ + value_text),
                                )
                            }
                        },
                    }
                },
            }
        },
    }
}

/// The run that came to these texts, and left the log as `log`.
pub open spec fn ran_texts(r: Result<Vec<String>, Error>, log: Seq<Event>) -> Run<Seq<Seq<char>>> {
    match r {
        Ok(texts) => done(texts_view(texts@), log.len() as int),
        Err(e) => failed(e@, log.len() as int),
    }
}

fn push_text(texts: &mut Vec<String>, text: String)
    ensures
        texts_view(final(texts)@) == texts_view(old(texts)@).push(text@),
{
    let ghost before = texts@;
    texts.push(text);
    assert(texts_view(texts@) =~= texts_view(before).push(text@));
}

fn format_items<P: ProcessMemory>(
    bindings: Bindings,
    process: &mut Target<P>,
    version: &Version,
    items: usize,
    size: usize,
    max_length: isize,
) -> (r: Result<Vec<String>, Error>)
    ensures
        continued(*old(process), *final(process)),
        forall|l: Seq<Event>|
            grown(final(process).log(), l) ==> #[trigger] items_run(
                l,
                old(process).log().len() as int,
                bindings,
                version,
                items,
                size,
                0,
                max_length as int,
                Seq::empty(),
            ) == ran_texts(r, final(process).log()),
    decreases max_length, 3int,
{
    let mut texts: Vec<String> = Vec::new();
    let mut remaining: isize = max_length;
    let mut i: usize = 0;
    let ghost start = process.log().len() as int;
    assert(texts_view(texts@) =~= Seq::<Seq<char>>::empty());
    while i < size
        invariant
            i <= size,
            remaining == max_length || 5 < remaining < max_length,
            start == old(process).log().len(),
            continued(*old(process), *process),
            forall|l: Seq<Event>|
                grown(process.log(), l) ==> #[trigger] items_run(
                    l,
                    start,
                    bindings,
                    version,
                    items,
                    size,
                    0,
                    max_length as int,
                    Seq::empty(),
                ) == items_run(
                    l,
                    process.log().len() as int,
                    bindings,
                    version,
                    items,
                    size,
                    i,
                    remaining as int,
                    texts_view(texts@),
                ),
        decreases size - i,
    {
        let addr: usize = match process.word(items.wrapping_add(i.wrapping_mul(word_size()))) {
            Ok(addr) => addr,
            Err(e) => {
                return Err(e);
            },
        };
        let ghost mid = process.log().len() as int;
        let value = format_variable(bindings, process, version, addr, remaining);
        proof {
            let answer = ran_view(value, process.log());
            assert forall|l: Seq<Event>| grown(process.log(), l) implies #[trigger] items_run(
                l,
                start,
                bindings,
                version,
                items,
                size,
                0,
                max_length as int,
                Seq::empty(),
            ) == (match answer.out {
                Err(causes) => failed(causes, answer.next),
                Ok(text) => if remaining - (utf8_len(text) + 2) <= 5 {
                    done(texts_view(texts@).push("..."@), answer.next)
                } else {
                    items_run(
                        l,
                        answer.next,
                        bindings,
                        version,
                        items,
                        size,
                        (i + 1) as usize,
                        remaining - (utf8_len(text) + 2),
                        texts_view(texts@).push(text),
                    )
                },
            }) by {
                assert(variable_run(l, mid, bindings, version, addr, remaining as int) == answer);
            }
        }
        let text = match value {
            Ok(text) => text,
            Err(e) => {
                return Err(e);
            },
        };
        let left: i128 = remaining as i128 - (text_len(&text) as i128 + 2);
        if left <= 5 {
            push_text(&mut texts, "...".to_owned());
            return Ok(texts);
        }
        push_text(&mut texts, text);
        remaining = left as isize;
        i = i + 1;
    }
    Ok(texts)
}

fn format_pairs<P: ProcessMemory>(
    bindings: Bindings,
    process: &mut Target<P>,
    version: &Version,
    entries: DictIterator,
    max_length: isize,
) -> (r: Result<Vec<String>, Error>)
    ensures
        continued(*old(process), *final(process)),
        forall|l: Seq<Event>|
            grown(final(process).log(), l) ==> #[trigger] pairs_run(
                l,
                old(process).log().len() as int,
                bindings,
                version,
                entries,
                max_length as int,
                Seq::empty(),
            ) == ran_texts(r, final(process).log()),
    decreases max_length, 3int,
{
    let mut texts: Vec<String> = Vec::new();
    let mut remaining: isize = max_length;
    let mut it = entries;
    let ghost start = process.log().len() as int;
    assert(texts_view(texts@) =~= Seq::<Seq<char>>::empty());
    loop
        invariant
            remaining == max_length || 5 < remaining < max_length,
            start == old(process).log().len(),
            continued(*old(process), *process),
            forall|l: Seq<Event>|
                grown(process.log(), l) ==> #[trigger] pairs_run(
                    l,
                    start,
                    bindings,
                    version,
                    entries,
                    max_length as int,
                    Seq::empty(),
                ) == pairs_run(
                    l,
                    process.log().len() as int,
                    bindings,
                    version,
                    it,
                    remaining as int,
                    texts_view(texts@),
                ),
        decreases remaining,
    {
        let (key_addr, value_addr): (usize, usize) = match it.next(process) {
            None => {
                return Ok(texts);
            },
            Some(Err(e)) => {
                return Err(e);
            },
            Some(Ok(item)) => item,
        };
        let ghost key_start = process.log().len() as int;
        let key_result = format_variable(bindings, process, version, key_addr, remaining);
        let ghost key_run = ran_view(key_result, process.log());
        let key = match key_result {
            Ok(key) => key,
            Err(e) => {
                proof {
                    assert forall|l: Seq<Event>| grown(process.log(), l) implies #[trigger] pairs_run(
                        l,
                        start,
                        bindings,
                        version,
                        entries,
                        max_length as int,
                        Seq::empty(),
                    ) == failed::<Seq<Seq<char>>>(e@, process.log().len() as int) by {
                        assert(variable_run(
                            l,
                            key_start,
                            bindings,
                            version,
                            key_addr,
                            remaining as int,
                        ) == key_run);
                    }
                }
                return Err(e);
            },
        };
        let ghost value_start = process.log().len() as int;
        let value_result = format_variable(bindings, process, version, value_addr, remaining);
        proof {
            let answer = ran_view(value_result, process.log());
            assert forall|l: Seq<Event>| grown(process.log(), l) implies #[trigger] pairs_run(
                l,
                start,
                bindings,
                version,
                entries,
                max_length as int,
                Seq::empty(),
            ) == (match answer.out {
                Err(causes) => failed(causes, answer.next),
                Ok(text) => {
                    let left = remaining - (utf8_len(key@) + utf8_len(text) + 4);
                    if left <= 5 {
                        done(texts_view(texts@).push("..."@), answer.next)
                    } else {
                        pairs_run(
                            l,
                            answer.next,
                            bindings,
                            version,
                            it,
                            left,
                            texts_view(texts@).push(key@ + ": "@ + text),
                        )
                    }
                },
            }) by {
                assert(variable_run(l, key_start, bindings, version, key_addr, remaining as int)
                    == key_run);
                assert(variable_run(l, value_start, bindings, version, value_addr, remaining as int)
                    == answer);
            }
        }
        let value = match value_result {
            Ok(value) => value,
            Err(e) => {
                return Err(e);
            },
        };
        let left: i128 = remaining as i128 - (text_len(&key) as i128 + text_len(&value) as i128 + 4);
        if left <= 5 {
            push_text(&mut texts, "...".to_owned());
            return Ok(texts);
        }
        push_text(&mut texts, key.concat(": ").concat(value.as_str()));
        remaining = left as isize;
    }
}

fn format_typed<P: ProcessMemory>(
    bindings: Bindings,
    process: &mut Target<P>,
    version: &Version,
    addr: usize,
    max_length: isize,
    kind: &String,
    flags: usize,
) -> (r: Result<String, Error>)
    requires
        max_length > 5,
    ensures
        continued(*old(process), *final(process)),
        forall|l: Seq<Event>|
            grown(final(process).log(), l) ==> #[trigger] typed_run(
                l,
                old(process).log().len() as int,
                bindings,
                version,
                addr,
                max_length as int,
                kind@,
                flags,
            ) == ran_view(r, final(process).log()),
    decreases max_length, 1int,
{
    let ghost start = process.log().len() as int;
    if flags & PY_TPFLAGS_INT_SUBCLASS != 0 {
        match copy_int(process, addr) {
            Ok(value) => Ok(format_int(kind, value)),
            Err(e) => Err(e),
        }
    } else if flags & PY_TPFLAGS_LONG_SUBCLASS != 0 {
        // we don't handle arbitrary sized integer values (max is 2**60)
        match copy_long(process, version, addr) {
            Ok((value, overflowed)) => {
                if !overflowed {
                    Ok(format_int(kind, value))
                } else if value > 0 {
                    Ok("+bigint".to_owned())
                } else {
                    Ok("-bigint".to_owned())
                }
            },
            Err(e) => Err(e),
        }
    } else if flags & PY_TPFLAGS_STRING_SUBCLASS != 0 || (version.major == 2 && flags
        & PY_TPFLAGS_BYTES_SUBCLASS != 0) {
        match copy_string(bindings, addr, process, false) {
            Ok(text) => Ok(quote(&text, max_length)),
            Err(e) => Err(e),
        }
    } else if flags & PY_TPFLAGS_DICT_SUBCLASS != 0 {
        if version.major == 3 && version.minor >= 6 {
            match DictIterator::from(process, version, addr) {
                Ok(it) => {
                    let ghost mid = process.log().len() as int;
                    let listed = format_pairs(bindings, process, version, it, max_length - 2);
                    let ghost answer = ran_texts(listed, process.log());
                    let r = match listed {
                        Ok(texts) => Ok(write_listing("{", &texts, "}")),
                        Err(e) => Err(e),
                    };
                    proof {
                        assert forall|l: Seq<Event>| grown(process.log(), l) implies #[trigger] typed_run(
                            l,
                            start,
                            bindings,
                            version,
                            addr,
                            max_length as int,
                            kind@,
                            flags,
                        ) == ran_view(r, process.log()) by {
                            assert(pairs_run(
                                l,
                                mid,
                                bindings,
                                version,
                                it,
                                max_length - 2,
                                Seq::empty(),
                            ) == answer);
                        }
                    }
                    r
                },
                Err(e) => Err(e),
            }
        } else {
            Ok("dict".to_owned())
        }
    } else if flags & PY_TPFLAGS_LIST_SUBCLASS != 0 || flags & PY_TPFLAGS_TUPLE_SUBCLASS != 0 {
        let is_list = flags & PY_TPFLAGS_LIST_SUBCLASS != 0;
        let (items, size): (usize, usize) = match copy_sequence(bindings, process, addr, is_list) {
            Ok(head) => head,
            Err(e) => {
                return Err(e);
            },
        };
        let ghost mid = process.log().len() as int;
        let listed = format_items(bindings, process, version, items, size, max_length - 2);
        let ghost answer = ran_texts(listed, process.log());
        let r = match listed {
            Ok(texts) => if is_list {
                Ok(write_listing("[", &texts, "]"))
            } else {
                Ok(write_listing("(", &texts, ")"))
            },
            Err(e) => Err(e),
        };
        proof {
            assert forall|l: Seq<Event>| grown(process.log(), l) implies #[trigger] typed_run(
                l,
                start,
                bindings,
                version,
                addr,
                max_length as int,
                kind@,
                flags,
            ) == ran_view(r, process.log()) by {
                assert(items_run(
                    l,
                    mid,
                    bindings,
                    version,
                    items,
                    size,
                    0,
                    max_length - 2,
                    Seq::empty(),
                ) == answer);
            }
        }
        r
    } else if is_text(kind, "float") {
        let value: FloatObject = match process.copy_struct(Bindings::V3_7_0, addr) {
            Ok(value) => value,
            Err(e) => {
                return Err(e);
            },
        };
        Ok(process.double_text(value.bits))
    } else if is_text(kind, "NoneType") {
        Ok("None".to_owned())
    } else {
        match find_scalar(kind) {
            Some(scalar) => format_obval(process, scalar, addr),
            None => Ok(format_opaque(kind, addr)),
        }
    }
}

/// Converts a python variable in the other process to a human readable string
pub fn format_variable<P: ProcessMemory>(
    bindings: Bindings,
    process: &mut Target<P>,
    version: &Version,
    addr: usize,
    max_length: isize,
) -> (r: Result<String, Error>)
    ensures
        continued(*old(process), *final(process)),
        forall|l: Seq<Event>|
            grown(final(process).log(), l) ==> #[trigger] variable_run(
                l,
                old(process).log().len() as int,
                bindings,
                version,
                addr,
                max_length as int,
            ) == ran_view(r, final(process).log()),
    decreases max_length, 2int,
{
    // We need at least 5 characters remaining for all this code to work, replace with an ellipsis
    // if we're out of space
    if max_length <= 5 {
        return Ok("...".to_owned());
    }
    match copy_type(bindings, process, addr) {
        Ok((kind, flags)) => {
            let ghost mid = process.log().len() as int;
            let r = format_typed(bindings, process, version, addr, max_length, &kind, flags);
            proof {
                assert forall|l: Seq<Event>| grown(process.log(), l) implies #[trigger] variable_run(
                    l,
                    old(process).log().len() as int,
                    bindings,
                    version,
                    addr,
                    max_length as int,
                ) == ran_view(r, process.log()) by {
                    assert(typed_run(
                        l,
                        mid,
                        bindings,
                        version,
                        addr,
                        max_length as int,
                        kind@,
                        flags,
                    ) == ran_view(r, process.log()));
                }
            }
            r
        },
        Err(e) => Err(e),
    }
}

/// Where there is no room for a value it is not even looked at.
pub proof fn law_no_room(
    l: Seq<Event>,
    p: int,
    bindings: Bindings,
    version: &Version,
    addr: usize,
    max_length: int,
)
    requires
        max_length <= 5,
    ensures
        variable_run(l, p, bindings, version, addr, max_length) == done("..."@, p),
{
}

/// A quoted text takes no more than the characters it was given, and is whole where it fits.
pub proof fn law_quoted_length(text: Seq<char>, max_length: int)
    requires
        max_length > 5,
    ensures
        quoted(text, max_length).len() <= max_length,
        escaped(text).len() <= max_length - 5 ==> quoted(text, max_length) == "\""@ + escaped(text)
            + "\""@,
{
    reveal_strlit("\"");
    reveal_strlit("...\"");
}

/// No quoted text has a line break or a single quote in it.
pub proof fn law_quoted_is_one_line(text: Seq<char>, max_length: int)
    requires
        max_length > 5,
    ensures
        !quoted(text, max_length).contains('\n'),
        !quoted(text, max_length).contains('\''),
{
    reveal_strlit("\"");
    reveal_strlit("...\"");
    lemma_escaped(text);
    let body = escaped(text);
    let r = quoted(text, max_length);
    assert forall|i: int| 0 <= i < r.len() implies r[i] != '\n' && r[i] != '\'' by {
        if 1 <= i <= body.len() && i <= max_length - 5 {
            assert(r[i] == body[i - 1]);
        }
    }
}

proof fn lemma_escaped(text: Seq<char>)
    ensures
        forall|i: int|
            0 <= i < escaped(text).len() ==> #[trigger] escaped(text)[i] != '\n' && escaped(text)[i]
                != '\'',
    decreases text.len(),
{
    if text.len() > 0 {
        reveal_strlit("\\\"");
        reveal_strlit("\\n");
        lemma_escaped(text.drop_last());
        let init = escaped(text.drop_last());
        let end = escaped_char(text.last());
        assert(forall|i: int| 0 <= i < end.len() ==> end[i] != '\n' && end[i] != '\'');
        assert forall|i: int| 0 <= i < escaped(text).len() implies #[trigger] escaped(text)[i] != '\n'
            && escaped(text)[i] != '\'' by {
            if i >= init.len() {
                assert(escaped(text)[i] == end[i - init.len()]);
            } else {
                assert(escaped(text)[i] == init[i]);
            }
        }
    }
}

proof fn lemma_utf8_len_concat(a: Seq<char>, b: Seq<char>)
    ensures
        utf8_len(a + b) == utf8_len(a) + utf8_len(b),
    decreases a.len(),
{
    if a.len() == 0 {
        assert(a + b =~= b);
    } else {
        lemma_utf8_len_concat(a.drop_first(), b);
        assert((a + b).drop_first() =~= a.drop_first() + b);
    }
}

proof fn lemma_ascii_utf8_len(text: Seq<char>)
    requires
        is_ascii_chars(text),
    ensures
        utf8_len(text) == text.len(),
{
    is_ascii_chars_encode_utf8(text);
}

/// The room that texts take in a listing, with a separator behind each.
spec fn used(texts: Seq<Seq<char>>) -> nat {
    if texts.len() == 0 {
        0
    } else {
        utf8_len(joined(texts, ", "@)) + 2
    }
}

proof fn lemma_used_push(texts: Seq<Seq<char>>, text: Seq<char>)
    ensures
        used(texts.push(text)) == used(texts) + utf8_len(text) + 2,
        used(texts.push("..."@)) == used(texts) + 5,
{
    reveal_strlit(", ");
    reveal_strlit("...");
    lemma_ascii_utf8_len(", "@);
    lemma_ascii_utf8_len("..."@);
    assert(texts.push(text).drop_last() =~= texts);
    assert(texts.push("..."@).drop_last() =~= texts);
    let head = joined(texts, ", "@);
    lemma_utf8_len_concat(head, ", "@);
    lemma_utf8_len_concat(head + ", "@, text);
    lemma_utf8_len_concat(head + ", "@, "..."@);
}

proof fn lemma_listing_len(open_text: Seq<char>, texts: Seq<Seq<char>>, close_text: Seq<char>)
    requires
        is_ascii_chars(open_text),
        is_ascii_chars(close_text),
        open_text.len() == 1,
        close_text.len() == 1,
    ensures
        utf8_len(listing(open_text, texts, close_text)) == if texts.len() == 0 {
            2
        } else {
            used(texts)
        },
{
    let body = joined(texts, ", "@);
    lemma_ascii_utf8_len(open_text);
    lemma_ascii_utf8_len(close_text);
    lemma_utf8_len_concat(open_text, body);
    lemma_utf8_len_concat(open_text + body, close_text);
}

proof fn lemma_items_room(
    l: Seq<Event>,
    p: int,
    bindings: Bindings,
    version: &Version,
    items: usize,
    size: usize,
    i: usize,
    remaining: int,
    texts: Seq<Seq<char>>,
    room: int,
)
    requires
        room >= 4,
        used(texts) + remaining == room,
        texts.len() > 0 ==> remaining > 5,
    ensures
        items_run(l, p, bindings, version, items, size, i, remaining, texts).out matches Ok(all)
            ==> used(all) <= room + 1,
    decreases remaining,
{
    if i < size {
        let item = word_at(l, p, items.wrapping_add(i.wrapping_mul(word_size())));
        if let Ok(addr) = item.out {
            let value = variable_run(l, item.next, bindings, version, addr, remaining);
            if let Ok(text) = value.out {
                let left = remaining - (utf8_len(text) + 2);
                lemma_used_push(texts, text);
                if left > 5 {
                    lemma_items_room(
                        l,
                        value.next,
                        bindings,
                        version,
                        items,
                        size,
                        (i + 1) as usize,
                        left,
                        texts.push(text),
                        room,
                    );
                }
            }
        }
    }
}

proof fn lemma_pairs_room(
    l: Seq<Event>,
    p: int,
    bindings: Bindings,
    version: &Version,
    it: DictIterator,
    remaining: int,
    texts: Seq<Seq<char>>,
    room: int,
)
    requires
        room >= 4,
        used(texts) + remaining == room,
        texts.len() > 0 ==> remaining > 5,
    ensures
        pairs_run(l, p, bindings, version, it, remaining, texts).out matches Ok(all) ==> used(all)
            <= room + 1,
    decreases remaining,
{
    let (item, rest) = next_run(l, p, it);
    if let Ok(Some((key_addr, value_addr))) = item.out {
        let key = variable_run(l, item.next, bindings, version, key_addr, remaining);
        if let Ok(key_text) = key.out {
            let value = variable_run(l, key.next, bindings, version, value_addr, remaining);
            if let Ok(value_text) = value.out {
                let left = remaining - (utf8_len(key_text) + utf8_len(value_text) + 4);
                let pair = key_text + ": "@ + value_text;
                lemma_used_push(texts, pair);
                lemma_pair_len(key_text, value_text);
                if left > 5 {
                    lemma_pairs_room(
                        l,
                        value.next,
                        bindings,
                        version,
                        rest,
                        left,
                        texts.push(pair),
                        room,
                    );
                }
            }
        }
    }
}

proof fn lemma_items_listing(
    l: Seq<Event>,
    p: int,
    bindings: Bindings,
    version: &Version,
    items: usize,
    size: usize,
    max_length: int,
    open_text: Seq<char>,
    close_text: Seq<char>,
)
    requires
        max_length > 5,
        is_ascii_chars(open_text),
        is_ascii_chars(close_text),
        open_text.len() == 1,
        close_text.len() == 1,
    ensures
        items_run(
            l,
            p,
            bindings,
            version,
            items,
            size,
            0,
            max_length - 2,
            Seq::empty(),
        ).out matches Ok(texts) ==> utf8_len(listing(open_text, texts, close_text)) <= max_length,
{
    let room = max_length - 2;
    lemma_items_room(l, p, bindings, version, items, size, 0, room, Seq::empty(), room);
    let run = items_run(l, p, bindings, version, items, size, 0, room, Seq::empty());
    if let Ok(texts) = run.out {
        lemma_listing_len(open_text, texts, close_text);
    }
}

proof fn lemma_pairs_listing(
    l: Seq<Event>,
    p: int,
    bindings: Bindings,
    version: &Version,
    it: DictIterator,
    max_length: int,
    open_text: Seq<char>,
    close_text: Seq<char>,
)
    requires
        max_length > 5,
        is_ascii_chars(open_text),
        is_ascii_chars(close_text),
        open_text.len() == 1,
        close_text.len() == 1,
    ensures
        pairs_run(
            l,
            p,
            bindings,
            version,
            it,
            max_length - 2,
            Seq::empty(),
        ).out matches Ok(texts) ==> utf8_len(listing(open_text, texts, close_text)) <= max_length,
{
    let room = max_length - 2;
    lemma_pairs_room(l, p, bindings, version, it, room, Seq::empty(), room);
    let run = pairs_run(l, p, bindings, version, it, room, Seq::empty());
    if let Ok(texts) = run.out {
        lemma_listing_len(open_text, texts, close_text);
    }
}

/// A string takes no more characters than it was given, and a list, a tuple or a dictionary no
/// more bytes, however much it holds. (Numbers and names of types are not cut off.)
pub proof fn law_formatted_length(
    l: Seq<Event>,
    p: int,
    bindings: Bindings,
    version: &Version,
    addr: usize,
    max_length: int,
    kind: Seq<char>,
    flags: usize,
)
    requires
        max_length > 5,
        flags & PY_TPFLAGS_INT_SUBCLASS == 0,
        flags & PY_TPFLAGS_LONG_SUBCLASS == 0,
    ensures
        typed_run(l, p, bindings, version, addr, max_length, kind, flags).out matches Ok(text) ==> {
            let is_string = flags & PY_TPFLAGS_STRING_SUBCLASS != 0 || (version.major == 2 && flags
                & PY_TPFLAGS_BYTES_SUBCLASS != 0);
            let is_container = flags & PY_TPFLAGS_DICT_SUBCLASS != 0 || flags
                & PY_TPFLAGS_LIST_SUBCLASS != 0 || flags & PY_TPFLAGS_TUPLE_SUBCLASS != 0;
            &&& is_string ==> text.len() <= max_length
            &&& !is_string && is_container ==> utf8_len(text) <= max_length
        },
{
    if flags & PY_TPFLAGS_STRING_SUBCLASS != 0 || (version.major == 2 && flags
        & PY_TPFLAGS_BYTES_SUBCLASS != 0) {
        let run = string_run(l, p, bindings, addr, false);
        if let Ok(text) = run.out {
            law_quoted_length(text, max_length);
        }
    } else if flags & PY_TPFLAGS_DICT_SUBCLASS != 0 {
        reveal_strlit("dict");
        reveal_strlit("{");
        reveal_strlit("}");
        lemma_ascii_utf8_len("dict"@);
        let head = dict_run(l, p, version, addr);
        if let Ok(it) = head.out {
            lemma_pairs_listing(l, head.next, bindings, version, it, max_length, "{"@, "}"@);
        }
    } else if flags & PY_TPFLAGS_LIST_SUBCLASS != 0 || flags & PY_TPFLAGS_TUPLE_SUBCLASS != 0 {
        let is_list = flags & PY_TPFLAGS_LIST_SUBCLASS != 0;
        let (open_text, close_text) = if is_list {
            ("["@, "]"@)
        } else {
            ("("@, ")"@)
        };
        reveal_strlit("[");
        reveal_strlit("]");
        reveal_strlit("(");
        reveal_strlit(")");
        let head = sequence_run(l, p, bindings, addr, is_list);
        if let Ok((items, size)) = head.out {
            lemma_items_listing(
                l,
                head.next,
                bindings,
                version,
                items,
                size,
                max_length,
                open_text,
                close_text,
            );
        }
    }
}

/// Writes out the values whose addresses are stored from `items` on, beginning with the `i`-th, until
/// one leaves five or fewer of the `remaining` characters.
pub open spec fn tried_items_run(
    l: Seq<Event>,
    p: int,
    bindings: Bindings,
    version: &Version,
    items: usize,
    size: usize,
    i: usize,
    remaining: int,
) -> Run<Seq<Seq<char>>>
    decreases remaining,
{
    if i >= size {
        done(Seq::empty(), p)
    } else {
        let item = word_at(l, p, items.wrapping_add(i.wrapping_mul(word_size())));
        match item.out {
            Err(causes) => failed(causes, item.next),
            Ok(addr) => {
                let value = variable_run(l, item.next, bindings, version, addr, remaining);
                match value.out {
                    Err(causes) => failed(causes, value.next),
                    Ok(text) => {
                        let left = remaining - (utf8_len(text) + 2);
                        if left <= 5 {
                            done(seq![text], value.next)
                        } else {
                            let others = tried_items_run(
                                l,
                                value.next,
                                bindings,
                                version,
                                items,
                                size,
                                (i + 1) as usize,
                                left,
                            );
                            match others.out {
                                Err(causes) => failed(causes, others.next),
                                Ok(texts) => done(seq![text] + texts, others.next),
                            }
                        }
                    },
                }
            },
        }
    }
}

/// Writes out the keys and values that `it` has left, each pair as one text, until one leaves five or
/// fewer of the `remaining` characters.
pub open spec fn tried_pairs_run(
    l: Seq<Event>,
    p: int,
    bindings: Bindings,
    version: &Version,
    it: DictIterator,
    remaining: int,
) -> Run<Seq<Seq<char>>>
    decreases remaining,
{
    let (item, rest) = next_run(l, p, it);
    match item.out {
        Err(causes) => failed(causes, item.next),
        Ok(None) => done(Seq::empty(), item.next),
        Ok(Some((key_addr, value_addr))) => {
            let key = variable_run(l, item.next, bindings, version, key_addr, remaining);
            match key.out {
                Err(causes) => failed(causes, key.next),
                Ok(key_text) => {
                    let value = variable_run(l, key.next, bindings, version, value_addr, remaining);
                    match value.out {
                        Err(causes) => failed(causes, value.next),
                        Ok(value_text) => {
                            let left = remaining - (utf8_len(key_text) + utf8_len(value_text) + 4);
                            let pair = key_text + ": "@ + value_text;
                            if left <= 5 {
                                done(seq![pair], value.next)
                            } else {
                                let others = tried_pairs_run(
                                    l,
                                    value.next,
                                    bindings,
                                    version,
                                    rest,
                                    left,
                                );
                                match others.out {
                                    Err(causes) => failed(causes, others.next),
                                    Ok(texts) => done(seq![pair] + texts, others.next),
                                }
                            }
                        },
                    }
                },
            }
        },
    }
}

/// What is left of the `remaining` characters behind the texts, with two for each to set it apart.
pub open spec fn room_behind(texts: Seq<Seq<char>>, remaining: int) -> int
    decreases texts.len(),
{
    if texts.len() == 0 {
        remaining
    } else {
        room_behind(texts.skip(1), remaining - (utf8_len(texts[0]) + 2))
    }
}

/// The texts, with an ellipsis in place of the first that leaves five or fewer characters, and
/// nothing behind it.
pub open spec fn fitting(texts: Seq<Seq<char>>, remaining: int) -> Seq<Seq<char>>
    decreases texts.len(),
{
    if texts.len() == 0 {
        Seq::empty()
    } else {
        let left = remaining - (utf8_len(texts[0]) + 2);
        if left <= 5 {
            seq!["..."@]
        } else {
            seq![texts[0]] + fitting(texts.skip(1), left)
        }
    }
}

/// Each text stands as it is where more than five characters are left behind it. The first behind
/// which fewer are left is an ellipsis, and ends the list.
pub proof fn law_fitting(texts: Seq<Seq<char>>, remaining: int)
    ensures
        fitting(texts, remaining).len() <= texts.len(),
        forall|i: int|
            0 <= i < fitting(texts, remaining).len() ==> {
                let room = room_behind(#[trigger] texts.take(i + 1), remaining);
                if room > 5 {
                    fitting(texts, remaining)[i] == texts[i]
                } else {
                    &&& fitting(texts, remaining)[i] == "..."@
                    &&& i == fitting(texts, remaining).len() - 1
                }
            },
        fitting(texts, remaining).len() < texts.len() ==> room_behind(
            texts.take(fitting(texts, remaining).len() as int),
            remaining,
        ) <= 5,
    decreases texts.len(),
{
    if texts.len() > 0 {
        let rest = texts.skip(1);
        let left = remaining - (utf8_len(texts[0]) + 2);
        let all = fitting(texts, remaining);
        assert forall|k: int| 1 <= k <= texts.len() implies room_behind(
            #[trigger] texts.take(k),
            remaining,
        ) == room_behind(rest.take(k - 1), left) by {
            assert(texts.take(k).skip(1) =~= rest.take(k - 1));
        }
        assert(rest.take(0) =~= Seq::<Seq<char>>::empty());
        assert(room_behind(texts.take(1), remaining) == left);
        if left > 5 {
            law_fitting(rest, left);
            assert forall|i: int| 0 <= i < all.len() implies {
                let room = room_behind(#[trigger] texts.take(i + 1), remaining);
                if room > 5 {
                    all[i] == texts[i]
                } else {
                    &&& all[i] == "..."@
                    &&& i == all.len() - 1
                }
            } by {
                if i > 0 {
                    assert(rest.take(i - 1 + 1) == rest.take(i));
                    assert(all[i] == fitting(rest, left)[i - 1]);
                }
            }
        }
    }
}

#[verifier::rlimit(50)]
proof fn lemma_items_fit(
    l: Seq<Event>,
    p: int,
    bindings: Bindings,
    version: &Version,
    items: usize,
    size: usize,
    i: usize,
    remaining: int,
    before: Seq<Seq<char>>,
)
    ensures
        ({
            let run = items_run(l, p, bindings, version, items, size, i, remaining, before);
            let tried = tried_items_run(l, p, bindings, version, items, size, i, remaining);
            match tried.out {
                Err(causes) => run == failed::<Seq<Seq<char>>>(causes, tried.next),
                Ok(texts) => run == done(before + fitting(texts, remaining), tried.next),
            }
        }),
    decreases remaining,
{
    if i >= size {
        assert(before + Seq::<Seq<char>>::empty() =~= before);
    } else {
        let item = word_at(l, p, items.wrapping_add(i.wrapping_mul(word_size())));
        if let Ok(addr) = item.out {
            let value = variable_run(l, item.next, bindings, version, addr, remaining);
            if let Ok(text) = value.out {
                let left = remaining - (utf8_len(text) + 2);
                if left <= 5 {
                    assert(before.push("..."@) =~= before + seq!["..."@]);
                } else {
                    let k = (i + 1) as usize;
                    lemma_items_fit(
                        l,
                        value.next,
                        bindings,
                        version,
                        items,
                        size,
                        k,
                        left,
                        before.push(text),
                    );
                    let others = tried_items_run(
                        l,
                        value.next,
                        bindings,
                        version,
                        items,
                        size,
                        k,
                        left,
                    );
                    if let Ok(texts) = others.out {
                        let tail = fitting(texts, left);
                        assert((seq![text] + texts).skip(1) =~= texts);
                        assert(before.push(text) + tail =~= before + (seq![text] + tail));
                    }
                }
            }
        }
    }
}

/// A list or a tuple shows exactly the texts of its items that fit, in their order.
pub proof fn law_items_fit(
    l: Seq<Event>,
    p: int,
    bindings: Bindings,
    version: &Version,
    items: usize,
    size: usize,
    remaining: int,
)
    ensures
        ({
            let run = items_run(l, p, bindings, version, items, size, 0, remaining, Seq::empty());
            let tried = tried_items_run(l, p, bindings, version, items, size, 0, remaining);
            match tried.out {
                Err(causes) => run == failed::<Seq<Seq<char>>>(causes, tried.next),
                Ok(texts) => run == done(fitting(texts, remaining), tried.next),
            }
        }),
{
    let none = Seq::<Seq<char>>::empty();
    lemma_items_fit(l, p, bindings, version, items, size, 0, remaining, none);
    let tried = tried_items_run(l, p, bindings, version, items, size, 0, remaining);
    if let Ok(texts) = tried.out {
        assert(none + fitting(texts, remaining) =~= fitting(texts, remaining));
    }
}

proof fn lemma_pair_len(key_text: Seq<char>, value_text: Seq<char>)
    ensures
        utf8_len(key_text + ": "@ + value_text) == utf8_len(key_text) + utf8_len(value_text) + 2,
{
    reveal_strlit(": ");
    lemma_ascii_utf8_len(": "@);
    lemma_utf8_len_concat(key_text, ": "@);
    lemma_utf8_len_concat(key_text + ": "@, value_text);
}

#[verifier::rlimit(50)]
proof fn lemma_pairs_fit(
    l: Seq<Event>,
    p: int,
    bindings: Bindings,
    version: &Version,
    it: DictIterator,
    remaining: int,
    before: Seq<Seq<char>>,
)
    ensures
        ({
            let run = pairs_run(l, p, bindings, version, it, remaining, before);
            let tried = tried_pairs_run(l, p, bindings, version, it, remaining);
            match tried.out {
                Err(causes) => run == failed::<Seq<Seq<char>>>(causes, tried.next),
                Ok(texts) => run == done(before + fitting(texts, remaining), tried.next),
            }
        }),
    decreases remaining,
{
    let (item, rest) = next_run(l, p, it);
    assert(before + Seq::<Seq<char>>::empty() =~= before);
    if let Ok(Some((key_addr, value_addr))) = item.out {
        let key = variable_run(l, item.next, bindings, version, key_addr, remaining);
        if let Ok(key_text) = key.out {
            let value = variable_run(l, key.next, bindings, version, value_addr, remaining);
            if let Ok(value_text) = value.out {
                let pair = key_text + ": "@ + value_text;
                let left = remaining - (utf8_len(key_text) + utf8_len(value_text) + 4);
                lemma_pair_len(key_text, value_text);
                if left <= 5 {
                    assert(before.push("..."@) =~= before + seq!["..."@]);
                } else {
                    lemma_pairs_fit(
                        l,
                        value.next,
                        bindings,
                        version,
                        rest,
                        left,
                        before.push(pair),
                    );
                    let others = tried_pairs_run(l, value.next, bindings, version, rest, left);
                    if let Ok(texts) = others.out {
                        let tail = fitting(texts, left);
                        assert((seq![pair] + texts).skip(1) =~= texts);
                        assert(before.push(pair) + tail =~= before + (seq![pair] + tail));
                    }
                }
            }
        }
    }
}

/// A dictionary shows exactly the pairs of its keys and values that fit, in their order.
pub proof fn law_pairs_fit(
    l: Seq<Event>,
    p: int,
    bindings: Bindings,
    version: &Version,
    it: DictIterator,
    remaining: int,
)
    ensures
        ({
            let run = pairs_run(l, p, bindings, version, it, remaining, Seq::empty());
            let tried = tried_pairs_run(l, p, bindings, version, it, remaining);
            match tried.out {
                Err(causes) => run == failed::<Seq<Seq<char>>>(causes, tried.next),
                Ok(texts) => run == done(fitting(texts, remaining), tried.next),
            }
        }),
{
    let none = Seq::<Seq<char>>::empty();
    lemma_pairs_fit(l, p, bindings, version, it, remaining, none);
    let tried = tried_pairs_run(l, p, bindings, version, it, remaining);
    if let Ok(texts) = tried.out {
        assert(none + fitting(texts, remaining) =~= fitting(texts, remaining));
    }
}

} // verus!
