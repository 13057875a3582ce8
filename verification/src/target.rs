//! The target process: how it is read, and the record of everything it answered.
use vstd::prelude::*;

use crate::bytes::{word_size, ByteOrder, Copied};
#[allow(unused_imports)]
use crate::bytes::{lemma_spelled_bound, native_order, spelled, unit};
use crate::error::{Cause, Error, ReadError};
#[allow(unused_imports)]
use crate::error::{holds_invalid_string, law_context_keeps_invalid_string};
use crate::objects::{
    Bindings, BytesObject, CodeObject, DebugOffsets, DictEntry, DictObject, FloatObject, FrameObject,
    GilState, HeapType, IntObject, InterpreterState, ListObject, LogKeys, LongObject, Object,
    Record, SizedKeys, StringObject, Structure, TaggedLong, ThreadState, TupleObject, TypeObject,
};

verus! {

/// Copies structures of one kind out of a process.
pub trait CopyStruct<T> {
    /// Copies the structure at `addr` as `bindings` declares it, and hands out the fields that
    /// are read here.
    fn copy_struct(&self, bindings: Bindings, addr: usize) -> Result<T, ReadError>;
}

/// Access to the memory of a process, and to what the headers of its Python version say.
///
/// Nothing is assumed of an implementation: two reads of one address may differ, and any
/// read may fail.
pub trait ProcessMemory:
    CopyStruct<ThreadState> +
    CopyStruct<FrameObject> +
    CopyStruct<CodeObject> +
    CopyStruct<StringObject> +
    CopyStruct<BytesObject> +
    CopyStruct<TupleObject> +
    CopyStruct<ListObject> +
    CopyStruct<Object> +
    CopyStruct<TypeObject> +
    CopyStruct<IntObject> +
    CopyStruct<LongObject> +
    CopyStruct<TaggedLong> +
    CopyStruct<FloatObject> +
    CopyStruct<DictObject> +
    CopyStruct<SizedKeys> +
    CopyStruct<LogKeys> +
    CopyStruct<DictEntry> +
    CopyStruct<HeapType> +
    CopyStruct<GilState> +
    CopyStruct<DebugOffsets> {
    /// Copies `length` bytes.
    fn copy(&self, addr: usize, length: usize) -> Result<Vec<u8>, ReadError>;

    /// Where the fields of an interpreter state are.
    fn interpreter(&self, bindings: Bindings) -> InterpreterState;

    /// The line that the instruction at `lasti` belongs to, going by the line table of `code`.
    fn line_number(&self, bindings: Bindings, code: &CodeObject, lasti: i32, table: &Vec<u8>) -> i32;

    /// The text of the single precision number with these bits.
    fn single_text(&self, bits: u32) -> String;

    /// The text of the double precision number with these bits.
    fn double_text(&self, bits: u64) -> String;
}

/// One question put to the target process, with its answer.
#[allow(inconsistent_fields)]
pub enum Event {
    Bytes { addr: usize, length: usize, order: ByteOrder, reply: Result<Seq<u8>, ReadError> },
    Struct { bindings: Bindings, addr: usize, record: Record },
    Interpreter { bindings: Bindings, reply: InterpreterState },
    LineNumber { bindings: Bindings, code: CodeObject, lasti: i32, table: Seq<u8>, reply: i32 },
    SingleText { bits: u32, reply: Seq<char> },
    DoubleText { bits: u64, reply: Seq<char> },
}

/// Whether `later` is `log` with zero or more events added at its end.
pub open spec fn grown(log: Seq<Event>, later: Seq<Event>) -> bool {
    &&& log.len() <= later.len()
    &&& forall|i: int|
        #![trigger log[i]]
        #![trigger later[i]]
        0 <= i < log.len() ==> later[i] == log[i]
}

/// How an operation that reads the target went: what it came to, and the place in the log
/// just after its last event.
///
/// The operations here are described by spec functions from a log, and the place in it where
/// the operation starts, to a `Run`. They say for every possible sequence of answers which
/// question is put next and what comes out at the end. Where the log does not hold the
/// question that the operation puts, the run is stuck, which `next` shows by being negative.
pub struct Run<A> {
    pub out: Result<A, Seq<Cause>>,
    pub next: int,
}

pub open spec fn done<A>(value: A, next: int) -> Run<A> {
    Run { out: Ok(value), next }
}

pub open spec fn failed<A>(causes: Seq<Cause>, next: int) -> Run<A> {
    Run { out: Err(causes), next }
}

pub open spec fn stuck<A>() -> Run<A> {
    Run { out: Err(Seq::empty()), next: -1 }
}

/// The run that came to `r` and left the log as `log`.
pub open spec fn ran<A>(r: Result<A, Error>, log: Seq<Event>) -> Run<A> {
    match r {
        Ok(value) => done(value, log.len() as int),
        Err(e) => failed(e@, log.len() as int),
    }
}

/// As [`ran`], with the value taken by its view.
pub open spec fn ran_view<A: View>(r: Result<A, Error>, log: Seq<Event>) -> Run<A::V> {
    match r {
        Ok(value) => done(value@, log.len() as int),
        Err(e) => failed(e@, log.len() as int),
    }
}

/// The same run, with context added if it failed.
pub open spec fn with_context<A>(run: Run<A>, message: &'static str) -> Run<A> {
    match run.out {
        Ok(_) => run,
        Err(causes) => failed(causes.push(Cause::Message(message)), run.next),
    }
}

/// Adding context changes neither whether an operation fails nor whether it fails for an invalid
/// string.
pub proof fn law_added_context_keeps_invalid_string<A>(run: Run<A>, message: &'static str)
    ensures
        with_context(run, message).next == run.next,
        with_context(run, message).out is Ok <==> run.out is Ok,
        run.out is Err ==> holds_invalid_string(with_context(run, message).out->Err_0)
            == holds_invalid_string(run.out->Err_0),
{
    if let Err(causes) = run.out {
        law_context_keeps_invalid_string(causes, message);
    }
}

/// Copies `length` bytes at `addr`, or however many the process answers with.
pub open spec fn bytes_at(l: Seq<Event>, p: int, addr: usize, length: usize) -> Run<
    (Seq<u8>, ByteOrder),
> {
    if 0 <= p < l.len() {
        match l[p] {
            Event::Bytes { addr: a, length: n, order, reply } => if a == addr && n == length {
                match reply {
                    Ok(data) => done((data, order), p + 1),
                    Err(e) => failed(seq![Cause::Read(e)], p + 1),
                }
            } else {
                stuck()
            },
            _ => stuck(),
        }
    } else {
        stuck()
    }
}

/// Copies a value that takes exactly `length` bytes.
pub open spec fn block_at(l: Seq<Event>, p: int, addr: usize, length: usize) -> Run<
    (Seq<u8>, ByteOrder),
> {
    let run = bytes_at(l, p, addr, length);
    match run.out {
        Ok((data, _)) => if data.len() == length {
            run
        } else {
            failed(
                seq![Cause::ShortRead { wanted: length, got: data.len() as usize }],
                run.next,
            )
        },
        Err(_) => run,
    }
}

/// Copies the address stored at `addr`.
pub open spec fn word_at(l: Seq<Event>, p: int, addr: usize) -> Run<usize> {
    let run = block_at(l, p, addr, word_size());
    match run.out {
        Ok((data, order)) => done(spelled(data, order) as usize, run.next),
        Err(causes) => failed(causes, run.next),
    }
}

/// Copies the structure at `addr`.
pub open spec fn struct_at<T: Structure>(
    l: Seq<Event>,
    p: int,
    bindings: Bindings,
    addr: usize,
) -> Run<T> {
    if 0 <= p < l.len() {
        match l[p] {
            Event::Struct { bindings: b, addr: a, record } => if b == bindings && a == addr {
                match T::reply(record) {
                    Some(Ok(value)) => done(value, p + 1),
                    Some(Err(e)) => failed(seq![Cause::Read(e)], p + 1),
                    None => stuck(),
                }
            } else {
                stuck()
            },
            _ => stuck(),
        }
    } else {
        stuck()
    }
}

/// Looks up where the fields of an interpreter state are.
pub open spec fn interpreter_at(l: Seq<Event>, p: int, bindings: Bindings) -> Run<
    InterpreterState,
> {
    if 0 <= p < l.len() {
        match l[p] {
            Event::Interpreter { bindings: b, reply } => if b == bindings {
                done(reply, p + 1)
            } else {
                stuck()
            },
            _ => stuck(),
        }
    } else {
        stuck()
    }
}

/// Looks up the line of an instruction in a line table.
pub open spec fn line_number_at(
    l: Seq<Event>,
    p: int,
    bindings: Bindings,
    code: CodeObject,
    lasti: i32,
    table: Seq<u8>,
) -> Run<i32> {
    if 0 <= p < l.len() {
        match l[p] {
            Event::LineNumber { bindings: b, code: c, lasti: i, table: t, reply } => if b
                == bindings && c == code && i == lasti && t == table {
                done(reply, p + 1)
            } else {
                stuck()
            },
            _ => stuck(),
        }
    } else {
        stuck()
    }
}

/// Writes out a single precision number.
pub open spec fn single_text_at(l: Seq<Event>, p: int, bits: u32) -> Run<Seq<char>> {
    if 0 <= p < l.len() {
        match l[p] {
            Event::SingleText { bits: b, reply } => if b == bits {
                done(reply, p + 1)
            } else {
                stuck()
            },
            _ => stuck(),
        }
    } else {
        stuck()
    }
}

/// Writes out a double precision number.
pub open spec fn double_text_at(l: Seq<Event>, p: int, bits: u64) -> Run<Seq<char>> {
    if 0 <= p < l.len() {
        match l[p] {
            Event::DoubleText { bits: b, reply } => if b == bits {
                done(reply, p + 1)
            } else {
                stuck()
            },
            _ => stuck(),
        }
    } else {
        stuck()
    }
}

/// Whether a request for a structure can have got from `source` the answer on record.
pub open spec fn told<P: ProcessMemory>(
    source: &P,
    bindings: Bindings,
    addr: usize,
    record: Record,
) -> bool {
    match record {
        Record::Thread(reply) => call_ensures(
            <P as CopyStruct<ThreadState>>::copy_struct,
            (source, bindings, addr),
            reply,
        ),
        Record::Frame(reply) => call_ensures(
            <P as CopyStruct<FrameObject>>::copy_struct,
            (source, bindings, addr),
            reply,
        ),
        Record::Code(reply) => call_ensures(
            <P as CopyStruct<CodeObject>>::copy_struct,
            (source, bindings, addr),
            reply,
        ),
        Record::Text(reply) => call_ensures(
            <P as CopyStruct<StringObject>>::copy_struct,
            (source, bindings, addr),
            reply,
        ),
        Record::BytesObject(reply) => call_ensures(
            <P as CopyStruct<BytesObject>>::copy_struct,
            (source, bindings, addr),
            reply,
        ),
        Record::Tuple(reply) => call_ensures(
            <P as CopyStruct<TupleObject>>::copy_struct,
            (source, bindings, addr),
            reply,
        ),
        Record::List(reply) => call_ensures(
            <P as CopyStruct<ListObject>>::copy_struct,
            (source, bindings, addr),
            reply,
        ),
        Record::Object(reply) => call_ensures(
            <P as CopyStruct<Object>>::copy_struct,
            (source, bindings, addr),
            reply,
        ),
        Record::Type(reply) => call_ensures(
            <P as CopyStruct<TypeObject>>::copy_struct,
            (source, bindings, addr),
            reply,
        ),
        Record::Int(reply) => call_ensures(
            <P as CopyStruct<IntObject>>::copy_struct,
            (source, bindings, addr),
            reply,
        ),
        Record::Long(reply) => call_ensures(
            <P as CopyStruct<LongObject>>::copy_struct,
            (source, bindings, addr),
            reply,
        ),
        Record::TaggedLong(reply) => call_ensures(
            <P as CopyStruct<TaggedLong>>::copy_struct,
            (source, bindings, addr),
            reply,
        ),
        Record::Float(reply) => call_ensures(
            <P as CopyStruct<FloatObject>>::copy_struct,
            (source, bindings, addr),
            reply,
        ),
        Record::Dict(reply) => call_ensures(
            <P as CopyStruct<DictObject>>::copy_struct,
            (source, bindings, addr),
            reply,
        ),
        Record::SizedKeys(reply) => call_ensures(
            <P as CopyStruct<SizedKeys>>::copy_struct,
            (source, bindings, addr),
            reply,
        ),
        Record::LogKeys(reply) => call_ensures(
            <P as CopyStruct<LogKeys>>::copy_struct,
            (source, bindings, addr),
            reply,
        ),
        Record::Entry(reply) => call_ensures(
            <P as CopyStruct<DictEntry>>::copy_struct,
            (source, bindings, addr),
            reply,
        ),
        Record::HeapType(reply) => call_ensures(
            <P as CopyStruct<HeapType>>::copy_struct,
            (source, bindings, addr),
            reply,
        ),
        Record::Gil(reply) => call_ensures(
            <P as CopyStruct<GilState>>::copy_struct,
            (source, bindings, addr),
            reply,
        ),
        Record::Offsets(reply) => call_ensures(
            <P as CopyStruct<DebugOffsets>>::copy_struct,
            (source, bindings, addr),
            reply,
        ),
    }
}

/// Whether looking up a line can have got this answer from `source`.
pub open spec fn told_line<P: ProcessMemory>(
    source: &P,
    bindings: Bindings,
    code: CodeObject,
    lasti: i32,
    table: Seq<u8>,
    reply: i32,
) -> bool {
    exists|bytes: Vec<u8>|
        bytes@ == table && #[trigger] call_ensures(
            <P as ProcessMemory>::line_number,
            (source, bindings, &code, lasti, &bytes),
            reply,
        )
}

/// Whether this is a question that was put to `source`, with the answer that `source` gave. What
/// an implementation answers is its own affair: a call of it is what gives an answer.
pub open spec fn answered<P: ProcessMemory>(source: &P, event: Event) -> bool {
    match event {
        Event::Bytes { addr, length, reply, .. } => exists|data: Result<Vec<u8>, ReadError>|
            #[trigger] call_ensures(<P as ProcessMemory>::copy, (source, addr, length), data)
                && reply == copied_bytes(data),
        Event::Struct { bindings, addr, record } => told(source, bindings, addr, record),
        Event::Interpreter { bindings, reply } => call_ensures(
            <P as ProcessMemory>::interpreter,
            (source, bindings),
            reply,
        ),
        Event::LineNumber { bindings, code, lasti, table, reply } => told_line(
            source,
            bindings,
            code,
            lasti,
            table,
            reply,
        ),
        Event::SingleText { bits, reply } => exists|text: String|
            text@ == reply && #[trigger] call_ensures(
                <P as ProcessMemory>::single_text,
                (source, bits),
                text,
            ),
        Event::DoubleText { bits, reply } => exists|text: String|
            text@ == reply && #[trigger] call_ensures(
                <P as ProcessMemory>::double_text,
                (source, bits),
                text,
            ),
    }
}

/// An answer to a request for bytes, with the bytes taken by their view.
pub open spec fn copied_bytes(data: Result<Vec<u8>, ReadError>) -> Result<Seq<u8>, ReadError> {
    match data {
        Ok(bytes) => Ok(bytes@),
        Err(e) => Err(e),
    }
}

/// Whether `after` is `before` after zero or more questions: it reads the same process in the same
/// byte order, its log has grown by these questions alone, and each answer in it is the one that
/// the process gave.
pub open spec fn continued<P: ProcessMemory>(before: Target<P>, after: Target<P>) -> bool {
    &&& grown(before.log(), after.log())
    &&& after.source() == before.source()
    &&& after.order() == before.order()
    &&& forall|i: int|
        before.log().len() <= i < after.log().len() ==> {
            &&& answered(after.source(), #[trigger] after.log()[i])
            &&& after.log()[i] matches Event::Bytes { order, .. } ==> order == after.order()
        }
}

/// Whatever is read from a target is read in its byte order.
pub proof fn law_read_in_order<P: ProcessMemory>(
    before: Target<P>,
    after: Target<P>,
    p: int,
    addr: usize,
    length: usize,
)
    requires
        continued(before, after),
        before.log().len() <= p,
    ensures
        bytes_at(after.log(), p, addr, length).out matches Ok((_, order)) ==> order == after.order(),
{
}

/// A target process, with the record of what it was asked and what it answered.
pub struct Target<'a, P> {
    process: &'a P,
    order: ByteOrder,
    log: Ghost<Seq<Event>>,
}

impl<'a, P> Target<'a, P> {
    /// Everything the target was asked so far, with its answers.
    pub closed spec fn log(&self) -> Seq<Event> {
        self.log@
    }

    /// The process that is asked.
    pub closed spec fn source(&self) -> &'a P {
        self.process
    }

    /// The order in which the integers of the process are stored.
    pub closed spec fn order(&self) -> ByteOrder {
        self.order
    }
}

impl<'a, P: ProcessMemory> Target<'a, P> {
    /// A target that was asked nothing yet.
    pub fn new(process: &'a P) -> (r: Self)
        ensures
            r.log() == Seq::<Event>::empty(),
            r.source() == process,
            native_order(r.order()),
    {
        Target { process, order: ByteOrder::native(), log: Ghost(Seq::empty()) }
    }

    /// Copies `length` bytes at `addr`, or however many the process answers with.
    pub fn copy(&mut self, addr: usize, length: usize) -> (r: Result<Copied, Error>)
        ensures
            continued(*old(self), *final(self)),
            forall|l: Seq<Event>|
                grown(final(self).log(), l) ==> #[trigger] bytes_at(
                    l,
                    old(self).log().len() as int,
                    addr,
                    length,
                ) == ran_view(r, final(self).log()),
            r matches Ok(copied) ==> copied.order == old(self).order(),
            exists|reply: Result<Vec<u8>, ReadError>| #[trigger]
                call_ensures(<P as ProcessMemory>::copy, (old(self).source(), addr, length), reply) && (
                match reply {
                    Ok(data) => r matches Ok(copied) && copied.data@ == data@,
                    Err(e) => r matches Err(error) && error@ == seq![Cause::Read(e)],
                }),
    {
        let reply = self.process.copy(addr, length);
        let ghost answer: Result<Seq<u8>, ReadError> = if reply is Ok {
            Ok(reply->Ok_0@)
        } else {
            Err(reply->Err_0)
        };
        let ghost event = Event::Bytes { addr, length, order: self.order, reply: answer };
        let ghost before = self.log@;
        proof {
            self.log@ = self.log@.push(event);
        }
        assert(self.log@[before.len() as int] == event);
        match reply {
            Ok(data) => Ok(Copied { data, order: self.order }),
            Err(e) => Err(Error::new(Cause::Read(e))),
        }
    }

    /// Copies a value that takes exactly `length` bytes.
    pub fn block(&mut self, addr: usize, length: usize) -> (r: Result<Copied, Error>)
        ensures
            continued(*old(self), *final(self)),
            forall|l: Seq<Event>|
                grown(final(self).log(), l) ==> #[trigger] block_at(
                    l,
                    old(self).log().len() as int,
                    addr,
                    length,
                ) == ran_view(r, final(self).log()),
            r matches Ok(copied) ==> copied.data@.len() == length,
    {
        match self.copy(addr, length) {
            Ok(copied) => {
                let got: usize = copied.data.len();
                if got == length {
                    Ok(copied)
                } else {
                    Err(Error::new(Cause::ShortRead { wanted: length, got }))
                }
            },
            Err(e) => Err(e),
        }
    }

    /// Copies the address stored at `addr`.
    pub fn word(&mut self, addr: usize) -> (r: Result<usize, Error>)
        ensures
            continued(*old(self), *final(self)),
            forall|l: Seq<Event>|
                grown(final(self).log(), l) ==> #[trigger] word_at(
                    l,
                    old(self).log().len() as int,
                    addr,
                ) == ran(r, final(self).log()),
    {
        let size = word_size();
        match self.block(addr, size) {
            Ok(copied) => {
                proof {
                    assert(copied.data@.subrange(0int * size, 0int * size + size) =~= copied.data@);
                    lemma_spelled_bound(copied.data@, copied.order);
                }
                Ok(copied.unit(0, size) as usize)
            },
            Err(e) => Err(e),
        }
    }

    /// Copies the structure at `addr`.
    pub fn copy_struct<T: Structure>(&mut self, bindings: Bindings, addr: usize) -> (r: Result<
        T,
        Error,
    >) where P: CopyStruct<T>
        ensures
            continued(*old(self), *final(self)),
            forall|l: Seq<Event>|
                grown(final(self).log(), l) ==> #[trigger] struct_at::<T>(
                    l,
                    old(self).log().len() as int,
                    bindings,
                    addr,
                ) == ran(r, final(self).log()),
            exists|reply: Result<T, ReadError>| #[trigger]
                call_ensures(
                    <P as CopyStruct<T>>::copy_struct,
                    (old(self).source(), bindings, addr),
                    reply,
                ) && (match reply {
                    Ok(value) => r matches Ok(copied) && copied == value,
                    Err(e) => r matches Err(error) && error@ == seq![Cause::Read(e)],
                }),
    {
        let reply: Result<T, ReadError> = self.process.copy_struct(bindings, addr);
        let ghost event = Event::Struct { bindings, addr, record: T::record(reply) };
        let ghost before = self.log@;
        proof {
            T::lemma_reply_of_record(reply);
            T::lemma_record_is_told(self.process, bindings, addr, reply);
            self.log@ = self.log@.push(event);
        }
        assert(self.log@[before.len() as int] == event);
        match reply {
            Ok(value) => Ok(value),
            Err(e) => Err(Error::new(Cause::Read(e))),
        }
    }

    /// Looks up where the fields of an interpreter state are.
    pub fn interpreter(&mut self, bindings: Bindings) -> (r: InterpreterState)
        ensures
            continued(*old(self), *final(self)),
            forall|l: Seq<Event>|
                grown(final(self).log(), l) ==> #[trigger] interpreter_at(
                    l,
                    old(self).log().len() as int,
                    bindings,
                ) == done(r, final(self).log().len() as int),
            call_ensures(<P as ProcessMemory>::interpreter, (old(self).source(), bindings), r),
    {
        let reply = self.process.interpreter(bindings);
        let ghost event = Event::Interpreter { bindings, reply };
        let ghost before = self.log@;
        proof {
            self.log@ = self.log@.push(event);
        }
        assert(self.log@[before.len() as int] == event);
        reply
    }

    /// Looks up the line of an instruction in a line table.
    pub fn line_number(
        &mut self,
        bindings: Bindings,
        code: &CodeObject,
        lasti: i32,
        table: &Vec<u8>,
    ) -> (r: i32)
        ensures
            continued(*old(self), *final(self)),
            forall|l: Seq<Event>|
                grown(final(self).log(), l) ==> #[trigger] line_number_at(
                    l,
                    old(self).log().len() as int,
                    bindings,
                    *code,
                    lasti,
                    table@,
                ) == done(r, final(self).log().len() as int),
            call_ensures(
                <P as ProcessMemory>::line_number,
                (old(self).source(), bindings, code, lasti, table),
                r,
            ),
    {
        let reply = self.process.line_number(bindings, code, lasti, table);
        let ghost event = Event::LineNumber { bindings, code: *code, lasti, table: table@, reply };
        assert(told_line(self.process, bindings, *code, lasti, table@, reply)) by {
            let bytes = *table;
            assert(call_ensures(
                <P as ProcessMemory>::line_number,
                (self.process, bindings, code, lasti, &bytes),
                reply,
            ));
        }
        let ghost before = self.log@;
        proof {
            self.log@ = self.log@.push(event);
        }
        assert(self.log@[before.len() as int] == event);
        reply
    }

    /// Writes out a single precision number.
    pub fn single_text(&mut self, bits: u32) -> (r: String)
        ensures
            continued(*old(self), *final(self)),
            forall|l: Seq<Event>|
                grown(final(self).log(), l) ==> #[trigger] single_text_at(
                    l,
                    old(self).log().len() as int,
                    bits,
                ) == done(r@, final(self).log().len() as int),
            call_ensures(<P as ProcessMemory>::single_text, (old(self).source(), bits), r),
    {
        let reply = self.process.single_text(bits);
        let ghost event = Event::SingleText { bits, reply: reply@ };
        let ghost before = self.log@;
        proof {
            self.log@ = self.log@.push(event);
        }
        assert(self.log@[before.len() as int] == event);
        reply
    }

    /// Writes out a double precision number.
    pub fn double_text(&mut self, bits: u64) -> (r: String)
        ensures
            continued(*old(self), *final(self)),
            forall|l: Seq<Event>|
                grown(final(self).log(), l) ==> #[trigger] double_text_at(
                    l,
                    old(self).log().len() as int,
                    bits,
                ) == done(r@, final(self).log().len() as int),
            call_ensures(<P as ProcessMemory>::double_text, (old(self).source(), bits), r),
    {
        let reply = self.process.double_text(bits);
        let ghost event = Event::DoubleText { bits, reply: reply@ };
        let ghost before = self.log@;
        proof {
            self.log@ = self.log@.push(event);
        }
        assert(self.log@[before.len() as int] == event);
        reply
    }

}

} // verus!
