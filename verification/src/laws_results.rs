//! That results are told as they are: what is said of a run is said of the values returned.
use std::collections::HashMap;

use vstd::prelude::*;

#[allow(unused_imports)]
use crate::bytes::Copied;
#[allow(unused_imports)]
use crate::error::{Cause, Error, ReadError};
#[allow(unused_imports)]
use crate::objects::{
    Bindings, BytesObject, CodeObject, DebugOffsets, DictEntry, DictObject, FloatObject,
    FrameObject, GilState, HeapType, IntObject, ListObject, LogKeys, LongObject, Object, Record,
    SizedKeys, StringObject, TaggedLong, ThreadState, TupleObject, TypeObject,
};
#[allow(unused_imports)]
use crate::python_data_access::ran_item;
#[allow(unused_imports)]
use crate::python_threading::{names_view, ran_names};
#[allow(unused_imports)]
use crate::stack_trace::{
    ran_frame, ran_frames, ran_locals, ran_traces, Frame, FrameView, LocalVariable, LocalView,
    StackTrace, TraceView,
};
#[allow(unused_imports)]
use crate::strings::decoding;
#[allow(unused_imports)]
use crate::target::CopyStruct;
use crate::target::{ProcessMemory, Target};
#[allow(unused_imports)]
use crate::target::{answered, continued, ran, ran_view, Event};
#[allow(unused_imports)]
use crate::variables::{ran_texts, ran_type};

verus! {

/// A success is told with its value, a failure with its causes, and both with the place behind the
/// last question.
pub proof fn law_runs_tell_results<A, B: View>(
    a: Result<A, Error>,
    b: Result<B, Error>,
    log: Seq<Event>,
)
    ensures
        ran(a, log).next == log.len(),
        ran_view(b, log).next == log.len(),
        match a {
            Ok(value) => ran(a, log).out == Ok::<A, Seq<Cause>>(value),
            Err(e) => ran(a, log).out == Err::<A, Seq<Cause>>(e@),
        },
        match b {
            Ok(value) => ran_view(b, log).out == Ok::<B::V, Seq<Cause>>(value@),
            Err(e) => ran_view(b, log).out == Err::<B::V, Seq<Cause>>(e@),
        },
{
}

/// An item of an iterator is told as its key and its value, and its failure and its end as such.
pub proof fn law_items_are_told(r: Option<Result<(usize, usize), Error>>, log: Seq<Event>)
    ensures
        ran_item(r, log).next == log.len(),
        match r {
            None => ran_item(r, log).out == Ok::<Option<(usize, usize)>, Seq<Cause>>(None),
            Some(Ok((key, value))) => ran_item(r, log).out == Ok::<
                Option<(usize, usize)>,
                Seq<Cause>,
            >(Some((key, value))),
            Some(Err(e)) => ran_item(r, log).out == Err::<Option<(usize, usize)>, Seq<Cause>>(e@),
        },
{
}

/// Types and texts are told by their characters, in their order.
pub proof fn law_texts_are_told(
    t: Result<(String, usize), Error>,
    s: Result<Vec<String>, Error>,
    d: Result<String, Cause>,
    log: Seq<Event>,
)
    ensures
        ran_type(t, log).next == log.len(),
        ran_texts(s, log).next == log.len(),
        match t {
            Ok((name, flags)) => ran_type(t, log).out == Ok::<(Seq<char>, usize), Seq<Cause>>(
                (name@, flags),
            ),
            Err(e) => ran_type(t, log).out == Err::<(Seq<char>, usize), Seq<Cause>>(e@),
        },
        match s {
            Ok(texts) => {
                let told = ran_texts(s, log).out->Ok_0;
                &&& ran_texts(s, log).out is Ok
                &&& told.len() == texts@.len()
                &&& forall|i: int| 0 <= i < texts@.len() ==> #[trigger] told[i] == texts@[i]@
            },
            Err(e) => ran_texts(s, log).out == Err::<Seq<Seq<char>>, Seq<Cause>>(e@),
        },
        match d {
            Ok(text) => decoding(d) == Ok::<Seq<char>, Cause>(text@),
            Err(cause) => decoding(d) == Err::<Seq<char>, Cause>(cause),
        },
{
}

/// A local variable is told by all its fields.
pub proof fn law_locals_are_told(local: LocalVariable)
    ensures
        local@.name == local.name@,
        local@.addr == local.addr,
        local@.arg == local.arg,
        local@.repr is Some <==> local.repr is Some,
        local.repr matches Some(text) ==> local@.repr == Some(text@),
{
}

/// A frame is told by all its fields.
pub proof fn law_frames_are_told(frame: Frame)
    ensures
        frame@.name == frame.name@,
        frame@.filename == frame.filename@,
        frame@.module is Some <==> frame.module is Some,
        frame.module matches Some(text) ==> frame@.module == Some(text@),
        frame@.short_filename is Some <==> frame.short_filename is Some,
        frame.short_filename matches Some(text) ==> frame@.short_filename == Some(text@),
        frame@.line == frame.line,
        frame@.is_entry == frame.is_entry,
        frame@.is_shim_entry == frame.is_shim_entry,
        frame@.locals is Some <==> frame.locals is Some,
        frame.locals matches Some(locals) ==> {
            &&& frame@.locals->0.len() == locals@.len()
            &&& forall|i: int|
                0 <= i < locals@.len() ==> #[trigger] frame@.locals->0[i] == locals@[i]@
        },
{
}

/// A stack trace is told by all its fields.
pub proof fn law_traces_are_told(trace: StackTrace)
    ensures
        trace@.pid == trace.pid,
        trace@.thread_id == trace.thread_id,
        trace@.thread_name is Some <==> trace.thread_name is Some,
        trace.thread_name matches Some(text) ==> trace@.thread_name == Some(text@),
        trace@.os_thread_id == trace.os_thread_id,
        trace@.active == trace.active,
        trace@.owns_gil == trace.owns_gil,
        trace@.error == trace.error,
        trace@.process_info == trace.process_info,
        trace@.frames.len() == trace.frames@.len(),
        forall|i: int|
            0 <= i < trace.frames@.len() ==> #[trigger] trace@.frames[i] == trace.frames@[i]@,
{
}

/// Lists of variables, frames and traces are told one by one, in their order.
pub proof fn law_lists_are_told(
    v: Result<Vec<LocalVariable>, Error>,
    o: Result<Option<Frame>, Error>,
    f: Result<Vec<Frame>, Error>,
    t: Result<Vec<StackTrace>, Error>,
    log: Seq<Event>,
)
    ensures
        ran_locals(v, log).next == log.len(),
        ran_frame(o, log).next == log.len(),
        ran_frames(f, log).next == log.len(),
        ran_traces(t, log).next == log.len(),
        match v {
            Ok(locals) => {
                let told = ran_locals(v, log).out->Ok_0;
                &&& ran_locals(v, log).out is Ok
                &&& told.len() == locals@.len()
                &&& forall|i: int| 0 <= i < locals@.len() ==> #[trigger] told[i] == locals@[i]@
            },
            Err(e) => ran_locals(v, log).out == Err::<Seq<LocalView>, Seq<Cause>>(e@),
        },
        match o {
            Ok(None) => ran_frame(o, log).out == Ok::<Option<FrameView>, Seq<Cause>>(None),
            Ok(Some(frame)) => ran_frame(o, log).out == Ok::<Option<FrameView>, Seq<Cause>>(
                Some(frame@),
            ),
            Err(e) => ran_frame(o, log).out == Err::<Option<FrameView>, Seq<Cause>>(e@),
        },
        match f {
            Ok(frames) => {
                let told = ran_frames(f, log).out->Ok_0;
                &&& ran_frames(f, log).out is Ok
                &&& told.len() == frames@.len()
                &&& forall|i: int| 0 <= i < frames@.len() ==> #[trigger] told[i] == frames@[i]@
            },
            Err(e) => ran_frames(f, log).out == Err::<Seq<FrameView>, Seq<Cause>>(e@),
        },
        match t {
            Ok(traces) => {
                let told = ran_traces(t, log).out->Ok_0;
                &&& ran_traces(t, log).out is Ok
                &&& told.len() == traces@.len()
                &&& forall|i: int| 0 <= i < traces@.len() ==> #[trigger] told[i] == traces@[i]@
            },
            Err(e) => ran_traces(t, log).out == Err::<Seq<TraceView>, Seq<Cause>>(e@),
        },
{
}

/// Names are told by the ids that have one, each with its characters.
pub proof fn law_names_are_told(
    names: Map<u64, String>,
    r: Result<HashMap<u64, String>, Error>,
    log: Seq<Event>,
)
    ensures
        names_view(names).dom() == names.dom(),
        forall|id: u64|
            names.dom().contains(id) ==> #[trigger] names_view(names)[id] == names[id]@,
        ran_names(r, log).next == log.len(),
        match r {
            Ok(map) => ran_names(r, log).out == Ok::<Map<u64, Seq<char>>, Seq<Cause>>(
                names_view(map@),
            ),
            Err(e) => ran_names(r, log).out == Err::<Map<u64, Seq<char>>, Seq<Cause>>(e@),
        },
{
    assert(names_view(names).dom() =~= names.dom());
}

/// Copied bytes are told with their order.
pub proof fn law_copied_bytes_are_told(copied: Copied)
    ensures
        copied@.0 == copied.data@,
        copied@.1 == copied.order,
{
}

/// A target goes on reading the same process in the same order, forgets nothing that it was told, and
/// whatever it adds to its record is an answer of that process.
pub proof fn law_targets_keep_their_word<P: ProcessMemory>(
    before: Target<P>,
    after: Target<P>,
    i: int,
)
    requires
        continued(before, after),
    ensures
        after.source() == before.source(),
        after.order() == before.order(),
        before.log().len() <= after.log().len(),
        0 <= i < before.log().len() ==> after.log()[i] == before.log()[i],
        before.log().len() <= i < after.log().len() ==> answered(after.source(), after.log()[i]),
        before.log().len() <= i < after.log().len() ==> (after.log()[i] matches Event::Bytes {
            order,
            ..
        } ==> order == after.order()),
{
    if 0 <= i < before.log().len() {
        assert(before.log()[i] == after.log()[i]);
    }
}

/// An answer on record is one that a call of the process gave, to the question that is on record.
pub proof fn law_answers_were_given<P: ProcessMemory>(source: &P, event: Event)
    requires
        answered(source, event),
    ensures
        match event {
            Event::Bytes { addr, length, order, reply } => exists|given: Result<Vec<u8>, ReadError>|
                {
                    &&& #[trigger] call_ensures(
                        <P as ProcessMemory>::copy,
                        (source, addr, length),
                        given,
                    )
                    &&& given is Ok <==> reply is Ok
                    &&& given matches Ok(data) ==> reply == Ok::<Seq<u8>, ReadError>(data@)
                    &&& given matches Err(e) ==> reply == Err::<Seq<u8>, ReadError>(e)
                },
            Event::Interpreter { bindings, reply } => call_ensures(
                <P as ProcessMemory>::interpreter,
                (source, bindings),
                reply,
            ),
            Event::LineNumber { bindings, code, lasti, table, reply } => exists|bytes: Vec<u8>|
                bytes@ == table && #[trigger] call_ensures(
                    <P as ProcessMemory>::line_number,
                    (source, bindings, &code, lasti, &bytes),
                    reply,
                ),
            Event::SingleText { bits, reply } => exists|text: String|
                text@ == reply && #[trigger] call_ensures(
                    <P as ProcessMemory>::single_text,
                    (source, bits),
                    text,
                ),
            Event::DoubleText { bits, reply } => exists|text: String|
                text@ == reply && #[trigger] call_ensures(
                    <P as ProcessMemory>::double_text,
                    (source, bits),
                    text,
                ),
            Event::Struct { .. } => true,
        },
{
}

/// A structure on record is one that a call of the process gave, for this place and these bindings.
pub proof fn law_structures_were_given<P: ProcessMemory>(
    source: &P,
    bindings: Bindings,
    addr: usize,
    record: Record,
)
    requires
        answered(source, (Event::Struct { bindings, addr, record })),
    ensures
        match record {
            Record::Thread(reply) => call_ensures(
                <P as CopyStruct<ThreadState>>::copy_struct,
                (source, bindings, addr),
                reply,
            ),
            Record::Frame(reply) => call_ensures(
                <P as CopyStruct<FrameObject>>::copy_struct,
                (source, bindings, addr),
                reply,
            ),
            Record::Code(reply) => call_ensures(
                <P as CopyStruct<CodeObject>>::copy_struct,
                (source, bindings, addr),
                reply,
            ),
            Record::Text(reply) => call_ensures(
                <P as CopyStruct<StringObject>>::copy_struct,
                (source, bindings, addr),
                reply,
            ),
            Record::BytesObject(reply) => call_ensures(
                <P as CopyStruct<BytesObject>>::copy_struct,
                (source, bindings, addr),
                reply,
            ),
            Record::Tuple(reply) => call_ensures(
                <P as CopyStruct<TupleObject>>::copy_struct,
                (source, bindings, addr),
                reply,
            ),
            Record::List(reply) => call_ensures(
                <P as CopyStruct<ListObject>>::copy_struct,
                (source, bindings, addr),
                reply,
            ),
            Record::Object(reply) => call_ensures(
                <P as CopyStruct<Object>>::copy_struct,
                (source, bindings, addr),
                reply,
            ),
            Record::Type(reply) => call_ensures(
                <P as CopyStruct<TypeObject>>::copy_struct,
                (source, bindings, addr),
                reply,
            ),
            Record::Int(reply) => call_ensures(
                <P as CopyStruct<IntObject>>::copy_struct,
                (source, bindings, addr),
                reply,
            ),
            Record::Long(reply) => call_ensures(
                <P as CopyStruct<LongObject>>::copy_struct,
                (source, bindings, addr),
                reply,
            ),
            Record::TaggedLong(reply) => call_ensures(
                <P as CopyStruct<TaggedLong>>::copy_struct,
                (source, bindings, addr),
                reply,
            ),
            Record::Float(reply) => call_ensures(
                <P as CopyStruct<FloatObject>>::copy_struct,
                (source, bindings, addr),
                reply,
            ),
            Record::Dict(reply) => call_ensures(
                <P as CopyStruct<DictObject>>::copy_struct,
                (source, bindings, addr),
                reply,
            ),
            Record::SizedKeys(reply) => call_ensures(
                <P as CopyStruct<SizedKeys>>::copy_struct,
                (source, bindings, addr),
                reply,
            ),
            Record::LogKeys(reply) => call_ensures(
                <P as CopyStruct<LogKeys>>::copy_struct,
                (source, bindings, addr),
                reply,
            ),
            Record::Entry(reply) => call_ensures(
                <P as CopyStruct<DictEntry>>::copy_struct,
                (source, bindings, addr),
                reply,
            ),
            Record::HeapType(reply) => call_ensures(
                <P as CopyStruct<HeapType>>::copy_struct,
                (source, bindings, addr),
                reply,
            ),
            Record::Gil(reply) => call_ensures(
                <P as CopyStruct<GilState>>::copy_struct,
                (source, bindings, addr),
                reply,
            ),
            Record::Offsets(reply) => call_ensures(
                <P as CopyStruct<DebugOffsets>>::copy_struct,
                (source, bindings, addr),
                reply,
            ),
        },
{
}

} // verus!
