//! What stack traces come to, said of the structures and strings that were read.
use vstd::prelude::*;

#[allow(unused_imports)]
use crate::bytes::word_size;
use crate::config::{Config, LineNo};
#[allow(unused_imports)]
use crate::error::Cause;
use crate::laws_data::lemma_product_fits;
#[allow(unused_imports)]
use crate::objects::{
    Bindings, CodeObject, FrameObject, FrameRoot, GilState, InterpreterState, ThreadState, TupleObject,
};
#[allow(unused_imports)]
use crate::python_data_access::{bytes_run, string_run};
#[allow(unused_imports)]
use crate::stack_trace::{
    frame_run, frames_run, gil_run, law_trace, law_traces_of_threads, line_run, locals_from_run,
    locals_run, name_run, process_frame, reported_frame, sampled, shim_entry, shown_threadid,
    status_text, threadid_text, threads_run, threads_traced, trace_run, traces_run, FrameView,
    LocalView, TraceView,
};
#[allow(unused_imports)]
use crate::target::{
    done, failed, interpreter_at, struct_at, with_context, word_at, Event, Run,
};

verus! {

/// Whether this file name stands for no file: it is empty, or `<shim>`.
pub open spec fn names_no_file(filename: Seq<char>) -> bool {
    filename.len() == 0 || filename == seq!['<', 's', 'h', 'i', 'm', '>']
}

proof fn lemma_shim_text()
    ensures
        "<shim>"@ == seq!['<', 's', 'h', 'i', 'm', '>'],
{
    reveal_strlit("<shim>");
    assert("<shim>"@ =~= seq!['<', 's', 'h', 'i', 'm', '>']);
}

/// A frame is reported by its own name, file and entry mark, and, under the line mode, with no line,
/// with the first line of its code, or with the line that was answered for its code, the instruction
/// that this very frame is at, and the line table of its code; where that table cannot be copied the
/// line is zero.
pub proof fn law_frame_as_read(
    l: Seq<Event>,
    p: int,
    bindings: Bindings,
    frameptr: usize,
    frame: FrameObject,
    lineno: LineNo,
    code: CodeObject,
    filename: Seq<char>,
    name: Seq<char>,
    q: int,
    table: Seq<u8>,
    t: int,
    line: i32,
)
    requires
        struct_at::<CodeObject>(l, p, bindings, frame.code) == done(code, p + 1),
        string_run(l, p + 1, bindings, code.filename, true).out == Ok::<Seq<char>, Seq<Cause>>(
            filename,
        ),
        name_run(
            l,
            string_run(l, p + 1, bindings, code.filename, true).next,
            bindings,
            code,
        ) == done(name, q),
        !names_no_file(filename),
    ensures
        ({
            let run = frame_run(l, p, bindings, frameptr, frame, false, lineno);
            let lines = bytes_run(l, q, bindings, code.line_table);
            let answered = lines == done(table, t) && 0 <= t < l.len() && l[t] == (Event::LineNumber {
                bindings,
                code,
                lasti: frame.lasti,
                table,
                reply: line,
            });
            let view = run.out->Ok_0->0;
            &&& lineno != LineNo::LastInstruction || answered || lines.out is Err ==> {
                &&& run.out is Ok
                &&& run.out->Ok_0 is Some
                &&& view.name == name
                &&& view.filename == filename
                &&& view.module is None
                &&& view.short_filename is None
                &&& view.locals is None
                &&& view.is_entry == frame.is_entry
                &&& !view.is_shim_entry
            }
            &&& lineno == LineNo::NoLine ==> view.line == 0 && run.next == q
            &&& lineno == LineNo::First ==> view.line == code.first_lineno && run.next == q
            &&& lineno == LineNo::LastInstruction && answered ==> view.line == line && run.next == t
                + 1
            &&& lineno == LineNo::LastInstruction && lines.out is Err ==> view.line == 0 && run.next
                == lines.next
        }),
{
    lemma_shim_text();
}

/// With its local variables a frame is reported as without them, but for the variables themselves,
/// which are read last; failing to read them fails the frame.
pub proof fn law_frame_with_locals(
    l: Seq<Event>,
    p: int,
    bindings: Bindings,
    frameptr: usize,
    frame: FrameObject,
    lineno: LineNo,
    code: CodeObject,
    view: FrameView,
)
    requires
        struct_at::<CodeObject>(l, p, bindings, frame.code) == done(code, p + 1),
        frame_run(l, p, bindings, frameptr, frame, false, lineno).out == Ok::<
            Option<FrameView>,
            Seq<Cause>,
        >(Some(view)),
    ensures
        ({
            let without = frame_run(l, p, bindings, frameptr, frame, false, lineno);
            let with = frame_run(l, p, bindings, frameptr, frame, true, lineno);
            let locals = locals_run(l, without.next, bindings, code, frameptr, frame);
            &&& with.next == locals.next
            &&& match locals.out {
                Ok(found) => with.out == Ok::<Option<FrameView>, Seq<Cause>>(
                    Some(FrameView { locals: Some(found), ..view }),
                ),
                Err(causes) => with.out == Err::<Option<FrameView>, Seq<Cause>>(
                    causes.push(Cause::Message("Failed to get local variables")),
                ),
            }
        }),
{
}

/// A frame whose file name is empty or `<shim>` is no frame to report. Its strings are read, but
/// nothing else of it.
pub proof fn law_frame_without_file(
    l: Seq<Event>,
    p: int,
    bindings: Bindings,
    frameptr: usize,
    frame: FrameObject,
    copy_locals: bool,
    lineno: LineNo,
    code: CodeObject,
    filename: Seq<char>,
    name: Seq<char>,
    q: int,
)
    requires
        struct_at::<CodeObject>(l, p, bindings, frame.code) == done(code, p + 1),
        string_run(l, p + 1, bindings, code.filename, true).out == Ok::<Seq<char>, Seq<Cause>>(
            filename,
        ),
        name_run(
            l,
            string_run(l, p + 1, bindings, code.filename, true).next,
            bindings,
            code,
        ) == done(name, q),
        names_no_file(filename),
    ensures
        frame_run(l, p, bindings, frameptr, frame, copy_locals, lineno) == done(
            None::<FrameView>,
            q,
        ),
{
    lemma_shim_text();
}

/// A frame fails where its code, its file name or its function name cannot be copied, and says which
/// it was.
pub proof fn law_frame_fails(
    l: Seq<Event>,
    p: int,
    bindings: Bindings,
    frameptr: usize,
    frame: FrameObject,
    copy_locals: bool,
    lineno: LineNo,
    code: CodeObject,
    filename: Seq<char>,
    f: int,
)
    ensures
        ({
            let run = frame_run(l, p, bindings, frameptr, frame, copy_locals, lineno);
            let read = struct_at::<CodeObject>(l, p, bindings, frame.code);
            let file = string_run(l, p + 1, bindings, code.filename, true);
            let name = name_run(l, f, bindings, code);
            &&& read.out matches Err(causes) ==> run.out == Err::<Option<FrameView>, Seq<Cause>>(
                causes.push(Cause::Message("Failed to copy PyCodeObject")),
            )
            &&& read == done(code, p + 1) ==> (file.out matches Err(causes) ==> run.out == Err::<
                Option<FrameView>,
                Seq<Cause>,
            >(causes.push(Cause::Message("Failed to copy filename"))))
            &&& read == done(code, p + 1) && file == done(filename, f) ==> (
            name.out matches Err(causes) ==> run.out == Err::<Option<FrameView>, Seq<Cause>>(
                causes.push(Cause::Message("Failed to copy function name")),
            ))
        }),
{
}

/// A line is looked up by the bytes of the line table of the code, and fails where they cannot be
/// copied, which it says.
pub proof fn law_line_lookup(
    l: Seq<Event>,
    p: int,
    bindings: Bindings,
    code: CodeObject,
    lasti: i32,
    table: Seq<u8>,
    t: int,
    line: i32,
)
    ensures
        bytes_run(l, p, bindings, code.line_table) == done(table, t) && 0 <= t < l.len() && l[t] == (
        Event::LineNumber { bindings, code, lasti, table, reply: line }) ==> line_run(
            l,
            p,
            bindings,
            code,
            lasti,
        ) == done(line, t + 1),
        bytes_run(l, p, bindings, code.line_table).out matches Err(causes) ==> line_run(
            l,
            p,
            bindings,
            code,
            lasti,
        ).out == Err::<i32, Seq<Cause>>(
            causes.push(Cause::Message("Failed to copy line number table")),
        ),
{
}

/// Unwinding goes from a frame to the one it names as its caller. What a frame comes to is kept behind
/// those before it; a shim, known by its mark or by its file name, instead marks the last one kept.
/// The chain ends with a null pointer.
pub proof fn law_unwinding_step(
    l: Seq<Event>,
    p: int,
    bindings: Bindings,
    ptr: usize,
    count: nat,
    frames: Seq<FrameView>,
    copy_locals: bool,
    lineno: LineNo,
    frame: FrameObject,
)
    requires
        ptr != 0,
        count <= 4095,
        struct_at::<FrameObject>(l, p, bindings, ptr) == done(frame, p + 1),
    ensures
        ({
            let run = frames_run(l, p, bindings, ptr, count, frames, copy_locals, lineno);
            let copied = frame_run(l, p + 1, bindings, ptr, frame, copy_locals, lineno);
            &&& frame.is_shim ==> run == frames_run(
                l,
                p + 1,
                bindings,
                frame.back,
                count + 1,
                shim_entry(frames),
                copy_locals,
                lineno,
            )
            &&& !frame.is_shim ==> match copied.out {
                Ok(Some(view)) => run == frames_run(
                    l,
                    copied.next,
                    bindings,
                    frame.back,
                    count + 1,
                    frames.push(view),
                    copy_locals,
                    lineno,
                ),
                Ok(None) => run == frames_run(
                    l,
                    copied.next,
                    bindings,
                    frame.back,
                    count + 1,
                    shim_entry(frames),
                    copy_locals,
                    lineno,
                ),
                Err(causes) => run == failed::<Seq<FrameView>>(causes, copied.next),
            }
        }),
{
}

/// A chain ends at a null pointer, which marks the last frame kept; it is given up after 4096 frames,
/// and where a frame cannot be read.
pub proof fn law_unwinding_ends(
    l: Seq<Event>,
    p: int,
    bindings: Bindings,
    ptr: usize,
    count: nat,
    frames: Seq<FrameView>,
    copy_locals: bool,
    lineno: LineNo,
)
    ensures
        frames_run(l, p, bindings, 0, count, frames, copy_locals, lineno) == done(
            shim_entry(frames),
            p,
        ),
        ptr != 0 && count >= 4096 ==> frames_run(
            l,
            p,
            bindings,
            ptr,
            count,
            frames,
            copy_locals,
            lineno,
        ) == failed::<Seq<FrameView>>(
            seq![Cause::Message("Max frame recursion depth reached")],
            p,
        ),
        ptr != 0 && count <= 4095 ==> (struct_at::<FrameObject>(
            l,
            p,
            bindings,
            ptr,
        ).out matches Err(causes) ==> frames_run(
            l,
            p,
            bindings,
            ptr,
            count,
            frames,
            copy_locals,
            lineno,
        ).out == Err::<Seq<FrameView>, Seq<Cause>>(
            causes.push(Cause::Message("Failed to copy PyFrameObject")),
        )),
{
}

/// Marking an entry from a shim changes the mark of the last frame, and nothing else.
pub proof fn law_shim_entry_mark(frames: Seq<FrameView>)
    ensures
        shim_entry(frames).len() == frames.len(),
        forall|i: int|
            0 <= i < frames.len() - 1 ==> #[trigger] shim_entry(frames)[i] == frames[i],
        frames.len() > 0 ==> ({
            let before = frames.last();
            let after = shim_entry(frames).last();
            &&& after.is_shim_entry
            &&& after.name == before.name
            &&& after.filename == before.filename
            &&& after.module == before.module
            &&& after.short_filename == before.short_filename
            &&& after.line == before.line
            &&& after.locals == before.locals
            &&& after.is_entry == before.is_entry
        }),
{
}

/// A trace holds the chain that starts at the thread's innermost frame, which the thread state names
/// or says where to find.
pub proof fn law_trace_starts_at_root(
    l: Seq<Event>,
    p: int,
    bindings: Bindings,
    thread: ThreadState,
    copy_locals: bool,
    lineno: LineNo,
)
    ensures
        ({
            let run = trace_run(l, p, bindings, thread, copy_locals, lineno);
            let (start, root) = match thread.frame {
                FrameRoot::Direct(ptr) => (p, Ok::<usize, Seq<Cause>>(ptr)),
                FrameRoot::Indirect(at) => (word_at(l, p, at).next, word_at(l, p, at).out),
            };
            match root {
                Err(causes) => run == failed::<TraceView>(causes, start),
                Ok(ptr) => {
                    let chain = frames_run(
                        l,
                        start,
                        bindings,
                        ptr,
                        0,
                        Seq::empty(),
                        copy_locals,
                        lineno,
                    );
                    &&& run.next == chain.next
                    &&& match chain.out {
                        Err(causes) => run.out == Err::<TraceView, Seq<Cause>>(causes),
                        Ok(frames) => run.out is Ok && run.out->Ok_0.frames == frames,
                    }
                },
            }
        }),
{
}

/// What stands in for a stack that could not be unwound: one frame named `<error>` with nothing else
/// to it, in a trace of an active thread that holds no GIL, has no name and no process of its own.
pub proof fn law_error_frame(run: Run<TraceView>, thread: ThreadState)
    requires
        run.out is Err,
    ensures
        ({
            let trace = sampled(run, thread);
            let frame = trace.frames[0];
            &&& trace.error
            &&& trace.active
            &&& !trace.owns_gil
            &&& trace.pid == 0
            &&& trace.thread_id == thread.thread_id
            &&& trace.os_thread_id == thread.native_thread_id
            &&& trace.thread_name is None
            &&& trace.process_info is None
            &&& trace.frames.len() == 1
            &&& frame.name == seq!['<', 'e', 'r', 'r', 'o', 'r', '>']
            &&& frame.filename.len() == 0
            &&& frame.module is None
            &&& frame.short_filename is None
            &&& frame.line == 0
            &&& frame.locals is None
            &&& !frame.is_entry
            &&& !frame.is_shim_entry
        }),
{
    reveal_strlit("<error>");
    assert("<error>"@ =~= seq!['<', 'e', 'r', 'r', 'o', 'r', '>']);
}

/// Reading a local variable takes the pointer to its name and the word for its value, each at its
/// place. The lowest bit of the word is no part of the address. A variable without a value is left
/// out; any other comes behind those before it, and is an argument where its place is below the
/// number of arguments.
pub proof fn law_local_variable(
    l: Seq<Event>,
    p: int,
    bindings: Bindings,
    names: usize,
    values: usize,
    argcount: usize,
    i: usize,
    count: usize,
    found: Seq<LocalView>,
    name_at: usize,
    value_at: usize,
    nameptr: usize,
    q: int,
    name: Seq<char>,
    word: usize,
)
    requires
        i < count,
        name_at == names + i * (usize::BITS / 8),
        value_at == values + i * (usize::BITS / 8),
        word_at(l, p, name_at) == done(nameptr, p + 1),
        string_run(l, p + 1, bindings, nameptr, true) == done(name, q),
        word_at(l, q, value_at) == done(word, q + 1),
    ensures
        locals_from_run(l, p, bindings, names, values, argcount, i, count, found)
            == locals_from_run(
            l,
            q + 1,
            bindings,
            names,
            values,
            argcount,
            (i + 1) as usize,
            count,
            if word == 0 || word == 1 {
                found
            } else {
                found.push(
                    LocalView {
                        name,
                        addr: (word - word % 2) as usize,
                        arg: i < argcount,
                        repr: None,
                    },
                )
            },
        ),
{
    lemma_place(names, i, name_at);
    lemma_place(values, i, value_at);
}

proof fn lemma_place(base: usize, i: usize, at: usize)
    requires
        at == base + i * (usize::BITS / 8),
    ensures
        base.wrapping_add(i.wrapping_mul(word_size())) == at,
{
    let k = i as int;
    let w = word_size() as int;
    assert(0 <= k * w) by (nonlinear_arith)
        requires
            0 <= k,
            0 <= w,
    ;
    lemma_product_fits(i, word_size());
}

/// The local variables of a frame: as many as its code declares, with the names in the tuple that
/// the code names, and the words from the last word of the frame's structure on.
pub proof fn law_local_variables_start(
    l: Seq<Event>,
    p: int,
    bindings: Bindings,
    code: CodeObject,
    frameptr: usize,
    frame: FrameObject,
    varnames: TupleObject,
    values: usize,
)
    requires
        struct_at::<TupleObject>(l, p, bindings, code.varnames) == done(varnames, p + 1),
        code.nlocals >= 0,
        code.argcount >= 0,
        frameptr + frame.size <= usize::MAX,
        values == frameptr + frame.size - usize::BITS / 8,
    ensures
        locals_run(l, p, bindings, code, frameptr, frame) == locals_from_run(
            l,
            p + 1,
            bindings,
            varnames.items,
            values,
            code.argcount as usize,
            0,
            code.nlocals as usize,
            Seq::empty(),
        ),
        code.nlocals as usize == code.nlocals,
        code.argcount as usize == code.argcount,
{
}

/// Local variables fail where the tuple of names, a name or a word cannot be read, and end where all
/// of them were read.
pub proof fn law_local_variables_end(
    l: Seq<Event>,
    p: int,
    bindings: Bindings,
    code: CodeObject,
    frameptr: usize,
    frame: FrameObject,
    names: usize,
    values: usize,
    argcount: usize,
    i: usize,
    count: usize,
    found: Seq<LocalView>,
    name_at: usize,
    value_at: usize,
    nameptr: usize,
    q: int,
    name: Seq<char>,
)
    ensures
        struct_at::<TupleObject>(l, p, bindings, code.varnames).out matches Err(causes)
            ==> locals_run(l, p, bindings, code, frameptr, frame).out == Err::<
            Seq<LocalView>,
            Seq<Cause>,
        >(causes.push(Cause::Message("Failed to get varnames from PyCodeObject"))),
        i >= count ==> locals_from_run(l, p, bindings, names, values, argcount, i, count, found)
            == done(found, p),
        ({
            let run = locals_from_run(l, p, bindings, names, values, argcount, i, count, found);
            let pointer = word_at(l, p, name_at);
            let text = string_run(l, p + 1, bindings, nameptr, true);
            let value = word_at(l, q, value_at);
            i < count && name_at == names + i * (usize::BITS / 8) && value_at == values + i * (
            usize::BITS / 8) ==> {
                &&& pointer.out matches Err(causes) ==> run.out == Err::<Seq<LocalView>, Seq<Cause>>(
                    causes,
                )
                &&& pointer == done(nameptr, p + 1) ==> (text.out matches Err(causes) ==> run.out
                    == Err::<Seq<LocalView>, Seq<Cause>>(
                    causes.push(Cause::Message("Failed to copy local variable name")),
                ))
                &&& pointer == done(nameptr, p + 1) && text == done(name, q) ==> (
                value.out matches Err(causes) ==> run.out == Err::<Seq<LocalView>, Seq<Cause>>(
                    causes,
                ))
            }
        }),
{
    if i < count && name_at == names + i * (usize::BITS / 8) && value_at == values + i * (
    usize::BITS / 8) {
        lemma_place(names, i, name_at);
        lemma_place(values, i, value_at);
    }
}

/// The GIL is held by the thread whose state stands at the address that is stored at the given place
/// or, where the version keeps a state of the GIL there, at that of its last holder as long as it is
/// locked. Without such an address the id is zero, and without a place nothing is read.
pub proof fn law_gil_holder(
    l: Seq<Event>,
    p: int,
    bindings: Bindings,
    place: usize,
    state: InterpreterState,
    gil: GilState,
    holder: usize,
)
    requires
        place != 0,
        interpreter_at(l, p, bindings) == done(state, p + 1),
        state.has_gil_runtime_state ==> struct_at::<GilState>(
            l,
            p + 1,
            Bindings::V3_13_0,
            place,
        ) == done(gil, p + 2) && holder == (if gil.locked == 0 {
            0
        } else {
            gil.last_holder
        }),
        !state.has_gil_runtime_state ==> word_at(l, p + 1, place) == done(holder, p + 2),
    ensures
        ({
            let run = gil_run(l, p, bindings, place);
            let thread = struct_at::<ThreadState>(l, p + 2, bindings, holder);
            &&& holder == 0 ==> run == done(0u64, p + 2)
            &&& holder != 0 ==> run.next == thread.next && match thread.out {
                Ok(found) => run.out == Ok::<u64, Seq<Cause>>(found.thread_id),
                Err(causes) => run.out == Err::<u64, Seq<Cause>>(causes),
            }
        }),
        gil_run(l, p, bindings, 0) == done(0u64, p),
{
}

/// Looking for the GIL fails where its state or the pointer to its holder cannot be read.
pub proof fn law_gil_lookup_fails(
    l: Seq<Event>,
    p: int,
    bindings: Bindings,
    place: usize,
    state: InterpreterState,
)
    requires
        place != 0,
        interpreter_at(l, p, bindings) == done(state, p + 1),
    ensures
        state.has_gil_runtime_state ==> (struct_at::<GilState>(
            l,
            p + 1,
            Bindings::V3_13_0,
            place,
        ).out matches Err(causes) ==> gil_run(l, p, bindings, place).out == Err::<u64, Seq<Cause>>(
            causes,
        )),
        !state.has_gil_runtime_state ==> (word_at(l, p + 1, place).out matches Err(causes)
            ==> gil_run(l, p, bindings, place).out == Err::<u64, Seq<Cause>>(causes)),
{
}

/// The local variables are in all frames of all traces where the configuration asks to dump them at
/// least once, and in none where it does not or there is no configuration.
pub proof fn law_traces_have_locals_as_configured(
    l: Seq<Event>,
    p: int,
    bindings: Bindings,
    interpreter_address: usize,
    threadstate_address: usize,
    config: Option<&Config>,
)
    ensures
        traces_run(
            l,
            p,
            bindings,
            interpreter_address,
            threadstate_address,
            config,
        ).out matches Ok(traces) ==> forall|i: int, j: int|
            0 <= i < traces.len() && 0 <= j < traces[i].frames.len() ==> {
                let frame = #[trigger] traces[i].frames[j];
                &&& config is None ==> frame.locals is None && frame.line == 0
                &&& config matches Some(c) ==> {
                    &&& c.dump_locals >= 1 ==> frame.locals is Some
                    &&& c.dump_locals == 0 ==> frame.locals is None
                    &&& c.lineno == LineNo::NoLine ==> frame.line == 0
                }
            },
{
    let run = traces_run(l, p, bindings, interpreter_address, threadstate_address, config);
    let gil = gil_run(l, p, bindings, threadstate_address);
    let interpreter = interpreter_at(l, gil.next, bindings);
    let head = word_at(
        l,
        interpreter.next,
        interpreter_address.wrapping_add(interpreter.out->Ok_0.threadstate),
    );
    if run.out is Ok {
        let copy_locals = match config {
            Some(c) => c.dump_locals >= 1,
            None => false,
        };
        let lineno = match config {
            Some(c) => c.lineno,
            None => LineNo::NoLine,
        };
        lemma_threads_reported(
            l,
            head.next,
            bindings,
            head.out->Ok_0,
            gil.out->Ok_0,
            Seq::empty(),
            copy_locals,
            lineno,
        );
    }
}

/// Whether all frames of all traces are as they are reported under these settings.
spec fn all_reported(traces: Seq<TraceView>, copy_locals: bool, lineno: LineNo) -> bool {
    forall|i: int, j: int|
        0 <= i < traces.len() && 0 <= j < traces[i].frames.len() ==> {
            let frame = #[trigger] traces[i].frames[j];
            &&& frame.locals is Some <==> copy_locals
            &&& lineno == LineNo::NoLine ==> frame.line == 0
        }
}

proof fn lemma_threads_reported(
    l: Seq<Event>,
    p: int,
    bindings: Bindings,
    ptr: usize,
    gil_thread_id: u64,
    traces: Seq<TraceView>,
    copy_locals: bool,
    lineno: LineNo,
)
    requires
        all_reported(traces, copy_locals, lineno),
        traces.len() <= 4096,
    ensures
        threads_run(l, p, bindings, ptr, gil_thread_id, traces, copy_locals, lineno).out matches Ok(
            all,
        ) ==> all_reported(all, copy_locals, lineno),
    decreases 4097 - traces.len(),
{
    if ptr != 0 {
        let read = with_context(
            struct_at::<ThreadState>(l, p, bindings, ptr),
            "Failed to copy PyThreadState",
        );
        if let Ok(thread) = read.out {
            let run = trace_run(l, read.next, bindings, thread, copy_locals, lineno);
            law_trace(l, read.next, bindings, thread, copy_locals, lineno);
            if let Ok(trace) = run.out {
                if traces.len() < 4096 {
                    let next = traces.push(
                        TraceView { owns_gil: thread.thread_id == gil_thread_id, ..trace },
                    );
                    assert forall|i: int, j: int|
                        0 <= i < next.len() && 0 <= j < next[i].frames.len() implies {
                        let frame = #[trigger] next[i].frames[j];
                        &&& frame.locals is Some <==> copy_locals
                        &&& lineno == LineNo::NoLine ==> frame.line == 0
                    } by {
                        if i < traces.len() {
                            let frame = traces[i].frames[j];
                        } else {
                            assert(reported_frame(trace.frames[j], copy_locals, lineno));
                        }
                    }
                    lemma_threads_reported(
                        l,
                        run.next,
                        bindings,
                        thread.next,
                        gil_thread_id,
                        next,
                        copy_locals,
                        lineno,
                    );
                }
            }
        }
    }
}

/// Where the threads of an interpreter can be read one behind the other from the pointer in its state
/// on, each with its trace under the configured line mode and locals, the traces are those, with the
/// owner of the GIL marked by its id.
pub proof fn law_traces_under_configuration(
    l: Seq<Event>,
    p: int,
    bindings: Bindings,
    interpreter_address: usize,
    threadstate_address: usize,
    config: Option<&Config>,
    gil_thread_id: u64,
    g: int,
    state: InterpreterState,
    head_at: usize,
    head: usize,
    threads: Seq<ThreadState>,
    traces: Seq<TraceView>,
)
    requires
        gil_run(l, p, bindings, threadstate_address) == done(gil_thread_id, g),
        interpreter_at(l, g, bindings) == done(state, g + 1),
        head_at == interpreter_address + state.threadstate,
        word_at(l, g + 1, head_at) == done(head, g + 2),
        threads.len() <= 4096,
        threads_traced(
            l,
            g + 2,
            bindings,
            head,
            threads,
            traces,
            match config {
                Some(c) => c.dump_locals >= 1,
                None => false,
            },
            match config {
                Some(c) => c.lineno,
                None => LineNo::NoLine,
            },
        ),
    ensures
        ({
            let run = traces_run(
                l,
                p,
                bindings,
                interpreter_address,
                threadstate_address,
                config,
            );
            &&& run.out matches Ok(all)
            &&& all.len() == threads.len()
            &&& forall|i: int|
                0 <= i < threads.len() ==> {
                    let trace = #[trigger] all[i];
                    &&& trace.owns_gil == (traces[i].thread_id == gil_thread_id)
                    &&& trace.frames == traces[i].frames
                    &&& trace.thread_id == traces[i].thread_id
                    &&& trace.os_thread_id == traces[i].os_thread_id
                    &&& trace.pid == traces[i].pid
                    &&& trace.thread_name == traces[i].thread_name
                    &&& trace.active == traces[i].active
                    &&& trace.error == traces[i].error
                    &&& trace.process_info == traces[i].process_info
                }
        }),
{
    law_traces_of_threads(l, p, bindings, interpreter_address, threadstate_address, config);
    lemma_traced_lengths(
        l,
        g + 2,
        bindings,
        head,
        threads,
        traces,
        match config {
            Some(c) => c.dump_locals >= 1,
            None => false,
        },
        match config {
            Some(c) => c.lineno,
            None => LineNo::NoLine,
        },
    );
}

proof fn lemma_traced_lengths(
    l: Seq<Event>,
    p: int,
    bindings: Bindings,
    ptr: usize,
    threads: Seq<ThreadState>,
    traces: Seq<TraceView>,
    copy_locals: bool,
    lineno: LineNo,
)
    requires
        threads_traced(l, p, bindings, ptr, threads, traces, copy_locals, lineno),
    ensures
        traces.len() == threads.len(),
{
}

/// The thread list fails where its head or a thread cannot be read, or where it has more than 4096
/// threads, and says which it was.
pub proof fn law_thread_list_fails(
    l: Seq<Event>,
    p: int,
    bindings: Bindings,
    interpreter_address: usize,
    threadstate_address: usize,
    config: Option<&Config>,
    gil_thread_id: u64,
    g: int,
    state: InterpreterState,
    head_at: usize,
    ptr: usize,
    before: Seq<TraceView>,
    copy_locals: bool,
    lineno: LineNo,
    thread: ThreadState,
)
    requires
        ptr != 0,
    ensures
        gil_run(l, p, bindings, threadstate_address) == done(gil_thread_id, g) && interpreter_at(
            l,
            g,
            bindings,
        ) == done(state, g + 1) && head_at == interpreter_address + state.threadstate ==> (word_at(
            l,
            g + 1,
            head_at,
        ).out matches Err(causes) ==> traces_run(
            l,
            p,
            bindings,
            interpreter_address,
            threadstate_address,
            config,
        ).out == Err::<Seq<TraceView>, Seq<Cause>>(
            causes.push(Cause::Message("Failed to copy PyThreadState head pointer")),
        )),
        ({
            let run = threads_run(
                l,
                p,
                bindings,
                ptr,
                gil_thread_id,
                before,
                copy_locals,
                lineno,
            );
            let read = struct_at::<ThreadState>(l, p, bindings, ptr);
            &&& read.out matches Err(causes) ==> run.out == Err::<Seq<TraceView>, Seq<Cause>>(
                causes.push(Cause::Message("Failed to copy PyThreadState")),
            )
            &&& read == done(thread, p + 1) && before.len() >= 4096 && trace_run(
                l,
                p + 1,
                bindings,
                thread,
                copy_locals,
                lineno,
            ).out is Ok ==> run.out == Err::<Seq<TraceView>, Seq<Cause>>(
                seq![Cause::Message("Max thread recursion depth reached")],
            )
        }),
{
}

/// A python thread id is written as `0x` and its hexadecimal digits in upper case.
pub proof fn law_threadid_text(thread_id: u64)
    ensures
        threadid_text(thread_id) == seq!['0', 'x'] + crate::text::upper_hex_text(thread_id as nat),
{
    reveal_strlit("0x");
    assert("0x"@ =~= seq!['0', 'x']);
}

/// Sampling goes from a thread to the one it names as the next. Each trace comes behind those before
/// it, with the GIL its own exactly where its id is that of the holder. The list ends with a null
/// pointer.
pub proof fn law_thread_list_step(
    l: Seq<Event>,
    p: int,
    bindings: Bindings,
    ptr: usize,
    gil_thread_id: u64,
    before: Seq<TraceView>,
    copy_locals: bool,
    lineno: LineNo,
    thread: ThreadState,
)
    requires
        ptr != 0,
        before.len() <= 4095,
        struct_at::<ThreadState>(l, p, bindings, ptr) == done(thread, p + 1),
    ensures
        ({
            let run = threads_run(
                l,
                p,
                bindings,
                ptr,
                gil_thread_id,
                before,
                copy_locals,
                lineno,
            );
            let traced = trace_run(l, p + 1, bindings, thread, copy_locals, lineno);
            match traced.out {
                Err(causes) => run == failed::<Seq<TraceView>>(causes, traced.next),
                Ok(trace) => run == threads_run(
                    l,
                    traced.next,
                    bindings,
                    thread.next,
                    gil_thread_id,
                    before.push(
                        TraceView {
                            pid: trace.pid,
                            thread_id: trace.thread_id,
                            thread_name: trace.thread_name,
                            os_thread_id: trace.os_thread_id,
                            active: trace.active,
                            owns_gil: trace.thread_id == gil_thread_id,
                            error: trace.error,
                            frames: trace.frames,
                            process_info: trace.process_info,
                        },
                    ),
                    copy_locals,
                    lineno,
                ),
            }
        }),
        threads_run(l, p, bindings, 0, gil_thread_id, before, copy_locals, lineno) == done(before, p),
{
    law_trace(l, p + 1, bindings, thread, copy_locals, lineno);
}

/// A thread that is not active is idle, and one that is says whether it holds the GIL.
pub proof fn law_status_text(owns_gil: bool)
    ensures
        status_text(false, owns_gil) == seq!['i', 'd', 'l', 'e'],
        status_text(true, owns_gil) == seq!['a', 'c', 't', 'i', 'v', 'e'] + (if owns_gil {
            seq!['+', 'g', 'i', 'l']
        } else {
            Seq::empty()
        }),
{
    reveal_strlit("idle");
    reveal_strlit("active");
    reveal_strlit("active+gil");
    assert("idle"@ =~= seq!['i', 'd', 'l', 'e']);
    assert("active"@ =~= seq!['a', 'c', 't', 'i', 'v', 'e'] + Seq::<char>::empty());
    assert("active+gil"@ =~= seq!['a', 'c', 't', 'i', 'v', 'e'] + seq!['+', 'g', 'i', 'l']);
}

/// The id of a thread is shown as its native id in decimal where there is one, except on macOS, where
/// as everywhere without a native id it is the python id in hexadecimal.
pub proof fn law_shown_threadid(tid: u64, thread_id: u64, macos: bool)
    ensures
        shown_threadid(Some(tid), thread_id, false) == crate::text::decimal_text(tid as int),
        shown_threadid(Some(tid), thread_id, true) == threadid_text(thread_id),
        shown_threadid(None, thread_id, macos) == threadid_text(thread_id),
{
}

/// The frame of a process names it by its id and its command line in quotes, and has nothing else to
/// it but that it is an entry of both kinds.
pub proof fn law_process_frame(pid: int, command_line: Seq<char>)
    ensures
        ({
            let frame = process_frame(pid, command_line);
            &&& frame.name == seq!['p', 'r', 'o', 'c', 'e', 's', 's', ' ']
                + crate::text::decimal_text(pid) + seq![':', '"'] + command_line + seq!['"']
            &&& frame.filename.len() == 0
            &&& frame.module is None
            &&& frame.short_filename is None
            &&& frame.line == 0
            &&& frame.locals is None
            &&& frame.is_entry
            &&& frame.is_shim_entry
        }),
{
    reveal_strlit("process ");
    reveal_strlit(":\"");
    reveal_strlit("\"");
    assert("process "@ =~= seq!['p', 'r', 'o', 'c', 'e', 's', 's', ' ']);
    assert(":\""@ =~= seq![':', '"']);
    assert("\""@ =~= seq!['"']);
}

/// Without knowing who holds the GIL there are no traces.
pub proof fn law_traces_need_gil(
    l: Seq<Event>,
    p: int,
    bindings: Bindings,
    interpreter_address: usize,
    threadstate_address: usize,
    config: Option<&Config>,
)
    ensures
        gil_run(l, p, bindings, threadstate_address).out matches Err(causes) ==> traces_run(
            l,
            p,
            bindings,
            interpreter_address,
            threadstate_address,
            config,
        ).out == Err::<Seq<TraceView>, Seq<Cause>>(causes),
{
}

} // verus!
