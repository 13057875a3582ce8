//! The call stacks of Python threads.
use std::sync::Arc;

pub use remoteprocess::Pid;
use vstd::prelude::*;

use crate::bytes::word_size;
use crate::config::{Config, LineNo};
use crate::error::Error;
#[allow(unused_imports)]
use crate::error::{holds_invalid_string, Cause};
use crate::objects::{
    Bindings, CodeObject, FrameObject, FrameRoot, GilState, ThreadState, TupleObject,
};
use crate::python_data_access::{copy_bytes, copy_string};
#[allow(unused_imports)]
use crate::python_data_access::{bytes_run, string_run};
use crate::target::{ProcessMemory, Target};
#[allow(unused_imports)]
use crate::text::{decimal_text, upper_hex_text};
use crate::text::{decimal, upper_hex};
#[allow(unused_imports)]
use crate::target::{
    continued, done, failed, grown, interpreter_at, law_added_context_keeps_invalid_string,
    line_number_at, ran, ran_view, struct_at, with_context, word_at, Event, Run,
};

verus! {

/// Call stack for a single python thread
#[derive(Debug, Clone)]
pub struct StackTrace {
    /// The process id than generated this stack trace
    pub pid: Pid,
    /// The python thread id for this stack trace
    pub thread_id: u64,
    /// The python thread name for this stack trace
    pub thread_name: Option<String>,
    /// The OS thread id for this stack tracee
    pub os_thread_id: Option<u64>,
    /// Whether or not the thread was active
    pub active: bool,
    /// Whether or not the thread held the GIL
    pub owns_gil: bool,
    /// Whether Python unwinding failed; the frames contain only a synthetic <error> frame.
    pub error: bool,
    /// The frames
    pub frames: Vec<Frame>,
    /// process commandline / parent process info
    pub process_info: Option<Arc<ProcessInfo>>,
}

/// Information about a single function call in a stack trace
#[derive(Debug, Hash, Eq, PartialEq, Ord, PartialOrd, Clone)]
pub struct Frame {
    /// The function name
    pub name: String,
    /// The full filename of the file
    pub filename: String,
    /// The module/shared library the
    pub module: Option<String>,
    /// A short, more readable, representation of the filename
    pub short_filename: Option<String>,
    /// The line number inside the file (or 0 for native frames without line information)
    pub line: i32,
    /// Local Variables associated with the frame
    pub locals: Option<Vec<LocalVariable>>,
    /// If this is an entry frame. Each entry frame corresponds to one native frame (Python 3.11)
    pub is_entry: bool,
    /// If the last frame was a shim. This is used in Python 3.12+ to detect entry frames.
    pub is_shim_entry: bool,
}

#[derive(Debug, Hash, Eq, PartialEq, Ord, PartialOrd, Clone)]
pub struct LocalVariable {
    pub name: String,
    pub addr: usize,
    pub arg: bool,
    pub repr: Option<String>,
}

#[derive(Debug)]
pub struct ProcessInfo {
    pub pid: Pid,
    pub command_line: String,
    pub parent: Option<Box<ProcessInfo>>,
}

impl Clone for ProcessInfo {
    fn clone(&self) -> (r: Self)
        ensures
            r == *self,
        decreases self,
    {
        ProcessInfo {
            pid: self.pid,
            command_line: self.command_line.clone(),
            parent: match &self.parent {
                Some(parent) => Some(Box::new((&**parent).clone())),
                None => None,
            },
        }
    }
}

/// A [`LocalVariable`] with its text taken by its view.
pub struct LocalView {
    pub name: Seq<char>,
    pub addr: usize,
    pub arg: bool,
    pub repr: Option<Seq<char>>,
}

/// A [`Frame`] with its text taken by its view.
pub struct FrameView {
    pub name: Seq<char>,
    pub filename: Seq<char>,
    pub module: Option<Seq<char>>,
    pub short_filename: Option<Seq<char>>,
    pub line: i32,
    pub locals: Option<Seq<LocalView>>,
    pub is_entry: bool,
    pub is_shim_entry: bool,
}

/// A [`StackTrace`] with its text taken by its view.
pub struct TraceView {
    pub pid: Pid,
    pub thread_id: u64,
    pub thread_name: Option<Seq<char>>,
    pub os_thread_id: Option<u64>,
    pub active: bool,
    pub owns_gil: bool,
    pub error: bool,
    pub frames: Seq<FrameView>,
    pub process_info: Option<Arc<ProcessInfo>>,
}

pub open spec fn text_view(text: Option<String>) -> Option<Seq<char>> {
    match text {
        Some(s) => Some(s@),
        None => None,
    }
}

pub open spec fn local_views(locals: Seq<LocalVariable>) -> Seq<LocalView> {
    Seq::new(locals.len(), |i: int| locals[i]@)
}

pub open spec fn frame_views(frames: Seq<Frame>) -> Seq<FrameView> {
    Seq::new(frames.len(), |i: int| frames[i]@)
}

pub open spec fn trace_views(traces: Seq<StackTrace>) -> Seq<TraceView> {
    Seq::new(traces.len(), |i: int| traces[i]@)
}

impl View for LocalVariable {
    type V = LocalView;

    open spec fn view(&self) -> LocalView {
        LocalView {
            name: self.name@,
            addr: self.addr,
            arg: self.arg,
            repr: text_view(self.repr),
        }
    }
}

impl View for Frame {
    type V = FrameView;

    open spec fn view(&self) -> FrameView {
        FrameView {
            name: self.name@,
            filename: self.filename@,
            module: text_view(self.module),
            short_filename: text_view(self.short_filename),
            line: self.line,
            locals: match self.locals {
                Some(locals) => Some(local_views(locals@)),
                None => None,
            },
            is_entry: self.is_entry,
            is_shim_entry: self.is_shim_entry,
        }
    }
}

impl View for StackTrace {
    type V = TraceView;

    open spec fn view(&self) -> TraceView {
        TraceView {
            pid: self.pid,
            thread_id: self.thread_id,
            thread_name: text_view(self.thread_name),
            os_thread_id: self.os_thread_id,
            active: self.active,
            owns_gil: self.owns_gil,
            error: self.error,
            frames: frame_views(self.frames@),
            process_info: self.process_info,
        }
    }
}

/// Looks up the line of the instruction at `lasti` of a code object.
pub open spec fn line_run(
    l: Seq<Event>,
    p: int,
    bindings: Bindings,
    code: CodeObject,
    lasti: i32,
) -> Run<i32> {
    let table = with_context(
        bytes_run(l, p, bindings, code.line_table),
        "Failed to copy line number table",
    );
    match table.out {
        Err(causes) => failed(causes, table.next),
        Ok(data) => line_number_at(l, table.next, bindings, code, lasti, data),
    }
}

/// Returns the line number from a PyCodeObject (given the lasti index from a PyFrameObject)
pub fn get_line_number<P: ProcessMemory>(
    bindings: Bindings,
    code: &CodeObject,
    lasti: i32,
    process: &mut Target<P>,
) -> (r: Result<i32, Error>)
    ensures
        continued(*old(process), *final(process)),
        forall|l: Seq<Event>|
            grown(final(process).log(), l) ==> #[trigger] line_run(
                l,
                old(process).log().len() as int,
                bindings,
                *code,
                lasti,
            ) == ran(r, final(process).log()),
{
    match copy_bytes(bindings, code.line_table, process) {
        Ok(table) => Ok(process.line_number(bindings, code, lasti, &table)),
        Err(e) => Err(e.context("Failed to copy line number table")),
    }
}

/// The address of a variable's value. Its lowest bit is set where the reference is not counted,
/// as for None, True, False, small integer constants etc on Python 3.14.
pub open spec fn untagged(addr: usize) -> usize {
    if addr % 2 == 1 {
        (addr - 1) as usize
    } else {
        addr
    }
}

/// Copies the local variables from the `i`-th on. `names` is where the pointers to their names
/// are, and `values` where the pointers to their values are. A variable that has no value is left
/// out.
pub open spec fn locals_from_run(
    l: Seq<Event>,
    p: int,
    bindings: Bindings,
    names: usize,
    values: usize,
    argcount: usize,
    i: usize,
    count: usize,
    found: Seq<LocalView>,
) -> Run<Seq<LocalView>>
    decreases count - i,
{
    if i >= count {
        done(found, p)
    } else {
        let nameptr = word_at(l, p, names.wrapping_add(i.wrapping_mul(word_size())));
        match nameptr.out {
            Err(causes) => failed(causes, nameptr.next),
            Ok(ptr) => {
                let name = with_context(
                    string_run(l, nameptr.next, bindings, ptr, true),
                    "Failed to copy local variable name",
                );
                match name.out {
                    Err(causes) => failed(causes, name.next),
                    Ok(text) => {
                        let value = word_at(
                            l,
                            name.next,
                            values.wrapping_add(i.wrapping_mul(word_size())),
                        );
                        match value.out {
                            Err(causes) => failed(causes, value.next),
                            Ok(addr) => locals_from_run(
                                l,
                                value.next,
                                bindings,
                                names,
                                values,
                                argcount,
                                (i + 1) as usize,
                                count,
                                if untagged(addr) == 0 {
                                    found
                                } else {
                                    found.push(
                                        LocalView {
                                            name: text,
                                            addr: untagged(addr),
                                            arg: i < argcount,
                                            repr: None,
                                        },
                                    )
                                },
                            ),
                        }
                    },
                }
            },
        }
    }
}

/// Copies the local variables of the frame at `frameptr`.
pub open spec fn locals_run(
    l: Seq<Event>,
    p: int,
    bindings: Bindings,
    code: CodeObject,
    frameptr: usize,
    frame: FrameObject,
) -> Run<Seq<LocalView>> {
    let varnames = with_context(
        struct_at::<TupleObject>(l, p, bindings, code.varnames),
        "Failed to get varnames from PyCodeObject",
    );
    match varnames.out {
        Err(causes) => failed(causes, varnames.next),
        Ok(names) => locals_from_run(
            l,
            varnames.next,
            bindings,
            names.items,
            frameptr.wrapping_add(frame.size).wrapping_sub(word_size()),
            code.argcount as usize,
            0,
            code.nlocals as usize,
            Seq::empty(),
        ),
    }
}

/// The run that came to these local variables, and left the log as `log`.
pub open spec fn ran_locals(r: Result<Vec<LocalVariable>, Error>, log: Seq<Event>) -> Run<
    Seq<LocalView>,
> {
    match r {
        Ok(locals) => done(local_views(locals@), log.len() as int),
        Err(e) => failed(e@, log.len() as int),
    }
}

/// Copies the local variables of a frame.
pub fn get_locals<P: ProcessMemory>(
    bindings: Bindings,
    code: &CodeObject,
    frameptr: usize,
    frame: &FrameObject,
    process: &mut Target<P>,
) -> (r: Result<Vec<LocalVariable>, Error>)
    ensures
        continued(*old(process), *final(process)),
        forall|l: Seq<Event>|
            grown(final(process).log(), l) ==> #[trigger] locals_run(
                l,
                old(process).log().len() as int,
                bindings,
                *code,
                frameptr,
                *frame,
            ) == ran_locals(r, final(process).log()),
{
    let local_count: usize = code.nlocals as usize;
    let argcount: usize = code.argcount as usize;
    let ptr_size = word_size();
    let varnames: TupleObject = match process.copy_struct(bindings, code.varnames) {
        Ok(varnames) => varnames,
        Err(e) => {
            return Err(e.context("Failed to get varnames from PyCodeObject"));
        },
    };
    let locals_addr: usize = frameptr.wrapping_add(frame.size).wrapping_sub(ptr_size);
    let mut ret: Vec<LocalVariable> = Vec::new();
    let mut i: usize = 0;
    let ghost start = old(process).log().len() as int;
    assert(local_views(ret@) =~= Seq::<LocalView>::empty());
    while i < local_count
        invariant
            i <= local_count,
            ptr_size == word_size(),
            continued(*old(process), *process),
            start == old(process).log().len(),
            forall|l: Seq<Event>|
                grown(process.log(), l) ==> #[trigger] locals_run(
                    l,
                    start,
                    bindings,
                    *code,
                    frameptr,
                    *frame,
                ) == locals_from_run(
                    l,
                    process.log().len() as int,
                    bindings,
                    varnames.items,
                    locals_addr,
                    argcount,
                    i,
                    local_count,
                    local_views(ret@),
                ),
        decreases local_count - i,
    {
        let ghost found = local_views(ret@);
        let nameptr: usize = match process.word(
            varnames.items.wrapping_add(i.wrapping_mul(ptr_size)),
        ) {
            Ok(nameptr) => nameptr,
            Err(e) => {
                return Err(e);
            },
        };
        let name = match copy_string(bindings, nameptr, process, true) {
            Ok(name) => name,
            Err(e) => {
                return Err(e.context("Failed to copy local variable name"));
            },
        };
        let addr: usize = match process.word(locals_addr.wrapping_add(i.wrapping_mul(ptr_size))) {
            Ok(addr) => addr,
            Err(e) => {
                return Err(e);
            },
        };
        // hack: handle things like None, True, False, small integer constants etc on Python 3.14
        let addr: usize = if addr % 2 == 1 {
            addr - 1
        } else {
            addr
        };
        if addr != 0 {
            ret.push(LocalVariable { name, addr, arg: i < argcount, repr: None });
            assert(local_views(ret@) =~= found.push(ret@.last()@));
        }
        i = i + 1;
    }
    Ok(ret)
}

/// Copies the name of a function: its qualified name where the code has one that can be copied,
/// and its plain name otherwise.
pub open spec fn name_run(l: Seq<Event>, p: int, bindings: Bindings, code: CodeObject) -> Run<
    Seq<char>,
> {
    match code.qualname {
        Some(ptr) => {
            let qualname = string_run(l, p, bindings, ptr, true);
            match qualname.out {
                Ok(_) => qualname,
                Err(_) => string_run(l, qualname.next, bindings, code.name, true),
            }
        },
        None => string_run(l, p, bindings, code.name, true),
    }
}

fn copy_name<P: ProcessMemory>(bindings: Bindings, code: &CodeObject, process: &mut Target<P>) -> (r:
    Result<String, Error>)
    ensures
        continued(*old(process), *final(process)),
        forall|l: Seq<Event>|
            grown(final(process).log(), l) ==> #[trigger] name_run(
                l,
                old(process).log().len() as int,
                bindings,
                *code,
            ) == ran_view(r, final(process).log()),
{
    match code.qualname {
        Some(ptr) => match copy_string(bindings, ptr, process, true) {
            Ok(name) => Ok(name),
            Err(_) => copy_string(bindings, code.name, process, true),
        },
        None => copy_string(bindings, code.name, process, true),
    }
}

/// The line to report for a frame. Failing to look it up is no failure: it comes to line zero.
pub open spec fn frame_line_run(
    l: Seq<Event>,
    p: int,
    bindings: Bindings,
    code: CodeObject,
    lasti: i32,
    lineno: LineNo,
) -> Run<i32> {
    match lineno {
        LineNo::NoLine => done(0, p),
        LineNo::First => done(code.first_lineno, p),
        LineNo::LastInstruction => {
            let line = line_run(l, p, bindings, code, lasti);
            match line.out {
                Ok(_) => line,
                Err(_) => done(0, line.next),
            }
        },
    }
}

/// Whether a file name marks a frame as a shim. An unset one does in Python 3.13.
pub open spec fn is_shim_filename(filename: Seq<char>) -> bool {
    filename.len() == 0 || filename == "<shim>"@
}

/// Copies what is reported of the frame at `frameptr`. Comes to nothing where the frame turns out
/// to be a shim.
pub open spec fn frame_run(
    l: Seq<Event>,
    p: int,
    bindings: Bindings,
    frameptr: usize,
    frame: FrameObject,
    copy_locals: bool,
    lineno: LineNo,
) -> Run<Option<FrameView>> {
    let code_read = with_context(
        struct_at::<CodeObject>(l, p, bindings, frame.code),
        "Failed to copy PyCodeObject",
    );
    match code_read.out {
        Err(causes) => failed(causes, code_read.next),
        Ok(code) => {
            let file = with_context(
                string_run(l, code_read.next, bindings, code.filename, true),
                "Failed to copy filename",
            );
            match file.out {
                Err(causes) => failed(causes, file.next),
                Ok(filename) => {
                    let named = with_context(
                        name_run(l, file.next, bindings, code),
                        "Failed to copy function name",
                    );
                    match named.out {
                        Err(causes) => failed(causes, named.next),
                        Ok(name) => if is_shim_filename(filename) {
                            done(None, named.next)
                        } else {
                            described_frame_run(
                                l,
                                named.next,
                                bindings,
                                frameptr,
                                frame,
                                code,
                                filename,
                                name,
                                copy_locals,
                                lineno,
                            )
                        },
                    }
                },
            }
        },
    }
}

/// The rest of [`frame_run`], once the file and the function are known.
pub open spec fn described_frame_run(
    l: Seq<Event>,
    p: int,
    bindings: Bindings,
    frameptr: usize,
    frame: FrameObject,
    code: CodeObject,
    filename: Seq<char>,
    name: Seq<char>,
    copy_locals: bool,
    lineno: LineNo,
) -> Run<Option<FrameView>> {
    let line = frame_line_run(l, p, bindings, code, frame.lasti, lineno);
    match line.out {
        Err(causes) => failed(causes, line.next),
        Ok(line_number) => {
            let locals = if copy_locals {
                with_context(
                    locals_run(l, line.next, bindings, code, frameptr, frame),
                    "Failed to get local variables",
                )
            } else {
                done(Seq::empty(), line.next)
            };
            match locals.out {
                Err(causes) => failed(causes, locals.next),
                Ok(variables) => done(
                    Some(
                        FrameView {
                            name,
                            filename,
                            module: None,
                            short_filename: None,
                            line: line_number,
                            locals: if copy_locals {
                                Some(variables)
                            } else {
                                None
                            },
                            is_entry: frame.is_entry,
                            is_shim_entry: false,
                        },
                    ),
                    locals.next,
                ),
            }
        },
    }
}

/// The run that came to this frame, and left the log as `log`.
pub open spec fn ran_frame(r: Result<Option<Frame>, Error>, log: Seq<Event>) -> Run<
    Option<FrameView>,
> {
    match r {
        Ok(Some(frame)) => done(Some(frame@), log.len() as int),
        Ok(None) => done(None, log.len() as int),
        Err(e) => failed(e@, log.len() as int),
    }
}

fn copy_frame<P: ProcessMemory>(
    bindings: Bindings,
    frameptr: usize,
    frame: &FrameObject,
    process: &mut Target<P>,
    copy_locals: bool,
    lineno: LineNo,
) -> (r: Result<Option<Frame>, Error>)
    ensures
        continued(*old(process), *final(process)),
        forall|l: Seq<Event>|
            grown(final(process).log(), l) ==> #[trigger] frame_run(
                l,
                old(process).log().len() as int,
                bindings,
                frameptr,
                *frame,
                copy_locals,
                lineno,
            ) == ran_frame(r, final(process).log()),
{
    let code: CodeObject = match process.copy_struct(bindings, frame.code) {
        Ok(code) => code,
        Err(e) => {
            return Err(e.context("Failed to copy PyCodeObject"));
        },
    };
    let filename = match copy_string(bindings, code.filename, process, true) {
        Ok(filename) => filename,
        Err(e) => {
            return Err(e.context("Failed to copy filename"));
        },
    };
    // Try to get qualname first (available in Python 3.11+), fall back to name
    let name = match copy_name(bindings, &code, process) {
        Ok(name) => name,
        Err(e) => {
            return Err(e.context("Failed to copy function name"));
        },
    };
    // skip <shim> entries in python 3.12+
    // Unset file/function name in py3.13 means this is a shim.
    if filename.as_str().is_empty() || filename == "<shim>".to_owned() {
        return Ok(None);
    }
    let line: i32 = match lineno {
        LineNo::NoLine => 0,
        LineNo::First => code.first_lineno,
        LineNo::LastInstruction => match get_line_number(bindings, &code, frame.lasti, process) {
            Ok(line) => line,
            // Failling to get the line number really shouldn't be fatal here, but can happen in
            // extreme cases. Rather than fail set the linenumber to 0. This is used by the native
            // extensions to indicate that we can't load a line number and it should be handled
            // gracefully
            Err(_) => 0,
        },
    };
    let locals = if copy_locals {
        match get_locals(bindings, &code, frameptr, frame, process) {
            Ok(locals) => Some(locals),
            Err(e) => {
                return Err(e.context("Failed to get local variables"));
            },
        }
    } else {
        None
    };
    Ok(
        Some(
            Frame {
                name,
                filename,
                line,
                short_filename: None,
                module: None,
                locals,
                is_entry: frame.is_entry,
                is_shim_entry: false,
            },
        ),
    )
}

/// The frames, with the last of them marked as the entry from a shim.
pub open spec fn shim_entry(frames: Seq<FrameView>) -> Seq<FrameView> {
    if frames.len() == 0 {
        frames
    } else {
        frames.drop_last().push(FrameView { is_shim_entry: true, ..frames.last() })
    }
}

fn set_last_frame_as_shim_entry(frames: &mut Vec<Frame>)
    ensures
        frame_views(final(frames)@) == shim_entry(frame_views(old(frames)@)),
{
    match frames.pop() {
        Some(frame) => {
            let mut frame = frame;
            frame.is_shim_entry = true;
            frames.push(frame);
        },
        None => {},
    }
    assert(frame_views(frames@) =~= shim_entry(frame_views(old(frames)@)));
}

/// Copies the frames from the one at `ptr` outwards, where `count` frames were read and `frames`
/// were kept already.
///
/// We are iterating in reverse, i.e. from last call to first call. Since Python 3.12, there are
/// shim frames inserted before a block of Python frames. Each marks the last frame that was kept,
/// and so does the end of the chain. Shims count too, so a corrupt chain cannot go on forever.
pub open spec fn frames_run(
    l: Seq<Event>,
    p: int,
    bindings: Bindings,
    ptr: usize,
    count: nat,
    frames: Seq<FrameView>,
    copy_locals: bool,
    lineno: LineNo,
) -> Run<Seq<FrameView>>
    decreases 4096 - count,
{
    if ptr == 0 {
        done(shim_entry(frames), p)
    } else if count >= 4096 {
        failed(seq![Cause::Message("Max frame recursion depth reached")], p)
    } else {
        let read = with_context(
            struct_at::<FrameObject>(l, p, bindings, ptr),
            "Failed to copy PyFrameObject",
        );
        match read.out {
            Err(causes) => failed(causes, read.next),
            Ok(frame) => if frame.is_shim {
                frames_run(
                    l,
                    read.next,
                    bindings,
                    frame.back,
                    count + 1,
                    shim_entry(frames),
                    copy_locals,
                    lineno,
                )
            } else {
                let copied = frame_run(
                    l,
                    read.next,
                    bindings,
                    ptr,
                    frame,
                    copy_locals,
                    lineno,
                );
                match copied.out {
                    Err(causes) => failed(causes, copied.next),
                    Ok(kept) => frames_run(
                        l,
                        copied.next,
                        bindings,
                        frame.back,
                        count + 1,
                        match kept {
                            Some(view) => frames.push(view),
                            None => shim_entry(frames),
                        },
                        copy_locals,
                        lineno,
                    ),
                }
            },
        }
    }
}

/// Finds the innermost frame of a thread. Python 3.11+ has an extra level of indirection.
pub open spec fn root_run(l: Seq<Event>, p: int, thread: ThreadState) -> Run<usize> {
    match thread.frame {
        FrameRoot::Direct(ptr) => done(ptr, p),
        FrameRoot::Indirect(addr) => word_at(l, p, addr),
    }
}

/// Copies the frames of a thread.
pub open spec fn thread_frames_run(
    l: Seq<Event>,
    p: int,
    bindings: Bindings,
    thread: ThreadState,
    copy_locals: bool,
    lineno: LineNo,
) -> Run<Seq<FrameView>> {
    let root = root_run(l, p, thread);
    match root.out {
        Err(causes) => failed(causes, root.next),
        Ok(ptr) => frames_run(
            l,
            root.next,
            bindings,
            ptr,
            0,
            Seq::empty(),
            copy_locals,
            lineno,
        ),
    }
}

/// The run that came to these frames, and left the log as `log`.
pub open spec fn ran_frames(r: Result<Vec<Frame>, Error>, log: Seq<Event>) -> Run<Seq<FrameView>> {
    match r {
        Ok(frames) => done(frame_views(frames@), log.len() as int),
        Err(e) => failed(e@, log.len() as int),
    }
}

fn copy_frames<P: ProcessMemory>(
    bindings: Bindings,
    thread: &ThreadState,
    process: &mut Target<P>,
    copy_locals: bool,
    lineno: LineNo,
) -> (r: Result<Vec<Frame>, Error>)
    ensures
        continued(*old(process), *final(process)),
        forall|l: Seq<Event>|
            grown(final(process).log(), l) ==> #[trigger] thread_frames_run(
                l,
                old(process).log().len() as int,
                bindings,
                *thread,
                copy_locals,
                lineno,
            ) == ran_frames(r, final(process).log()),
{
    let mut frames: Vec<Frame> = Vec::new();
    let mut frame_ptr: usize = match thread.frame {
        FrameRoot::Direct(ptr) => ptr,
        FrameRoot::Indirect(addr) => match process.word(addr) {
            Ok(ptr) => ptr,
            Err(e) => {
                return Err(e);
            },
        },
    };
    // Count skipped shims too, so a corrupt chain cannot loop forever.
    let mut frame_count: usize = 0;
    let ghost start = old(process).log().len() as int;
    assert(frame_views(frames@) =~= Seq::<FrameView>::empty());
    while frame_ptr != 0
        invariant
            frame_count <= 4096,
            continued(*old(process), *process),
            start == old(process).log().len(),
            forall|l: Seq<Event>|
                grown(process.log(), l) ==> #[trigger] thread_frames_run(
                    l,
                    start,
                    bindings,
                    *thread,
                    copy_locals,
                    lineno,
                ) == frames_run(
                    l,
                    process.log().len() as int,
                    bindings,
                    frame_ptr,
                    frame_count as nat,
                    frame_views(frames@),
                    copy_locals,
                    lineno,
                ),
        decreases 4096 - frame_count,
    {
        let ghost kept = frame_views(frames@);
        if frame_count >= 4096 {
            return Err(Error::msg("Max frame recursion depth reached"));
        }
        frame_count = frame_count + 1;
        let frame: FrameObject = match process.copy_struct(bindings, frame_ptr) {
            Ok(frame) => frame,
            Err(e) => {
                return Err(e.context("Failed to copy PyFrameObject"));
            },
        };
        // C-stack shim frames may not contain a code object (Python 3.13+).
        // Identify them before reading code or strings, so real read errors propagate.
        if frame.is_shim {
            set_last_frame_as_shim_entry(&mut frames);
        } else {
            match copy_frame(bindings, frame_ptr, &frame, process, copy_locals, lineno) {
                Ok(Some(copied)) => {
                    frames.push(copied);
                    assert(frame_views(frames@) =~= kept.push(copied@));
                },
                Ok(None) => {
                    set_last_frame_as_shim_entry(&mut frames);
                },
                Err(e) => {
                    return Err(e);
                },
            }
        }
        frame_ptr = frame.back;
    }
    // First frame is always a shim
    set_last_frame_as_shim_entry(&mut frames);
    Ok(frames)
}

/// The trace of a thread that has these frames.
pub open spec fn thread_trace(thread: ThreadState, frames: Seq<FrameView>) -> TraceView {
    TraceView {
        pid: 0,
        thread_id: thread.thread_id,
        thread_name: None,
        os_thread_id: thread.native_thread_id,
        active: true,
        owns_gil: false,
        error: false,
        frames,
        process_info: None,
    }
}

/// Gets the stack trace of a thread.
pub open spec fn trace_run(
    l: Seq<Event>,
    p: int,
    bindings: Bindings,
    thread: ThreadState,
    copy_locals: bool,
    lineno: LineNo,
) -> Run<TraceView> {
    let run = thread_frames_run(l, p, bindings, thread, copy_locals, lineno);
    match run.out {
        Err(causes) => failed(causes, run.next),
        Ok(frames) => done(thread_trace(thread, frames), run.next),
    }
}

/// Gets a stack trace for an individual thread
pub fn get_stack_trace<P: ProcessMemory>(
    bindings: Bindings,
    thread: &ThreadState,
    process: &mut Target<P>,
    copy_locals: bool,
    lineno: LineNo,
) -> (r: Result<StackTrace, Error>)
    ensures
        continued(*old(process), *final(process)),
        forall|l: Seq<Event>|
            grown(final(process).log(), l) ==> #[trigger] trace_run(
                l,
                old(process).log().len() as int,
                bindings,
                *thread,
                copy_locals,
                lineno,
            ) == ran_view(r, final(process).log()),
{
    match copy_frames(bindings, thread, process, copy_locals, lineno) {
        Ok(frames) => Ok(
            StackTrace {
                pid: 0,
                frames,
                thread_id: thread.thread_id,
                thread_name: None,
                owns_gil: false,
                error: false,
                active: true,
                os_thread_id: thread.native_thread_id,
                process_info: None,
            },
        ),
        Err(e) => Err(e),
    }
}

/// The frame that stands in for a stack that could not be unwound.
pub open spec fn error_frame() -> FrameView {
    FrameView {
        name: "<error>"@,
        filename: Seq::empty(),
        module: None,
        short_filename: None,
        line: 0,
        locals: None,
        is_entry: false,
        is_shim_entry: false,
    }
}

/// The trace of a thread whose stack could not be unwound.
pub open spec fn error_trace(thread: ThreadState) -> TraceView {
    TraceView { error: true, ..thread_trace(thread, seq![error_frame()]) }
}

/// What is reported of a thread, given how getting its trace went.
pub open spec fn sampled(run: Run<TraceView>, thread: ThreadState) -> TraceView {
    match run.out {
        Ok(trace) => trace,
        Err(_) => error_trace(thread),
    }
}

/// Samples a thread without letting an unwind failure discard the other threads.
/// Interpreter discovery uses the fallible `get_stack_trace` instead.
pub fn get_stack_trace_or_error<P: ProcessMemory>(
    bindings: Bindings,
    thread: &ThreadState,
    process: &mut Target<P>,
    copy_locals: bool,
    lineno: LineNo,
) -> (r: StackTrace)
    ensures
        continued(*old(process), *final(process)),
        forall|l: Seq<Event>|
            grown(final(process).log(), l) ==> {
                let run = #[trigger] trace_run(
                    l,
                    old(process).log().len() as int,
                    bindings,
                    *thread,
                    copy_locals,
                    lineno,
                );
                &&& run.next == final(process).log().len()
                &&& r@ == sampled(run, *thread)
            },
{
    match get_stack_trace(bindings, thread, process, copy_locals, lineno) {
        Ok(trace) => trace,
        Err(_) => {
            let mut frames: Vec<Frame> = Vec::new();
            frames.push(
                Frame {
                    name: "<error>".to_owned(),
                    filename: String::new(),
                    module: None,
                    short_filename: None,
                    line: 0,
                    locals: None,
                    is_entry: false,
                    is_shim_entry: false,
                },
            );
            assert(frame_views(frames@) =~= seq![error_frame()]);
            StackTrace {
                pid: 0,
                thread_id: thread.thread_id,
                thread_name: None,
                os_thread_id: thread.native_thread_id,
                active: true,
                owns_gil: false,
                error: true,
                frames,
                process_info: None,
            }
        },
    }
}

/// Finds the thread state that holds the GIL, or zero where none does.
pub open spec fn gil_holder_run(
    l: Seq<Event>,
    p: int,
    bindings: Bindings,
    threadstate_address: usize,
) -> Run<usize> {
    let interpreter = interpreter_at(l, p, bindings);
    match interpreter.out {
        Err(causes) => failed(causes, interpreter.next),
        Ok(state) => if state.has_gil_runtime_state {
            let gil = struct_at::<GilState>(
                l,
                interpreter.next,
                Bindings::V3_13_0,
                threadstate_address,
            );
            match gil.out {
                Err(causes) => failed(causes, gil.next),
                Ok(gil_state) => done(
                    if gil_state.locked != 0 {
                        gil_state.last_holder
                    } else {
                        0
                    },
                    gil.next,
                ),
            }
        } else {
            word_at(l, interpreter.next, threadstate_address)
        },
    }
}

/// Finds the id of the thread that holds the GIL. It is zero where no thread does, or where it
/// is not known yet where to look.
pub open spec fn gil_run(
    l: Seq<Event>,
    p: int,
    bindings: Bindings,
    threadstate_address: usize,
) -> Run<u64> {
    if threadstate_address == 0 {
        done(0, p)
    } else {
        let holder = gil_holder_run(l, p, bindings, threadstate_address);
        match holder.out {
            Err(causes) => failed(causes, holder.next),
            Ok(addr) => if addr == 0 {
                done(0, holder.next)
            } else {
                let thread = struct_at::<ThreadState>(l, holder.next, bindings, addr);
                match thread.out {
                    Err(causes) => failed(causes, thread.next),
                    Ok(state) => done(state.thread_id, thread.next),
                }
            },
        }
    }
}

/// Finds the id of the thread that holds the GIL.
pub fn get_gil_threadid<P: ProcessMemory>(
    bindings: Bindings,
    threadstate_address: usize,
    process: &mut Target<P>,
) -> (r: Result<u64, Error>)
    ensures
        continued(*old(process), *final(process)),
        forall|l: Seq<Event>|
            grown(final(process).log(), l) ==> #[trigger] gil_run(
                l,
                old(process).log().len() as int,
                bindings,
                threadstate_address,
            ) == ran(r, final(process).log()),
{
    // happens during initialization when checking to see if we have a valid interpreter (before
    // we've figured out the threadstate_address)
    if threadstate_address == 0 {
        return Ok(0);
    }
    let addr: usize = if process.interpreter(bindings).has_gil_runtime_state {
        // note that this struct is identical between 3.12/3.13/3.14
        let gil_state: GilState = match process.copy_struct(
            Bindings::V3_13_0,
            threadstate_address,
        ) {
            Ok(gil_state) => gil_state,
            Err(e) => {
                return Err(e);
            },
        };
        // check to see if the GIL is locked already
        if gil_state.locked != 0 {
            gil_state.last_holder
        } else {
            0
        }
    } else {
        match process.word(threadstate_address) {
            Ok(addr) => addr,
            Err(e) => {
                return Err(e);
            },
        }
    };
    // if the addr is 0, no thread is currently holding the GIL
    if addr != 0 {
        let read: Result<ThreadState, Error> = process.copy_struct(bindings, addr);
        match read {
            Ok(threadstate) => Ok(threadstate.thread_id),
            Err(e) => Err(e),
        }
    } else {
        Ok(0)
    }
}

/// Gets the traces of the threads from the one at `ptr` on, after those in `traces`.
pub open spec fn threads_run(
    l: Seq<Event>,
    p: int,
    bindings: Bindings,
    ptr: usize,
    gil_thread_id: u64,
    traces: Seq<TraceView>,
    copy_locals: bool,
    lineno: LineNo,
) -> Run<Seq<TraceView>>
    decreases 4097 - traces.len(),
{
    if ptr == 0 {
        done(traces, p)
    } else {
        let read = with_context(
            struct_at::<ThreadState>(l, p, bindings, ptr),
            "Failed to copy PyThreadState",
        );
        match read.out {
            Err(causes) => failed(causes, read.next),
            Ok(thread) => {
                let run = trace_run(l, read.next, bindings, thread, copy_locals, lineno);
                match run.out {
                    Err(causes) => failed(causes, run.next),
                    Ok(trace) => if traces.len() >= 4096 {
                        failed(
                            seq![Cause::Message("Max thread recursion depth reached")],
                            run.next,
                        )
                    } else {
                        threads_run(
                            l,
                            run.next,
                            bindings,
                            thread.next,
                            gil_thread_id,
                            traces.push(
                                TraceView { owns_gil: thread.thread_id == gil_thread_id, ..trace },
                            ),
                            copy_locals,
                            lineno,
                        )
                    },
                }
            },
        }
    }
}

/// Which line numbers are wanted.
pub open spec fn wanted_lineno(config: Option<&Config>) -> LineNo {
    match config {
        Some(c) => c.lineno,
        None => LineNo::NoLine,
    }
}

/// Whether local variables are wanted.
pub open spec fn wants_locals(config: Option<&Config>) -> bool {
    match config {
        Some(c) => c.dump_locals > 0,
        None => false,
    }
}

/// Gets the traces of all threads of an interpreter.
pub open spec fn traces_run(
    l: Seq<Event>,
    p: int,
    bindings: Bindings,
    interpreter_address: usize,
    threadstate_address: usize,
    config: Option<&Config>,
) -> Run<Seq<TraceView>> {
    let gil = gil_run(l, p, bindings, threadstate_address);
    match gil.out {
        Err(causes) => failed(causes, gil.next),
        Ok(gil_thread_id) => {
            let interpreter = interpreter_at(l, gil.next, bindings);
            match interpreter.out {
                Err(causes) => failed(causes, interpreter.next),
                Ok(state) => {
                    let head = with_context(
                        word_at(
                            l,
                            interpreter.next,
                            interpreter_address.wrapping_add(state.threadstate),
                        ),
                        "Failed to copy PyThreadState head pointer",
                    );
                    match head.out {
                        Err(causes) => failed(causes, head.next),
                        Ok(ptr) => threads_run(
                            l,
                            head.next,
                            bindings,
                            ptr,
                            gil_thread_id,
                            Seq::empty(),
                            wants_locals(config),
                            wanted_lineno(config),
                        ),
                    }
                },
            }
        },
    }
}

/// The run that came to these traces, and left the log as `log`.
pub open spec fn ran_traces(r: Result<Vec<StackTrace>, Error>, log: Seq<Event>) -> Run<
    Seq<TraceView>,
> {
    match r {
        Ok(traces) => done(trace_views(traces@), log.len() as int),
        Err(e) => failed(e@, log.len() as int),
    }
}

/// Given an interpreter state, this function returns a vector of stack traces for each thread
pub fn get_stack_traces<P: ProcessMemory>(
    bindings: Bindings,
    interpreter_address: usize,
    process: &mut Target<P>,
    threadstate_address: usize,
    config: Option<&Config>,
) -> (r: Result<Vec<StackTrace>, Error>)
    ensures
        continued(*old(process), *final(process)),
        forall|l: Seq<Event>|
            grown(final(process).log(), l) ==> #[trigger] traces_run(
                l,
                old(process).log().len() as int,
                bindings,
                interpreter_address,
                threadstate_address,
                config,
            ) == ran_traces(r, final(process).log()),
{
    let gil_thread_id: u64 = match get_gil_threadid(bindings, threadstate_address, process) {
        Ok(id) => id,
        Err(e) => {
            return Err(e);
        },
    };
    let head: usize = interpreter_address.wrapping_add(process.interpreter(bindings).threadstate);
    let mut threads: usize = match process.word(head) {
        Ok(ptr) => ptr,
        Err(e) => {
            return Err(e.context("Failed to copy PyThreadState head pointer"));
        },
    };
    let (lineno, copy_locals) = match config {
        Some(c) => (c.lineno, c.dump_locals > 0),
        None => (LineNo::NoLine, false),
    };
    let mut ret: Vec<StackTrace> = Vec::new();
    let ghost start = old(process).log().len() as int;
    assert(trace_views(ret@) =~= Seq::<TraceView>::empty());
    while threads != 0
        invariant
            ret@.len() <= 4096,
            continued(*old(process), *process),
            start == old(process).log().len(),
            forall|l: Seq<Event>|
                grown(process.log(), l) ==> #[trigger] traces_run(
                    l,
                    start,
                    bindings,
                    interpreter_address,
                    threadstate_address,
                    config,
                ) == threads_run(
                    l,
                    process.log().len() as int,
                    bindings,
                    threads,
                    gil_thread_id,
                    trace_views(ret@),
                    copy_locals,
                    lineno,
                ),
        decreases 4097 - ret@.len(),
    {
        let ghost traces = trace_views(ret@);
        let thread: ThreadState = match process.copy_struct(bindings, threads) {
            Ok(thread) => thread,
            Err(e) => {
                return Err(e.context("Failed to copy PyThreadState"));
            },
        };
        let mut trace = match get_stack_trace(bindings, &thread, process, copy_locals, lineno) {
            Ok(trace) => trace,
            Err(e) => {
                return Err(e);
            },
        };
        trace.owns_gil = trace.thread_id == gil_thread_id;
        ret.push(trace);
        assert(trace_views(ret@) =~= traces.push(trace@));
        // This seems to happen occasionally when scanning BSS addresses for valid interpreters
        if ret.len() > 4096 {
            return Err(Error::msg("Max thread recursion depth reached"));
        }
        threads = thread.next;
    }
    Ok(ret)
}

/// A thread id in the form that pthread ids are usually written in.
pub open spec fn threadid_text(thread_id: u64) -> Seq<char> {
    "0x"@ + upper_hex_text(thread_id as nat)
}

/// What a thread is doing.
pub open spec fn status_text(active: bool, owns_gil: bool) -> Seq<char> {
    if !active {
        "idle"@
    } else if owns_gil {
        "active+gil"@
    } else {
        "active"@
    }
}

/// The id that is shown for a thread.
pub open spec fn shown_threadid(os_thread_id: Option<u64>, thread_id: u64, macos: bool) -> Seq<char> {
    match os_thread_id {
        Some(tid) if !macos => decimal_text(tid as int),
        _ => threadid_text(thread_id),
    }
}

/// The frame that stands for a process.
pub open spec fn process_frame(pid: int, command_line: Seq<char>) -> FrameView {
    FrameView {
        name: "process "@ + decimal_text(pid) + ":\""@ + command_line + "\""@,
        filename: Seq::empty(),
        module: None,
        short_filename: None,
        line: 0,
        locals: None,
        is_entry: true,
        is_shim_entry: true,
    }
}

impl StackTrace {
    pub fn status_str(&self) -> (r: &'static str)
        ensures
            r@ == status_text(self.active, self.owns_gil),
    {
        match (self.owns_gil, self.active) {
            (_, false) => "idle",
            (true, true) => "active+gil",
            (false, true) => "active",
        }
    }

    /// The native thread id if it is known, and the python thread id otherwise. Native threadids in
    /// osx are kinda useless, so that on `macos` it is the python thread id, which is the pthread id,
    /// in any case.
    pub fn format_threadid(&self, macos: bool) -> (r: String)
        ensures
            r@ == shown_threadid(self.os_thread_id, self.thread_id, macos),
    {
        match self.os_thread_id {
            Some(tid) if !macos => decimal(tid as i128),
            _ => "0x".to_owned().concat(upper_hex(self.thread_id).as_str()),
        }
    }
}

impl ProcessInfo {
    /// A frame that stands for the process itself, outside of all others.
    pub fn to_frame(&self) -> (r: Frame)
        ensures
            r@ == process_frame(self.pid as int, self.command_line@),
    {
        Frame {
            name: "process ".to_owned().concat(decimal(self.pid as i128).as_str()).concat(
                ":\"",
            ).concat(self.command_line.as_str()).concat("\""),
            filename: String::new(),
            module: None,
            short_filename: None,
            line: 0,
            locals: None,
            is_entry: true,
            is_shim_entry: true,
        }
    }
}

/// Whether this is a frame as stack traces report it.
pub open spec fn reported_frame(frame: FrameView, copy_locals: bool, lineno: LineNo) -> bool {
    &&& !is_shim_filename(frame.filename)
    &&& frame.module is None
    &&& frame.short_filename is None
    &&& frame.locals is Some <==> copy_locals
    &&& lineno == LineNo::NoLine ==> frame.line == 0
}

proof fn lemma_frame_run_reports(
    l: Seq<Event>,
    p: int,
    bindings: Bindings,
    frameptr: usize,
    frame: FrameObject,
    copy_locals: bool,
    lineno: LineNo,
)
    ensures
        frame_run(l, p, bindings, frameptr, frame, copy_locals, lineno).out matches Ok(Some(view))
            ==> reported_frame(view, copy_locals, lineno),
{
}

proof fn lemma_frames_run_reports(
    l: Seq<Event>,
    p: int,
    bindings: Bindings,
    ptr: usize,
    count: nat,
    frames: Seq<FrameView>,
    copy_locals: bool,
    lineno: LineNo,
)
    requires
        frames.len() <= count <= 4096,
        forall|i: int|
            0 <= i < frames.len() ==> reported_frame(#[trigger] frames[i], copy_locals, lineno),
    ensures
        frames_run(l, p, bindings, ptr, count, frames, copy_locals, lineno).out matches Ok(kept)
            ==> {
            &&& kept.len() <= 4096
            &&& forall|i: int|
                0 <= i < kept.len() ==> reported_frame(#[trigger] kept[i], copy_locals, lineno)
            &&& kept.len() > 0 ==> kept.last().is_shim_entry
        },
    decreases 4096 - count,
{
    if ptr != 0 && count < 4096 {
        let read = with_context(
            struct_at::<FrameObject>(l, p, bindings, ptr),
            "Failed to copy PyFrameObject",
        );
        if let Ok(frame) = read.out {
            if frame.is_shim {
                lemma_frames_run_reports(
                    l,
                    read.next,
                    bindings,
                    frame.back,
                    count + 1,
                    shim_entry(frames),
                    copy_locals,
                    lineno,
                );
            } else {
                let copied = frame_run(l, read.next, bindings, ptr, frame, copy_locals, lineno);
                lemma_frame_run_reports(
                    l,
                    read.next,
                    bindings,
                    ptr,
                    frame,
                    copy_locals,
                    lineno,
                );
                if let Ok(kept) = copied.out {
                    let next = match kept {
                        Some(view) => frames.push(view),
                        None => shim_entry(frames),
                    };
                    lemma_frames_run_reports(
                        l,
                        copied.next,
                        bindings,
                        frame.back,
                        count + 1,
                        next,
                        copy_locals,
                        lineno,
                    );
                }
            }
        }
    }
}

/// A trace that was gotten is no error trace, carries the ids of its thread, has at most 4096
/// frames, none of them a shim, and its outermost frame is the entry from a shim.
pub proof fn law_trace(
    l: Seq<Event>,
    p: int,
    bindings: Bindings,
    thread: ThreadState,
    copy_locals: bool,
    lineno: LineNo,
)
    ensures
        trace_run(l, p, bindings, thread, copy_locals, lineno).out matches Ok(trace) ==> {
            &&& !trace.error
            &&& trace.active
            &&& !trace.owns_gil
            &&& trace.pid == 0
            &&& trace.thread_id == thread.thread_id
            &&& trace.os_thread_id == thread.native_thread_id
            &&& trace.thread_name is None
            &&& trace.process_info is None
            &&& trace.frames.len() <= 4096
            &&& forall|i: int|
                0 <= i < trace.frames.len() ==> reported_frame(
                    #[trigger] trace.frames[i],
                    copy_locals,
                    lineno,
                )
            &&& trace.frames.len() > 0 ==> trace.frames.last().is_shim_entry
        },
{
    let root = root_run(l, p, thread);
    if let Ok(ptr) = root.out {
        lemma_frames_run_reports(
            l,
            root.next,
            bindings,
            ptr,
            0,
            Seq::empty(),
            copy_locals,
            lineno,
        );
    }
}

/// A sampled thread is reported as an error exactly where unwinding it failed. The trace then
/// holds the one synthetic frame and nothing of what was unwound before the failure, and still
/// carries the ids of the thread.
pub proof fn law_error_trace(
    l: Seq<Event>,
    p: int,
    bindings: Bindings,
    thread: ThreadState,
    copy_locals: bool,
    lineno: LineNo,
)
    ensures
        ({
            let run = trace_run(l, p, bindings, thread, copy_locals, lineno);
            let trace = sampled(run, thread);
            &&& trace.error <==> run.out is Err
            &&& trace.error ==> trace.frames == seq![error_frame()]
            &&& !trace.error ==> run.out == Ok::<TraceView, Seq<Cause>>(trace)
            &&& trace.active
            &&& trace.thread_id == thread.thread_id
            &&& trace.os_thread_id == thread.native_thread_id
        }),
{
}

/// A shim costs the one read that shows it to be one: its code and strings are not read. It marks
/// the last frame that was kept.
pub proof fn law_shim_costs_one_read(
    l: Seq<Event>,
    p: int,
    bindings: Bindings,
    ptr: usize,
    count: nat,
    frames: Seq<FrameView>,
    copy_locals: bool,
    lineno: LineNo,
    shim: FrameObject,
)
    requires
        ptr != 0,
        count < 4096,
        struct_at::<FrameObject>(l, p, bindings, ptr) == done(shim, p + 1),
        shim.is_shim,
    ensures
        frames_run(l, p, bindings, ptr, count, frames, copy_locals, lineno) == frames_run(
            l,
            p + 1,
            bindings,
            shim.back,
            count + 1,
            shim_entry(frames),
            copy_locals,
            lineno,
        ),
{
}

/// A chain of shims that never ends is given up once the depth limit is reached, after one read
/// for each shim.
pub proof fn law_shim_cycle_hits_limit(
    l: Seq<Event>,
    p: int,
    bindings: Bindings,
    ptr: usize,
    count: nat,
    frames: Seq<FrameView>,
    copy_locals: bool,
    lineno: LineNo,
    shims: Seq<FrameObject>,
)
    requires
        ptr != 0,
        count <= 4096,
        shims.len() == 4096 - count,
        forall|i: int|
            0 <= i < shims.len() ==> (#[trigger] shims[i]).is_shim && shims[i].back != 0
                && struct_at::<FrameObject>(
                l,
                p + i,
                bindings,
                if i == 0 {
                    ptr
                } else {
                    shims[i - 1].back
                },
            ) == done(shims[i], p + i + 1),
    ensures
        frames_run(l, p, bindings, ptr, count, frames, copy_locals, lineno) == failed::<
            Seq<FrameView>,
        >(seq![Cause::Message("Max frame recursion depth reached")], p + shims.len()),
    decreases 4096 - count,
{
    if count < 4096 {
        let shim = shims[0];
        let rest = shims.skip(1);
        assert forall|i: int| 0 <= i < rest.len() implies (#[trigger] rest[i]).is_shim
            && rest[i].back != 0 && struct_at::<FrameObject>(
            l,
            p + 1 + i,
            bindings,
            if i == 0 {
                shim.back
            } else {
                rest[i - 1].back
            },
        ) == done(rest[i], p + 1 + i + 1) by {
            assert(rest[i] == shims[i + 1]);
            assert(p + 1 + i == p + (i + 1));
        }
        law_shim_cycle_hits_limit(
            l,
            p + 1,
            bindings,
            shim.back,
            count + 1,
            shim_entry(frames),
            copy_locals,
            lineno,
            rest,
        );
    }
}

/// Failing to look up a line is never fatal: the frame then has line zero.
pub proof fn law_line_number_is_not_fatal(
    l: Seq<Event>,
    p: int,
    bindings: Bindings,
    code: CodeObject,
    lasti: i32,
    lineno: LineNo,
)
    ensures
        frame_line_run(l, p, bindings, code, lasti, lineno).out is Ok,
        line_run(l, p, bindings, code, lasti).out is Err ==> frame_line_run(
            l,
            p,
            bindings,
            code,
            lasti,
            LineNo::LastInstruction,
        ).out == Ok::<i32, Seq<Cause>>(0),
{
}

/// A function goes by its qualified name where that can be copied, and by its plain name where
/// not; only where neither can be copied is there no name.
pub proof fn law_name_fallback(l: Seq<Event>, p: int, bindings: Bindings, code: CodeObject)
    ensures
        code.qualname matches Some(ptr) ==> {
            let qualname = string_run(l, p, bindings, ptr, true);
            let plain = string_run(l, qualname.next, bindings, code.name, true);
            let name = name_run(l, p, bindings, code);
            &&& qualname.out is Ok ==> name == qualname
            &&& qualname.out is Err ==> name == plain
            &&& name.out is Err <==> qualname.out is Err && plain.out is Err
        },
        code.qualname is None ==> name_run(l, p, bindings, code) == string_run(
            l,
            p,
            bindings,
            code.name,
            true,
        ),
{
}

/// A file name that is no valid string fails the frame with an error that still tells so, behind
/// all the context that was added.
pub proof fn law_invalid_filename_is_reported(
    l: Seq<Event>,
    p: int,
    bindings: Bindings,
    frameptr: usize,
    frame: FrameObject,
    code: CodeObject,
    copy_locals: bool,
    lineno: LineNo,
)
    requires
        struct_at::<CodeObject>(l, p, bindings, frame.code) == done(code, p + 1),
        string_run(l, p + 1, bindings, code.filename, true).out is Err,
    ensures
        frame_run(l, p, bindings, frameptr, frame, copy_locals, lineno).out is Err,
        holds_invalid_string(
            frame_run(l, p, bindings, frameptr, frame, copy_locals, lineno).out->Err_0,
        ) == holds_invalid_string(
            string_run(l, p + 1, bindings, code.filename, true).out->Err_0,
        ),
{
    law_added_context_keeps_invalid_string(
        string_run(l, p + 1, bindings, code.filename, true),
        "Failed to copy filename",
    );
}

/// Where it is not known yet where to look for the GIL nothing is read, and where nobody holds
/// it no thread is looked at: the id is zero in both cases.
pub proof fn law_no_gil_holder(
    l: Seq<Event>,
    p: int,
    bindings: Bindings,
    threadstate_address: usize,
)
    ensures
        gil_run(l, p, bindings, 0) == done(0u64, p),
        ({
            let holder = gil_holder_run(l, p, bindings, threadstate_address);
            threadstate_address != 0 && holder.out == Ok::<usize, Seq<Cause>>(0) ==> gil_run(
                l,
                p,
                bindings,
                threadstate_address,
            ) == done(0u64, holder.next)
        }),
{
}

proof fn lemma_threads_run(
    l: Seq<Event>,
    p: int,
    bindings: Bindings,
    ptr: usize,
    gil_thread_id: u64,
    traces: Seq<TraceView>,
    copy_locals: bool,
    lineno: LineNo,
)
    requires
        traces.len() <= 4096,
        forall|i: int|
            0 <= i < traces.len() ==> !(#[trigger] traces[i]).error && (traces[i].owns_gil
                <==> traces[i].thread_id == gil_thread_id),
    ensures
        threads_run(l, p, bindings, ptr, gil_thread_id, traces, copy_locals, lineno).out matches Ok(
            all,
        ) ==> {
            &&& all.len() <= 4096
            &&& forall|i: int|
                0 <= i < all.len() ==> !(#[trigger] all[i]).error && (all[i].owns_gil
                    <==> all[i].thread_id == gil_thread_id)
        },
    decreases 4097 - traces.len(),
{
    if ptr != 0 {
        let read = with_context(
            struct_at::<ThreadState>(l, p, bindings, ptr),
            "Failed to copy PyThreadState",
        );
        if let Ok(thread) = read.out {
            let run = trace_run(l, read.next, bindings, thread, copy_locals, lineno);
            if let Ok(trace) = run.out {
                if traces.len() < 4096 {
                    lemma_threads_run(
                        l,
                        run.next,
                        bindings,
                        thread.next,
                        gil_thread_id,
                        traces.push(
                            TraceView { owns_gil: thread.thread_id == gil_thread_id, ..trace },
                        ),
                        copy_locals,
                        lineno,
                    );
                }
            }
        }
    }
}

/// The traces of an interpreter are at most 4096, none of them is an error trace, and a thread
/// owns the GIL exactly where its id is that of the GIL's holder.
pub proof fn law_traces(
    l: Seq<Event>,
    p: int,
    bindings: Bindings,
    interpreter_address: usize,
    threadstate_address: usize,
    config: Option<&Config>,
)
    ensures
        traces_run(
            l,
            p,
            bindings,
            interpreter_address,
            threadstate_address,
            config,
        ).out matches Ok(traces) ==> {
            let gil = gil_run(l, p, bindings, threadstate_address);
            &&& gil.out is Ok
            &&& traces.len() <= 4096
            &&& forall|i: int|
                0 <= i < traces.len() ==> !(#[trigger] traces[i]).error && (traces[i].owns_gil
                    <==> traces[i].thread_id == gil.out->Ok_0)
        },
{
    let gil = gil_run(l, p, bindings, threadstate_address);
    if let Ok(gil_thread_id) = gil.out {
        let interpreter = interpreter_at(l, gil.next, bindings);
        if let Ok(state) = interpreter.out {
            let head = with_context(
                word_at(l, interpreter.next, interpreter_address.wrapping_add(state.threadstate)),
                "Failed to copy PyThreadState head pointer",
            );
            if let Ok(ptr) = head.out {
                lemma_threads_run(
                    l,
                    head.next,
                    bindings,
                    ptr,
                    gil_thread_id,
                    Seq::empty(),
                    wants_locals(config),
                    wanted_lineno(config),
                );
            }
        }
    }
}

/// Whether these can be the first `limit` local variables of a frame, as far as they have values.
spec fn locals_fit(locals: Seq<LocalView>, limit: int) -> bool {
    &&& locals.len() <= limit
    &&& forall|i: int|
        0 <= i < locals.len() ==> (#[trigger] locals[i]).addr != 0 && locals[i].addr % 2 == 0
            && locals[i].repr is None
    &&& forall|i: int, j: int|
        0 <= i < j < locals.len() ==> (#[trigger] locals[j]).arg ==> (#[trigger] locals[i]).arg
}

proof fn lemma_locals_from_run(
    l: Seq<Event>,
    p: int,
    bindings: Bindings,
    names: usize,
    values: usize,
    argcount: usize,
    i: usize,
    count: usize,
    found: Seq<LocalView>,
)
    requires
        i <= count,
        locals_fit(found, i as int),
        i < argcount ==> forall|k: int| 0 <= k < found.len() ==> (#[trigger] found[k]).arg,
    ensures
        locals_from_run(l, p, bindings, names, values, argcount, i, count, found).out matches Ok(
            locals,
        ) ==> locals_fit(locals, count as int),
    decreases count - i,
{
    if i < count {
        let nameptr = word_at(l, p, names.wrapping_add(i.wrapping_mul(word_size())));
        if let Ok(ptr) = nameptr.out {
            let name = with_context(
                string_run(l, nameptr.next, bindings, ptr, true),
                "Failed to copy local variable name",
            );
            if let Ok(text) = name.out {
                let value = word_at(
                    l,
                    name.next,
                    values.wrapping_add(i.wrapping_mul(word_size())),
                );
                if let Ok(addr) = value.out {
                    let next = if untagged(addr) == 0 {
                        found
                    } else {
                        found.push(
                            LocalView {
                                name: text,
                                addr: untagged(addr),
                                arg: i < argcount,
                                repr: None,
                            },
                        )
                    };
                    lemma_locals_from_run(
                        l,
                        value.next,
                        bindings,
                        names,
                        values,
                        argcount,
                        (i + 1) as usize,
                        count,
                        next,
                    );
                }
            }
        }
    }
}

/// The local variables of a frame are no more than its code declares, each has a value, at an
/// address without a tag, and arguments come before all others.
pub proof fn law_locals(
    l: Seq<Event>,
    p: int,
    bindings: Bindings,
    code: CodeObject,
    frameptr: usize,
    frame: FrameObject,
)
    ensures
        locals_run(l, p, bindings, code, frameptr, frame).out matches Ok(locals) ==> {
            &&& locals.len() <= code.nlocals as usize
            &&& forall|i: int|
                0 <= i < locals.len() ==> (#[trigger] locals[i]).addr != 0 && locals[i].addr % 2
                    == 0 && locals[i].repr is None
            &&& forall|i: int, j: int|
                0 <= i < j < locals.len() ==> (#[trigger] locals[j]).arg ==> (
                #[trigger] locals[i]).arg
        },
{
    let varnames = with_context(
        struct_at::<TupleObject>(l, p, bindings, code.varnames),
        "Failed to get varnames from PyCodeObject",
    );
    if let Ok(names) = varnames.out {
        lemma_locals_from_run(
            l,
            varnames.next,
            bindings,
            names.items,
            frameptr.wrapping_add(frame.size).wrapping_sub(word_size()),
            code.argcount as usize,
            0,
            code.nlocals as usize,
            Seq::empty(),
        );
    }
}

/// One frame of a chain: a shim, or a frame to be kept.
pub enum Link {
    Shim,
    Kept(FrameView),
}

/// The frame of a chain that came to this.
pub open spec fn link(kept: Option<FrameView>) -> Link {
    match kept {
        Some(view) => Link::Kept(view),
        None => Link::Shim,
    }
}

/// The frames of a chain from the one at `ptr` outwards, where `count` were read already.
pub open spec fn links_run(
    l: Seq<Event>,
    p: int,
    bindings: Bindings,
    ptr: usize,
    count: nat,
    copy_locals: bool,
    lineno: LineNo,
) -> Run<Seq<Link>>
    decreases 4096 - count,
{
    if ptr == 0 {
        done(Seq::empty(), p)
    } else if count >= 4096 {
        failed(seq![Cause::Message("Max frame recursion depth reached")], p)
    } else {
        let read = with_context(
            struct_at::<FrameObject>(l, p, bindings, ptr),
            "Failed to copy PyFrameObject",
        );
        match read.out {
            Err(causes) => failed(causes, read.next),
            Ok(frame) => {
                let copied = if frame.is_shim {
                    done(None, read.next)
                } else {
                    frame_run(l, read.next, bindings, ptr, frame, copy_locals, lineno)
                };
                match copied.out {
                    Err(causes) => failed(causes, copied.next),
                    Ok(kept) => {
                        let others = links_run(
                            l,
                            copied.next,
                            bindings,
                            frame.back,
                            count + 1,
                            copy_locals,
                            lineno,
                        );
                        match others.out {
                            Err(causes) => failed(causes, others.next),
                            Ok(links) => done(
                                seq![link(kept)] + links,
                                others.next,
                            ),
                        }
                    },
                }
            },
        }
    }
}

/// The frames of a chain that are kept, in its order, each marked as the entry from a shim exactly
/// where it ends the chain or a shim follows it.
pub open spec fn marked(links: Seq<Link>) -> Seq<FrameView>
    decreases links.len(),
{
    if links.len() == 0 {
        Seq::empty()
    } else {
        let rest = links.skip(1);
        match links[0] {
            Link::Shim => marked(rest),
            Link::Kept(view) => seq![
                FrameView { is_shim_entry: rest.len() == 0 || rest[0] is Shim, ..view },
            ] + marked(rest),
        }
    }
}

proof fn lemma_frame_run_unmarked(
    l: Seq<Event>,
    p: int,
    bindings: Bindings,
    frameptr: usize,
    frame: FrameObject,
    copy_locals: bool,
    lineno: LineNo,
)
    ensures
        frame_run(l, p, bindings, frameptr, frame, copy_locals, lineno).out matches Ok(Some(view))
            ==> !view.is_shim_entry,
{
}

/// The frames kept so far, as they are left by the rest of the chain.
spec fn left_by(frames: Seq<FrameView>, links: Seq<Link>) -> Seq<FrameView> {
    if links.len() == 0 || links[0] is Shim {
        shim_entry(frames)
    } else {
        frames
    }
}

/// The frames kept so far, with one more of the chain.
spec fn with_link(frames: Seq<FrameView>, kept: Option<FrameView>) -> Seq<FrameView> {
    match kept {
        Some(view) => frames.push(view),
        None => shim_entry(frames),
    }
}

proof fn lemma_marked_step(frames: Seq<FrameView>, kept: Option<FrameView>, links: Seq<Link>)
    requires
        kept matches Some(view) ==> !view.is_shim_entry,
    ensures
        left_by(with_link(frames, kept), links) + marked(links) == left_by(
            frames,
            seq![link(kept)] + links,
        ) + marked(seq![link(kept)] + links),
{
    let next = with_link(frames, kept);
    let all = seq![link(kept)] + links;
    assert(all.skip(1) =~= links);
    match kept {
        None => {
            assert(shim_entry(shim_entry(frames)) =~= shim_entry(frames));
        },
        Some(view) => {
            let last = FrameView { is_shim_entry: links.len() == 0 || links[0] is Shim, ..view };
            assert(left_by(next, links) =~= frames.push(last));
            assert(frames.push(last) + marked(links) =~= frames + (seq![last] + marked(links)));
        },
    }
}

proof fn lemma_frames_are_marked(
    l: Seq<Event>,
    p: int,
    bindings: Bindings,
    ptr: usize,
    count: nat,
    frames: Seq<FrameView>,
    copy_locals: bool,
    lineno: LineNo,
)
    requires
        count <= 4096,
    ensures
        ({
            let run = frames_run(l, p, bindings, ptr, count, frames, copy_locals, lineno);
            let chain = links_run(l, p, bindings, ptr, count, copy_locals, lineno);
            &&& run.next == chain.next
            &&& match chain.out {
                Err(causes) => run.out == Err::<Seq<FrameView>, Seq<Cause>>(causes),
                Ok(links) => run.out == Ok::<Seq<FrameView>, Seq<Cause>>(
                    left_by(frames, links) + marked(links),
                ),
            }
        }),
    decreases 4096 - count,
{
    if ptr == 0 {
        assert(shim_entry(frames) + marked(Seq::<Link>::empty()) =~= shim_entry(frames));
    } else if count < 4096 {
        let read = with_context(
            struct_at::<FrameObject>(l, p, bindings, ptr),
            "Failed to copy PyFrameObject",
        );
        if let Ok(frame) = read.out {
            let copied = if frame.is_shim {
                done(None, read.next)
            } else {
                frame_run(l, read.next, bindings, ptr, frame, copy_locals, lineno)
            };
            if let Ok(kept) = copied.out {
                lemma_frames_are_marked(
                    l,
                    copied.next,
                    bindings,
                    frame.back,
                    count + 1,
                    with_link(frames, kept),
                    copy_locals,
                    lineno,
                );
                let others = links_run(
                    l,
                    copied.next,
                    bindings,
                    frame.back,
                    count + 1,
                    copy_locals,
                    lineno,
                );
                if let Ok(links) = others.out {
                    lemma_frame_run_unmarked(
                        l,
                        read.next,
                        bindings,
                        ptr,
                        frame,
                        copy_locals,
                        lineno,
                    );
                    lemma_marked_step(frames, kept, links);
                }
            }
        }
    }
}

/// A trace can be gotten exactly where the whole chain of frames can be copied, and has one frame
/// for each frame of the chain that is no shim, in the order of the chain. A frame is marked as the
/// entry from a shim exactly where it is the last of the chain or a shim follows it.
pub proof fn law_trace_frames(
    l: Seq<Event>,
    p: int,
    bindings: Bindings,
    thread: ThreadState,
    copy_locals: bool,
    lineno: LineNo,
)
    ensures
        ({
            let run = trace_run(l, p, bindings, thread, copy_locals, lineno);
            let root = root_run(l, p, thread);
            match root.out {
                Err(causes) => run == failed::<TraceView>(causes, root.next),
                Ok(ptr) => {
                    let chain = links_run(
                        l,
                        root.next,
                        bindings,
                        ptr,
                        0,
                        copy_locals,
                        lineno,
                    );
                    match chain.out {
                        Err(causes) => run == failed::<TraceView>(causes, chain.next),
                        Ok(links) => run == done(
                            thread_trace(thread, marked(links)),
                            chain.next,
                        ),
                    }
                },
            }
        }),
{
    let root = root_run(l, p, thread);
    if let Ok(ptr) = root.out {
        let none = Seq::<FrameView>::empty();
        lemma_frames_are_marked(l, root.next, bindings, ptr, 0, none, copy_locals, lineno);
        let chain = links_run(l, root.next, bindings, ptr, 0, copy_locals, lineno);
        if let Ok(links) = chain.out {
            assert(none + marked(links) =~= marked(links));
        }
    }
}

/// Whether the list of threads from the one at `ptr` on is these threads, and these are their
/// traces: each thread and each trace could be read, one behind the other.
pub open spec fn threads_traced(
    l: Seq<Event>,
    p: int,
    bindings: Bindings,
    ptr: usize,
    threads: Seq<ThreadState>,
    traces: Seq<TraceView>,
    copy_locals: bool,
    lineno: LineNo,
) -> bool
    decreases threads.len(),
{
    if threads.len() == 0 {
        ptr == 0 && traces.len() == 0
    } else {
        let read = struct_at::<ThreadState>(l, p, bindings, ptr);
        let run = trace_run(l, read.next, bindings, threads[0], copy_locals, lineno);
        &&& ptr != 0
        &&& traces.len() == threads.len()
        &&& read.out == Ok::<ThreadState, Seq<Cause>>(threads[0])
        &&& run.out == Ok::<TraceView, Seq<Cause>>(traces[0])
        &&& threads_traced(
            l,
            run.next,
            bindings,
            threads[0].next,
            threads.skip(1),
            traces.skip(1),
            copy_locals,
            lineno,
        )
    }
}

/// The traces, with the owner of the GIL noted.
pub open spec fn with_gil_owner(traces: Seq<TraceView>, gil_thread_id: u64) -> Seq<TraceView> {
    Seq::new(
        traces.len(),
        |i: int| TraceView { owns_gil: traces[i].thread_id == gil_thread_id, ..traces[i] },
    )
}

proof fn lemma_traced_threads_are_given(
    l: Seq<Event>,
    p: int,
    bindings: Bindings,
    ptr: usize,
    gil_thread_id: u64,
    before: Seq<TraceView>,
    threads: Seq<ThreadState>,
    traces: Seq<TraceView>,
    copy_locals: bool,
    lineno: LineNo,
)
    requires
        threads_traced(l, p, bindings, ptr, threads, traces, copy_locals, lineno),
        before.len() + threads.len() <= 4096,
    ensures
        threads_run(l, p, bindings, ptr, gil_thread_id, before, copy_locals, lineno).out == Ok::<
            Seq<TraceView>,
            Seq<Cause>,
        >(before + with_gil_owner(traces, gil_thread_id)),
    decreases threads.len(),
{
    let owned = with_gil_owner(traces, gil_thread_id);
    if threads.len() == 0 {
        assert(before + owned =~= before);
    } else {
        let read = struct_at::<ThreadState>(l, p, bindings, ptr);
        let run = trace_run(l, read.next, bindings, threads[0], copy_locals, lineno);
        let next = before.push(
            TraceView { owns_gil: threads[0].thread_id == gil_thread_id, ..traces[0] },
        );
        lemma_traced_threads_are_given(
            l,
            run.next,
            bindings,
            threads[0].next,
            gil_thread_id,
            next,
            threads.skip(1),
            traces.skip(1),
            copy_locals,
            lineno,
        );
        assert(next + with_gil_owner(traces.skip(1), gil_thread_id) =~= before + owned);
    }
}

proof fn lemma_given_traces_are_traced(
    l: Seq<Event>,
    p: int,
    bindings: Bindings,
    ptr: usize,
    gil_thread_id: u64,
    before: Seq<TraceView>,
    copy_locals: bool,
    lineno: LineNo,
) -> (r: (Seq<ThreadState>, Seq<TraceView>))
    requires
        before.len() <= 4096,
        threads_run(l, p, bindings, ptr, gil_thread_id, before, copy_locals, lineno).out is Ok,
    ensures
        threads_traced(l, p, bindings, ptr, r.0, r.1, copy_locals, lineno),
        before.len() + r.0.len() <= 4096,
    decreases 4097 - before.len(),
{
    if ptr == 0 {
        (Seq::empty(), Seq::empty())
    } else {
        let read = struct_at::<ThreadState>(l, p, bindings, ptr);
        let thread = read.out->Ok_0;
        let run = trace_run(l, read.next, bindings, thread, copy_locals, lineno);
        let trace = run.out->Ok_0;
        let (threads, traces) = lemma_given_traces_are_traced(
            l,
            run.next,
            bindings,
            thread.next,
            gil_thread_id,
            before.push(TraceView { owns_gil: thread.thread_id == gil_thread_id, ..trace }),
            copy_locals,
            lineno,
        );
        let all_threads = seq![thread] + threads;
        let all_traces = seq![trace] + traces;
        assert(all_threads.skip(1) =~= threads);
        assert(all_traces.skip(1) =~= traces);
        (all_threads, all_traces)
    }
}

/// The stack traces of an interpreter can be gotten exactly where the holder of the GIL, the head of
/// the list of threads, each thread of a list of at most 4096 and the trace of each thread can. The
/// traces are then those of the threads, in the order of the list.
pub proof fn law_traces_of_threads(
    l: Seq<Event>,
    p: int,
    bindings: Bindings,
    interpreter_address: usize,
    threadstate_address: usize,
    config: Option<&Config>,
)
    ensures
        ({
            let run = traces_run(
                l,
                p,
                bindings,
                interpreter_address,
                threadstate_address,
                config,
            );
            let gil = gil_run(l, p, bindings, threadstate_address);
            let interpreter = interpreter_at(l, gil.next, bindings);
            let head = word_at(
                l,
                interpreter.next,
                interpreter_address.wrapping_add(interpreter.out->Ok_0.threadstate),
            );
            let readable = gil.out is Ok && interpreter.out is Ok && head.out is Ok;
            &&& run.out is Ok <==> readable && exists|
                threads: Seq<ThreadState>,
                traces: Seq<TraceView>,
            | #[trigger]
                threads_traced(
                    l,
                    head.next,
                    bindings,
                    head.out->Ok_0,
                    threads,
                    traces,
                    wants_locals(config),
                    wanted_lineno(config),
                ) && threads.len() <= 4096
            &&& forall|threads: Seq<ThreadState>, traces: Seq<TraceView>|
                readable && threads.len() <= 4096 && #[trigger] threads_traced(
                    l,
                    head.next,
                    bindings,
                    head.out->Ok_0,
                    threads,
                    traces,
                    wants_locals(config),
                    wanted_lineno(config),
                ) ==> run.out == Ok::<Seq<TraceView>, Seq<Cause>>(
                    with_gil_owner(traces, gil.out->Ok_0),
                )
        }),
{
    let run = traces_run(l, p, bindings, interpreter_address, threadstate_address, config);
    let gil = gil_run(l, p, bindings, threadstate_address);
    let interpreter = interpreter_at(l, gil.next, bindings);
    let head = word_at(
        l,
        interpreter.next,
        interpreter_address.wrapping_add(interpreter.out->Ok_0.threadstate),
    );
    let copy_locals = wants_locals(config);
    let lineno = wanted_lineno(config);
    let none = Seq::<TraceView>::empty();
    if gil.out is Ok && interpreter.out is Ok && head.out is Ok {
        let id = gil.out->Ok_0;
        let ptr = head.out->Ok_0;
        assert forall|threads: Seq<ThreadState>, traces: Seq<TraceView>|
            threads.len() <= 4096 && #[trigger] threads_traced(
                l,
                head.next,
                bindings,
                ptr,
                threads,
                traces,
                copy_locals,
                lineno,
            ) implies run.out == Ok::<Seq<TraceView>, Seq<Cause>>(with_gil_owner(traces, id)) by {
            lemma_traced_threads_are_given(
                l,
                head.next,
                bindings,
                ptr,
                id,
                none,
                threads,
                traces,
                copy_locals,
                lineno,
            );
            assert(none + with_gil_owner(traces, id) =~= with_gil_owner(traces, id));
        }
        if run.out is Ok {
            let (threads, traces) = lemma_given_traces_are_traced(
                l,
                head.next,
                bindings,
                ptr,
                id,
                none,
                copy_locals,
                lineno,
            );
        }
    }
}

/// Copies the name of each local variable from the `i`-th on, and the word that stands for its
/// value.
pub open spec fn local_words_run(
    l: Seq<Event>,
    p: int,
    bindings: Bindings,
    names: usize,
    values: usize,
    i: usize,
    count: usize,
) -> Run<Seq<(Seq<char>, usize)>>
    decreases count - i,
{
    if i >= count {
        done(Seq::empty(), p)
    } else {
        let nameptr = word_at(l, p, names.wrapping_add(i.wrapping_mul(word_size())));
        match nameptr.out {
            Err(causes) => failed(causes, nameptr.next),
            Ok(ptr) => {
                let name = with_context(
                    string_run(l, nameptr.next, bindings, ptr, true),
                    "Failed to copy local variable name",
                );
                match name.out {
                    Err(causes) => failed(causes, name.next),
                    Ok(text) => {
                        let value = word_at(
                            l,
                            name.next,
                            values.wrapping_add(i.wrapping_mul(word_size())),
                        );
                        match value.out {
                            Err(causes) => failed(causes, value.next),
                            Ok(word) => {
                                let others = local_words_run(
                                    l,
                                    value.next,
                                    bindings,
                                    names,
                                    values,
                                    (i + 1) as usize,
                                    count,
                                );
                                match others.out {
                                    Err(causes) => failed(causes, others.next),
                                    Ok(rest) => done(seq![(text, word)] + rest, others.next),
                                }
                            },
                        }
                    },
                }
            },
        }
    }
}

/// One variable for each name and word, the first of them the `first`-th of the frame, whose word
/// without its tag is not zero. It is an argument where its place is below `argcount`.
pub open spec fn live_locals(words: Seq<(Seq<char>, usize)>, first: int, argcount: usize) -> Seq<
    LocalView,
>
    decreases words.len(),
{
    if words.len() == 0 {
        Seq::empty()
    } else {
        let (name, word) = words[0];
        let others = live_locals(words.skip(1), first + 1, argcount);
        if untagged(word) == 0 {
            others
        } else {
            seq![LocalView { name, addr: untagged(word), arg: first < argcount, repr: None }] + others
        }
    }
}

proof fn lemma_locals_are_live(
    l: Seq<Event>,
    p: int,
    bindings: Bindings,
    names: usize,
    values: usize,
    argcount: usize,
    i: usize,
    count: usize,
    found: Seq<LocalView>,
)
    ensures
        ({
            let run = locals_from_run(l, p, bindings, names, values, argcount, i, count, found);
            let words = local_words_run(l, p, bindings, names, values, i, count);
            match words.out {
                Err(causes) => run == failed::<Seq<LocalView>>(causes, words.next),
                Ok(read) => run == done(
                    found + live_locals(read, i as int, argcount),
                    words.next,
                ),
            }
        }),
    decreases count - i,
{
    if i >= count {
        assert(found + Seq::<LocalView>::empty() =~= found);
    } else {
        let nameptr = word_at(l, p, names.wrapping_add(i.wrapping_mul(word_size())));
        if let Ok(ptr) = nameptr.out {
            let name = with_context(
                string_run(l, nameptr.next, bindings, ptr, true),
                "Failed to copy local variable name",
            );
            if let Ok(text) = name.out {
                let value = word_at(
                    l,
                    name.next,
                    values.wrapping_add(i.wrapping_mul(word_size())),
                );
                if let Ok(word) = value.out {
                    let local = LocalView {
                        name: text,
                        addr: untagged(word),
                        arg: i < argcount,
                        repr: None,
                    };
                    let next = if untagged(word) == 0 {
                        found
                    } else {
                        found.push(local)
                    };
                    let k = (i + 1) as usize;
                    lemma_locals_are_live(
                        l,
                        value.next,
                        bindings,
                        names,
                        values,
                        argcount,
                        k,
                        count,
                        next,
                    );
                    let others = local_words_run(
                        l,
                        value.next,
                        bindings,
                        names,
                        values,
                        k,
                        count,
                    );
                    if let Ok(rest) = others.out {
                        let tail = live_locals(rest, i + 1, argcount);
                        assert((seq![(text, word)] + rest).skip(1) =~= rest);
                        assert(found.push(local) + tail =~= found + (seq![local] + tail));
                    }
                }
            }
        }
    }
}

/// The local variables of a frame are those of all that its code declares whose word is not null,
/// in their order, each by its own name and its word without the tag. The first `argcount` places
/// are those of arguments. Where a name or a word cannot be copied there are none.
pub proof fn law_live_locals(
    l: Seq<Event>,
    p: int,
    bindings: Bindings,
    code: CodeObject,
    frameptr: usize,
    frame: FrameObject,
    varnames: TupleObject,
)
    requires
        struct_at::<TupleObject>(l, p, bindings, code.varnames) == done(varnames, p + 1),
    ensures
        ({
            let run = locals_run(l, p, bindings, code, frameptr, frame);
            let words = local_words_run(
                l,
                p + 1,
                bindings,
                varnames.items,
                frameptr.wrapping_add(frame.size).wrapping_sub(word_size()),
                0,
                code.nlocals as usize,
            );
            match words.out {
                Err(causes) => run == failed::<Seq<LocalView>>(causes, words.next),
                Ok(read) => run == done(
                    live_locals(read, 0, code.argcount as usize),
                    words.next,
                ),
            }
        }),
{
    let values = frameptr.wrapping_add(frame.size).wrapping_sub(word_size());
    let count = code.nlocals as usize;
    let argcount = code.argcount as usize;
    let none = Seq::<LocalView>::empty();
    lemma_locals_are_live(
        l,
        p + 1,
        bindings,
        varnames.items,
        values,
        argcount,
        0,
        count,
        none,
    );
    let words = local_words_run(l, p + 1, bindings, varnames.items, values, 0, count);
    if let Ok(read) = words.out {
        assert(none + live_locals(read, 0, argcount) =~= live_locals(read, 0, argcount));
    }
}

} // verus!
