//! The structures of the Python interpreter, reduced to the fields that are read here.
//!
//! A pointer stands as the address it holds, and a null pointer as zero.
use vstd::prelude::*;

use crate::error::ReadError;
use crate::target::{CopyStruct, ProcessMemory};
#[allow(unused_imports)]
use crate::target::told;

verus! {

/// The Python versions whose structure declarations are told apart. A structure that did not
/// change between versions goes by the oldest of them.
#[allow(non_camel_case_types)]
#[derive(Clone, Copy, Debug, PartialEq, Eq, Structural)]
pub enum Bindings {
    V2_7_15,
    V3_6_6,
    V3_7_0,
    V3_8_0,
    V3_9_5,
    V3_10_0,
    V3_11_0,
    V3_12_0,
    V3_13_0,
    V3_14_0,
}

/// Where the fields of a `PyInterpreterState` are, and how the version tracks the GIL.
#[derive(Clone, Copy, Debug)]
pub struct InterpreterState {
    /// Offset of the pointer to the first thread state.
    pub threadstate: usize,
    /// Offset of the pointer to the dictionary of modules.
    pub modules: usize,
    /// Offset of the pointer to the runtime.
    pub runtime: usize,
    /// Whether the holder of the GIL stands in a `_gil_runtime_state`.
    pub has_gil_runtime_state: bool,
}

/// Where a thread keeps the pointer to its innermost frame.
#[derive(Clone, Copy, Debug)]
pub enum FrameRoot {
    /// In the thread state itself: the pointer is this.
    Direct(usize),
    /// One indirection away: the pointer is stored at this address.
    Indirect(usize),
}

#[derive(Clone, Copy, Debug)]
pub struct ThreadState {
    pub thread_id: u64,
    pub native_thread_id: Option<u64>,
    pub frame: FrameRoot,
    /// The next thread state of the same interpreter.
    pub next: usize,
}

#[derive(Clone, Copy, Debug)]
pub struct FrameObject {
    /// Whether this frame only marks where the interpreter was entered from C.
    pub is_shim: bool,
    /// The frame of the caller.
    pub back: usize,
    pub code: usize,
    /// The offset of the instruction that is being run.
    pub lasti: i32,
    pub is_entry: bool,
    /// The size of the structure; its last word is the first local variable.
    pub size: usize,
}

#[derive(Clone, Copy, Debug)]
pub struct CodeObject {
    pub filename: usize,
    pub name: usize,
    pub qualname: Option<usize>,
    pub first_lineno: i32,
    pub line_table: usize,
    pub nlocals: i32,
    pub argcount: i32,
    pub varnames: usize,
}

#[derive(Clone, Copy, Debug)]
pub struct StringObject {
    /// Number of characters.
    pub size: usize,
    /// Number of bytes per character.
    pub kind: u32,
    pub ascii: bool,
    /// Where the characters are.
    pub address: usize,
}

#[derive(Clone, Copy, Debug)]
pub struct BytesObject {
    pub size: usize,
    /// Where the bytes are.
    pub address: usize,
}

#[derive(Clone, Copy, Debug)]
pub struct TupleObject {
    pub size: usize,
    /// Where the pointers to the items are.
    pub items: usize,
}

#[derive(Clone, Copy, Debug)]
pub struct ListObject {
    pub size: usize,
    /// Where the pointers to the items are.
    pub item: usize,
}

#[derive(Clone, Copy, Debug)]
pub struct Object {
    pub ob_type: usize,
}

#[derive(Clone, Copy, Debug)]
pub struct TypeObject {
    /// Where the zero terminated name of the type is.
    pub name: usize,
    pub flags: usize,
    pub dictoffset: isize,
}

#[derive(Clone, Copy, Debug)]
pub struct IntObject {
    pub ob_ival: i64,
}

#[derive(Clone, Copy, Debug)]
pub struct LongObject {
    /// Number of digits, negative for a negative number.
    pub ob_size: isize,
    /// The least significant digit.
    pub digit: u32,
    /// The size of the structure.
    pub size: usize,
}

#[derive(Clone, Copy, Debug)]
pub struct TaggedLong {
    /// Number of digits, and in the lowest bits the sign.
    pub lv_tag: usize,
    /// The least significant digit.
    pub digit: u32,
    /// The size of the structure.
    pub size: usize,
}

#[derive(Clone, Copy, Debug)]
pub struct FloatObject {
    /// The bits of the double precision value.
    pub bits: u64,
}

#[derive(Clone, Copy, Debug)]
pub struct DictObject {
    pub ma_keys: usize,
    pub ma_values: usize,
}

#[derive(Clone, Copy, Debug)]
pub struct SizedKeys {
    /// Number of slots in the index table, which follows the structure.
    pub dk_size: isize,
    pub dk_nentries: isize,
    /// The size of the structure.
    pub size: usize,
}

#[derive(Clone, Copy, Debug)]
pub struct LogKeys {
    /// Binary logarithm of the size in bytes of the index table, which follows the structure.
    pub dk_log2_index_bytes: u8,
    pub dk_kind: u8,
    pub dk_nentries: isize,
    /// The size of the structure.
    pub size: usize,
}

#[derive(Clone, Copy, Debug)]
pub struct DictEntry {
    pub me_key: usize,
    pub me_value: usize,
}

#[derive(Clone, Copy, Debug)]
pub struct HeapType {
    pub ht_cached_keys: usize,
}

#[derive(Clone, Copy, Debug)]
pub struct GilState {
    pub locked: i32,
    /// The thread state that holds the GIL, or held it last.
    pub last_holder: usize,
}

#[derive(Clone, Copy, Debug)]
pub struct DebugOffsets {
    /// Offset of the pointer to the dictionary of modules in an interpreter state.
    pub imports_modules: usize,
}

/// The answer to a request for a structure, by the kind of structure that was requested.
pub enum Record {
    Thread(Result<ThreadState, ReadError>),
    Frame(Result<FrameObject, ReadError>),
    Code(Result<CodeObject, ReadError>),
    Text(Result<StringObject, ReadError>),
    BytesObject(Result<BytesObject, ReadError>),
    Tuple(Result<TupleObject, ReadError>),
    List(Result<ListObject, ReadError>),
    Object(Result<Object, ReadError>),
    Type(Result<TypeObject, ReadError>),
    Int(Result<IntObject, ReadError>),
    Long(Result<LongObject, ReadError>),
    TaggedLong(Result<TaggedLong, ReadError>),
    Float(Result<FloatObject, ReadError>),
    Dict(Result<DictObject, ReadError>),
    SizedKeys(Result<SizedKeys, ReadError>),
    LogKeys(Result<LogKeys, ReadError>),
    Entry(Result<DictEntry, ReadError>),
    HeapType(Result<HeapType, ReadError>),
    Gil(Result<GilState, ReadError>),
    Offsets(Result<DebugOffsets, ReadError>),
}

/// A structure that is copied whole out of the target.
pub trait Structure: Copy {
    /// The record of a request for this structure that got this answer.
    spec fn record(reply: Result<Self, ReadError>) -> Record;

    /// The answer on record, if it was this structure that was requested.
    spec fn reply(record: Record) -> Option<Result<Self, ReadError>>;

    proof fn lemma_reply_of_record(reply: Result<Self, ReadError>)
        ensures
            Self::reply(Self::record(reply)) == Some(reply),
    ;

    proof fn lemma_record_is_told<P: ProcessMemory + CopyStruct<Self>>(
        source: &P,
        bindings: Bindings,
        addr: usize,
        reply: Result<Self, ReadError>,
    )
        requires
            call_ensures(<P as CopyStruct<Self>>::copy_struct, (source, bindings, addr), reply),
        ensures
            told(source, bindings, addr, Self::record(reply)),
    ;
}

impl Structure for ThreadState {
    open spec fn record(reply: Result<Self, ReadError>) -> Record {
        Record::Thread(reply)
    }

    open spec fn reply(record: Record) -> Option<Result<Self, ReadError>> {
        match record {
            Record::Thread(reply) => Some(reply),
            _ => None,
        }
    }

    proof fn lemma_reply_of_record(reply: Result<Self, ReadError>) {
    }

    proof fn lemma_record_is_told<P: ProcessMemory + CopyStruct<Self>>(
        source: &P,
        bindings: Bindings,
        addr: usize,
        reply: Result<Self, ReadError>,
    ) {
    }
}

impl Structure for FrameObject {
    open spec fn record(reply: Result<Self, ReadError>) -> Record {
        Record::Frame(reply)
    }

    open spec fn reply(record: Record) -> Option<Result<Self, ReadError>> {
        match record {
            Record::Frame(reply) => Some(reply),
            _ => None,
        }
    }

    proof fn lemma_reply_of_record(reply: Result<Self, ReadError>) {
    }

    proof fn lemma_record_is_told<P: ProcessMemory + CopyStruct<Self>>(
        source: &P,
        bindings: Bindings,
        addr: usize,
        reply: Result<Self, ReadError>,
    ) {
    }
}

impl Structure for CodeObject {
    open spec fn record(reply: Result<Self, ReadError>) -> Record {
        Record::Code(reply)
    }

    open spec fn reply(record: Record) -> Option<Result<Self, ReadError>> {
        match record {
            Record::Code(reply) => Some(reply),
            _ => None,
        }
    }

    proof fn lemma_reply_of_record(reply: Result<Self, ReadError>) {
    }

    proof fn lemma_record_is_told<P: ProcessMemory + CopyStruct<Self>>(
        source: &P,
        bindings: Bindings,
        addr: usize,
        reply: Result<Self, ReadError>,
    ) {
    }
}

impl Structure for StringObject {
    open spec fn record(reply: Result<Self, ReadError>) -> Record {
        Record::Text(reply)
    }

    open spec fn reply(record: Record) -> Option<Result<Self, ReadError>> {
        match record {
            Record::Text(reply) => Some(reply),
            _ => None,
        }
    }

    proof fn lemma_reply_of_record(reply: Result<Self, ReadError>) {
    }

    proof fn lemma_record_is_told<P: ProcessMemory + CopyStruct<Self>>(
        source: &P,
        bindings: Bindings,
        addr: usize,
        reply: Result<Self, ReadError>,
    ) {
    }
}

impl Structure for BytesObject {
    open spec fn record(reply: Result<Self, ReadError>) -> Record {
        Record::BytesObject(reply)
    }

    open spec fn reply(record: Record) -> Option<Result<Self, ReadError>> {
        match record {
            Record::BytesObject(reply) => Some(reply),
            _ => None,
        }
    }

    proof fn lemma_reply_of_record(reply: Result<Self, ReadError>) {
    }

    proof fn lemma_record_is_told<P: ProcessMemory + CopyStruct<Self>>(
        source: &P,
        bindings: Bindings,
        addr: usize,
        reply: Result<Self, ReadError>,
    ) {
    }
}

impl Structure for TupleObject {
    open spec fn record(reply: Result<Self, ReadError>) -> Record {
        Record::Tuple(reply)
    }

    open spec fn reply(record: Record) -> Option<Result<Self, ReadError>> {
        match record {
            Record::Tuple(reply) => Some(reply),
            _ => None,
        }
    }

    proof fn lemma_reply_of_record(reply: Result<Self, ReadError>) {
    }

    proof fn lemma_record_is_told<P: ProcessMemory + CopyStruct<Self>>(
        source: &P,
        bindings: Bindings,
        addr: usize,
        reply: Result<Self, ReadError>,
    ) {
    }
}

impl Structure for ListObject {
    open spec fn record(reply: Result<Self, ReadError>) -> Record {
        Record::List(reply)
    }

    open spec fn reply(record: Record) -> Option<Result<Self, ReadError>> {
        match record {
            Record::List(reply) => Some(reply),
            _ => None,
        }
    }

    proof fn lemma_reply_of_record(reply: Result<Self, ReadError>) {
    }

    proof fn lemma_record_is_told<P: ProcessMemory + CopyStruct<Self>>(
        source: &P,
        bindings: Bindings,
        addr: usize,
        reply: Result<Self, ReadError>,
    ) {
    }
}

impl Structure for Object {
    open spec fn record(reply: Result<Self, ReadError>) -> Record {
        Record::Object(reply)
    }

    open spec fn reply(record: Record) -> Option<Result<Self, ReadError>> {
        match record {
            Record::Object(reply) => Some(reply),
            _ => None,
        }
    }

    proof fn lemma_reply_of_record(reply: Result<Self, ReadError>) {
    }

    proof fn lemma_record_is_told<P: ProcessMemory + CopyStruct<Self>>(
        source: &P,
        bindings: Bindings,
        addr: usize,
        reply: Result<Self, ReadError>,
    ) {
    }
}

impl Structure for TypeObject {
    open spec fn record(reply: Result<Self, ReadError>) -> Record {
        Record::Type(reply)
    }

    open spec fn reply(record: Record) -> Option<Result<Self, ReadError>> {
        match record {
            Record::Type(reply) => Some(reply),
            _ => None,
        }
    }

    proof fn lemma_reply_of_record(reply: Result<Self, ReadError>) {
    }

    proof fn lemma_record_is_told<P: ProcessMemory + CopyStruct<Self>>(
        source: &P,
        bindings: Bindings,
        addr: usize,
        reply: Result<Self, ReadError>,
    ) {
    }
}

impl Structure for IntObject {
    open spec fn record(reply: Result<Self, ReadError>) -> Record {
        Record::Int(reply)
    }

    open spec fn reply(record: Record) -> Option<Result<Self, ReadError>> {
        match record {
            Record::Int(reply) => Some(reply),
            _ => None,
        }
    }

    proof fn lemma_reply_of_record(reply: Result<Self, ReadError>) {
    }

    proof fn lemma_record_is_told<P: ProcessMemory + CopyStruct<Self>>(
        source: &P,
        bindings: Bindings,
        addr: usize,
        reply: Result<Self, ReadError>,
    ) {
    }
}

impl Structure for LongObject {
    open spec fn record(reply: Result<Self, ReadError>) -> Record {
        Record::Long(reply)
    }

    open spec fn reply(record: Record) -> Option<Result<Self, ReadError>> {
        match record {
            Record::Long(reply) => Some(reply),
            _ => None,
        }
    }

    proof fn lemma_reply_of_record(reply: Result<Self, ReadError>) {
    }

    proof fn lemma_record_is_told<P: ProcessMemory + CopyStruct<Self>>(
        source: &P,
        bindings: Bindings,
        addr: usize,
        reply: Result<Self, ReadError>,
    ) {
    }
}

impl Structure for TaggedLong {
    open spec fn record(reply: Result<Self, ReadError>) -> Record {
        Record::TaggedLong(reply)
    }

    open spec fn reply(record: Record) -> Option<Result<Self, ReadError>> {
        match record {
            Record::TaggedLong(reply) => Some(reply),
            _ => None,
        }
    }

    proof fn lemma_reply_of_record(reply: Result<Self, ReadError>) {
    }

    proof fn lemma_record_is_told<P: ProcessMemory + CopyStruct<Self>>(
        source: &P,
        bindings: Bindings,
        addr: usize,
        reply: Result<Self, ReadError>,
    ) {
    }
}

impl Structure for FloatObject {
    open spec fn record(reply: Result<Self, ReadError>) -> Record {
        Record::Float(reply)
    }

    open spec fn reply(record: Record) -> Option<Result<Self, ReadError>> {
        match record {
            Record::Float(reply) => Some(reply),
            _ => None,
        }
    }

    proof fn lemma_reply_of_record(reply: Result<Self, ReadError>) {
    }

    proof fn lemma_record_is_told<P: ProcessMemory + CopyStruct<Self>>(
        source: &P,
        bindings: Bindings,
        addr: usize,
        reply: Result<Self, ReadError>,
    ) {
    }
}

impl Structure for DictObject {
    open spec fn record(reply: Result<Self, ReadError>) -> Record {
        Record::Dict(reply)
    }

    open spec fn reply(record: Record) -> Option<Result<Self, ReadError>> {
        match record {
            Record::Dict(reply) => Some(reply),
            _ => None,
        }
    }

    proof fn lemma_reply_of_record(reply: Result<Self, ReadError>) {
    }

    proof fn lemma_record_is_told<P: ProcessMemory + CopyStruct<Self>>(
        source: &P,
        bindings: Bindings,
        addr: usize,
        reply: Result<Self, ReadError>,
    ) {
    }
}

impl Structure for SizedKeys {
    open spec fn record(reply: Result<Self, ReadError>) -> Record {
        Record::SizedKeys(reply)
    }

    open spec fn reply(record: Record) -> Option<Result<Self, ReadError>> {
        match record {
            Record::SizedKeys(reply) => Some(reply),
            _ => None,
        }
    }

    proof fn lemma_reply_of_record(reply: Result<Self, ReadError>) {
    }

    proof fn lemma_record_is_told<P: ProcessMemory + CopyStruct<Self>>(
        source: &P,
        bindings: Bindings,
        addr: usize,
        reply: Result<Self, ReadError>,
    ) {
    }
}

impl Structure for LogKeys {
    open spec fn record(reply: Result<Self, ReadError>) -> Record {
        Record::LogKeys(reply)
    }

    open spec fn reply(record: Record) -> Option<Result<Self, ReadError>> {
        match record {
            Record::LogKeys(reply) => Some(reply),
            _ => None,
        }
    }

    proof fn lemma_reply_of_record(reply: Result<Self, ReadError>) {
    }

    proof fn lemma_record_is_told<P: ProcessMemory + CopyStruct<Self>>(
        source: &P,
        bindings: Bindings,
        addr: usize,
        reply: Result<Self, ReadError>,
    ) {
    }
}

impl Structure for DictEntry {
    open spec fn record(reply: Result<Self, ReadError>) -> Record {
        Record::Entry(reply)
    }

    open spec fn reply(record: Record) -> Option<Result<Self, ReadError>> {
        match record {
            Record::Entry(reply) => Some(reply),
            _ => None,
        }
    }

    proof fn lemma_reply_of_record(reply: Result<Self, ReadError>) {
    }

    proof fn lemma_record_is_told<P: ProcessMemory + CopyStruct<Self>>(
        source: &P,
        bindings: Bindings,
        addr: usize,
        reply: Result<Self, ReadError>,
    ) {
    }
}

impl Structure for HeapType {
    open spec fn record(reply: Result<Self, ReadError>) -> Record {
        Record::HeapType(reply)
    }

    open spec fn reply(record: Record) -> Option<Result<Self, ReadError>> {
        match record {
            Record::HeapType(reply) => Some(reply),
            _ => None,
        }
    }

    proof fn lemma_reply_of_record(reply: Result<Self, ReadError>) {
    }

    proof fn lemma_record_is_told<P: ProcessMemory + CopyStruct<Self>>(
        source: &P,
        bindings: Bindings,
        addr: usize,
        reply: Result<Self, ReadError>,
    ) {
    }
}

impl Structure for GilState {
    open spec fn record(reply: Result<Self, ReadError>) -> Record {
        Record::Gil(reply)
    }

    open spec fn reply(record: Record) -> Option<Result<Self, ReadError>> {
        match record {
            Record::Gil(reply) => Some(reply),
            _ => None,
        }
    }

    proof fn lemma_reply_of_record(reply: Result<Self, ReadError>) {
    }

    proof fn lemma_record_is_told<P: ProcessMemory + CopyStruct<Self>>(
        source: &P,
        bindings: Bindings,
        addr: usize,
        reply: Result<Self, ReadError>,
    ) {
    }
}

impl Structure for DebugOffsets {
    open spec fn record(reply: Result<Self, ReadError>) -> Record {
        Record::Offsets(reply)
    }

    open spec fn reply(record: Record) -> Option<Result<Self, ReadError>> {
        match record {
            Record::Offsets(reply) => Some(reply),
            _ => None,
        }
    }

    proof fn lemma_reply_of_record(reply: Result<Self, ReadError>) {
    }

    proof fn lemma_record_is_told<P: ProcessMemory + CopyStruct<Self>>(
        source: &P,
        bindings: Bindings,
        addr: usize,
        reply: Result<Self, ReadError>,
    ) {
    }
}

} // verus!
