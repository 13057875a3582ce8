use std::cell::Cell;
use std::collections::HashMap;

use pystack::config::{Config, LineNo};
use pystack::error::{Cause, Error, ReadError};
use pystack::objects::{
    Bindings, BytesObject, CodeObject, DebugOffsets, DictEntry, DictObject, FloatObject, FrameObject,
    FrameRoot, GilState, HeapType, IntObject, InterpreterState, ListObject, LogKeys, LongObject, Object,
    SizedKeys, StringObject, TaggedLong, ThreadState, TupleObject, TypeObject,
};
use pystack::python_data_access::{
    copy_bytes, copy_int, copy_long, copy_string, format_variable, is_invalid_string, DictIterator,
    InvalidString, PY_TPFLAGS_INLINE_VALUES, PY_TPFLAGS_MANAGED_DICT,
};
use pystack::python_threading::{thread_name_lookup, thread_names_from_interpreter, PythonSpy};
use pystack::stack_trace::{
    get_gil_threadid, get_line_number, get_locals, get_stack_trace, get_stack_trace_or_error,
    get_stack_traces, Frame, LocalVariable, StackTrace,
};
use pystack::target::{CopyStruct, ProcessMemory, Target};
use pystack::variables::{
    PY_TPFLAGS_BYTES_SUBCLASS, PY_TPFLAGS_DICT_SUBCLASS, PY_TPFLAGS_INT_SUBCLASS,
    PY_TPFLAGS_LIST_SUBCLASS, PY_TPFLAGS_LONG_SUBCLASS, PY_TPFLAGS_STRING_SUBCLASS,
    PY_TPFLAGS_TUPLE_SUBCLASS,
};
use pystack::version::Version;

const WORD: usize = std::mem::size_of::<usize>();

/// A process that only exists here: structures by their address, and regions of raw bytes.
/// Reads at zero, at `fail_at`, or of what is not there fail.
#[derive(Default)]
struct Memory {
    regions: Vec<(usize, Vec<u8>)>,
    threads: HashMap<usize, ThreadState>,
    frames: HashMap<usize, FrameObject>,
    codes: HashMap<usize, CodeObject>,
    strings: HashMap<usize, StringObject>,
    bytes_objects: HashMap<usize, BytesObject>,
    tuples: HashMap<usize, TupleObject>,
    lists: HashMap<usize, ListObject>,
    objects: HashMap<usize, Object>,
    types: HashMap<usize, TypeObject>,
    ints: HashMap<usize, IntObject>,
    longs: HashMap<usize, LongObject>,
    tagged_longs: HashMap<usize, TaggedLong>,
    floats: HashMap<usize, FloatObject>,
    dicts: HashMap<usize, DictObject>,
    sized_keys: HashMap<usize, SizedKeys>,
    log_keys: HashMap<usize, LogKeys>,
    entries: HashMap<usize, DictEntry>,
    heap_types: HashMap<usize, HeapType>,
    gils: HashMap<usize, GilState>,
    offsets: HashMap<usize, DebugOffsets>,
    fail_at: usize,
    fail_read: usize,
    gil_runtime_state: bool,
    drop_last_byte: bool,
    reads: Cell<usize>,
}

impl Memory {
    fn check(&self, addr: usize) -> Result<(), ReadError> {
        let reads = self.reads.get() + 1;
        self.reads.set(reads);
        if addr == 0 || addr == self.fail_at || reads == self.fail_read {
            return Err(ReadError { message: "injected read failure".to_owned() });
        }
        Ok(())
    }

    fn find<T: Copy>(&self, all: &HashMap<usize, T>, addr: usize) -> Result<T, ReadError> {
        self.check(addr)?;
        match all.get(&addr) {
            Some(value) => Ok(*value),
            None => Err(ReadError { message: format!("nothing at {addr:#x}") }),
        }
    }

    fn word(&mut self, addr: usize, value: usize) {
        self.regions.push((addr, value.to_ne_bytes().to_vec()));
    }

    fn words(&mut self, addr: usize, values: &[usize]) {
        let mut data = Vec::new();
        for value in values {
            data.extend(value.to_ne_bytes());
        }
        self.regions.push((addr, data));
    }

    /// A string of `kind` bytes per unit at `addr`, with its characters right behind.
    fn text_units(&mut self, addr: usize, kind: u32, ascii: bool, data: Vec<u8>) {
        let size = data.len() / kind as usize;
        self.strings.insert(addr, StringObject { size, kind, ascii, address: addr + 0x40 });
        self.regions.push((addr + 0x40, data));
    }

    fn ascii(&mut self, addr: usize, text: &str) {
        self.text_units(addr, 1, true, text.bytes().collect());
    }

    fn ucs4(&mut self, addr: usize, code_points: &[u32]) {
        let mut data = Vec::new();
        for code_point in code_points {
            data.extend(code_point.to_ne_bytes());
        }
        self.text_units(addr, 4, false, data);
    }

    fn ucs2(&mut self, addr: usize, units: &[u16]) {
        let mut data = Vec::new();
        for unit in units {
            data.extend(unit.to_ne_bytes());
        }
        self.text_units(addr, 2, false, data);
    }

    /// An object of a type with this name and flags, whose type stands at `tp`.
    fn object(&mut self, addr: usize, tp: usize, name: &str, flags: usize) {
        self.objects.insert(addr, Object { ob_type: tp });
        self.types.insert(tp, TypeObject { name: tp + 0x40, flags, dictoffset: 0x10 });
        let mut data: Vec<u8> = name.bytes().collect();
        data.resize(128, 0);
        self.regions.push((tp + 0x40, data));
    }

    /// An integer of Python 3.12 with one digit.
    fn small_int(&mut self, addr: usize, value: u32) {
        self.object(addr, 0x9000, "int", PY_TPFLAGS_LONG_SUBCLASS);
        self.tagged_longs.insert(
            addr,
            TaggedLong { lv_tag: if value == 0 { 1 } else { 8 }, digit: value, size: 32 },
        );
    }

    /// A string object, with its type.
    fn str_object(&mut self, addr: usize, text: &str) {
        self.object(addr, 0xa000, "str", PY_TPFLAGS_STRING_SUBCLASS);
        self.ascii(addr, text);
    }

    /// A dictionary of Python 3.11 and later, whose entries have no hashes.
    fn dict(&mut self, addr: usize, pairs: &[(usize, usize)]) {
        let keys = addr + 0x100;
        self.dicts.insert(addr, DictObject { ma_keys: keys, ma_values: 0 });
        self.log_keys.insert(
            keys,
            LogKeys {
                dk_log2_index_bytes: 3,
                dk_kind: 1,
                dk_nentries: pairs.len() as isize,
                size: 32,
            },
        );
        for (i, (me_key, me_value)) in pairs.iter().enumerate() {
            self.entries.insert(
                keys + 8 + 32 + i * 2 * WORD,
                DictEntry { me_key: *me_key, me_value: *me_value },
            );
        }
    }
}

impl CopyStruct<ThreadState> for Memory {
    fn copy_struct(&self, _bindings: Bindings, addr: usize) -> Result<ThreadState, ReadError> {
        self.find(&self.threads, addr)
    }
}

impl CopyStruct<FrameObject> for Memory {
    fn copy_struct(&self, _bindings: Bindings, addr: usize) -> Result<FrameObject, ReadError> {
        self.find(&self.frames, addr)
    }
}

impl CopyStruct<CodeObject> for Memory {
    fn copy_struct(&self, _bindings: Bindings, addr: usize) -> Result<CodeObject, ReadError> {
        self.find(&self.codes, addr)
    }
}

impl CopyStruct<StringObject> for Memory {
    fn copy_struct(&self, _bindings: Bindings, addr: usize) -> Result<StringObject, ReadError> {
        self.find(&self.strings, addr)
    }
}

impl CopyStruct<BytesObject> for Memory {
    fn copy_struct(&self, _bindings: Bindings, addr: usize) -> Result<BytesObject, ReadError> {
        self.find(&self.bytes_objects, addr)
    }
}

impl CopyStruct<TupleObject> for Memory {
    fn copy_struct(&self, _bindings: Bindings, addr: usize) -> Result<TupleObject, ReadError> {
        self.find(&self.tuples, addr)
    }
}

impl CopyStruct<ListObject> for Memory {
    fn copy_struct(&self, _bindings: Bindings, addr: usize) -> Result<ListObject, ReadError> {
        self.find(&self.lists, addr)
    }
}

impl CopyStruct<Object> for Memory {
    fn copy_struct(&self, _bindings: Bindings, addr: usize) -> Result<Object, ReadError> {
        self.find(&self.objects, addr)
    }
}

impl CopyStruct<TypeObject> for Memory {
    fn copy_struct(&self, _bindings: Bindings, addr: usize) -> Result<TypeObject, ReadError> {
        self.find(&self.types, addr)
    }
}

impl CopyStruct<IntObject> for Memory {
    fn copy_struct(&self, _bindings: Bindings, addr: usize) -> Result<IntObject, ReadError> {
        self.find(&self.ints, addr)
    }
}

impl CopyStruct<LongObject> for Memory {
    fn copy_struct(&self, _bindings: Bindings, addr: usize) -> Result<LongObject, ReadError> {
        self.find(&self.longs, addr)
    }
}

impl CopyStruct<TaggedLong> for Memory {
    fn copy_struct(&self, _bindings: Bindings, addr: usize) -> Result<TaggedLong, ReadError> {
        self.find(&self.tagged_longs, addr)
    }
}

impl CopyStruct<FloatObject> for Memory {
    fn copy_struct(&self, _bindings: Bindings, addr: usize) -> Result<FloatObject, ReadError> {
        self.find(&self.floats, addr)
    }
}

impl CopyStruct<DictObject> for Memory {
    fn copy_struct(&self, _bindings: Bindings, addr: usize) -> Result<DictObject, ReadError> {
        self.find(&self.dicts, addr)
    }
}

impl CopyStruct<SizedKeys> for Memory {
    fn copy_struct(&self, _bindings: Bindings, addr: usize) -> Result<SizedKeys, ReadError> {
        self.find(&self.sized_keys, addr)
    }
}

impl CopyStruct<LogKeys> for Memory {
    fn copy_struct(&self, _bindings: Bindings, addr: usize) -> Result<LogKeys, ReadError> {
        self.find(&self.log_keys, addr)
    }
}

impl CopyStruct<DictEntry> for Memory {
    fn copy_struct(&self, _bindings: Bindings, addr: usize) -> Result<DictEntry, ReadError> {
        self.find(&self.entries, addr)
    }
}

impl CopyStruct<HeapType> for Memory {
    fn copy_struct(&self, _bindings: Bindings, addr: usize) -> Result<HeapType, ReadError> {
        self.find(&self.heap_types, addr)
    }
}

impl CopyStruct<GilState> for Memory {
    fn copy_struct(&self, _bindings: Bindings, addr: usize) -> Result<GilState, ReadError> {
        self.find(&self.gils, addr)
    }
}

impl CopyStruct<DebugOffsets> for Memory {
    fn copy_struct(&self, _bindings: Bindings, addr: usize) -> Result<DebugOffsets, ReadError> {
        self.find(&self.offsets, addr)
    }
}

impl ProcessMemory for Memory {
    fn copy(&self, addr: usize, length: usize) -> Result<Vec<u8>, ReadError> {
        self.check(addr)?;
        for (start, data) in &self.regions {
            if *start <= addr && addr + length <= start + data.len() {
                let mut copied = data[addr - start..addr - start + length].to_vec();
                if self.drop_last_byte {
                    copied.pop();
                }
                return Ok(copied);
            }
        }
        Err(ReadError { message: format!("nothing at {addr:#x}") })
    }

    fn interpreter(&self, _bindings: Bindings) -> InterpreterState {
        InterpreterState {
            threadstate: 0x10,
            modules: 0x18,
            runtime: 0x20,
            has_gil_runtime_state: self.gil_runtime_state,
        }
    }

    // the line tables of Python 3.7: pairs of steps in the bytecode and in the lines
    fn line_number(&self, _bindings: Bindings, code: &CodeObject, lasti: i32, table: &Vec<u8>) -> i32 {
        let mut line = code.first_lineno;
        let mut address = 0;
        for pair in table.chunks_exact(2) {
            address += pair[0] as i32;
            if address > lasti {
                break;
            }
            line += pair[1] as i8 as i32;
        }
        line
    }

    fn single_text(&self, bits: u32) -> String {
        format!("{}", f32::from_bits(bits))
    }

    fn double_text(&self, bits: u64) -> String {
        format!("{}", f64::from_bits(bits))
    }
}

fn python(major: u64, minor: u64) -> Version {
    Version { major, minor, patch: 0, release_flags: String::new(), build_metadata: None }
}

fn root_cause(err: &Error) -> &Cause {
    &err.causes()[0]
}

#[test]
fn test_copy_string() {
    let original = "function_name";
    let mut memory = Memory::default();
    memory.ascii(0x100, original);
    let copied = copy_string(Bindings::V3_7_0, 0x100, &mut Target::new(&memory), false).unwrap();
    assert_eq!(copied, original);
}

#[test]
fn test_copy_string_ucs4() {
    let original = "\u{1d4bd}\u{1d452}\u{1d4c1}\u{1d4c1}\u{1d45c}";
    let code_points: Vec<u32> = original.chars().map(|c| c as u32).collect();
    let mut memory = Memory::default();
    memory.ucs4(0x100, &code_points);
    let mut process = Target::new(&memory);
    assert_eq!(copy_string(Bindings::V3_7_0, 0x100, &mut process, false).unwrap(), original);
    assert_eq!(copy_string(Bindings::V3_7_0, 0x100, &mut process, true).unwrap(), original);
}

#[test]
fn test_copy_string_ucs4_invalid_code_point() {
    // past the last code point, a surrogate, and garbage: none is a valid `char`
    for invalid in [0x0011_0000, 0x0000_d800, 0xffff_ffff] {
        let mut memory = Memory::default();
        memory.ucs4(0x100, &['a' as u32, invalid, 'b' as u32]);
        let mut process = Target::new(&memory);

        assert_eq!(
            copy_string(Bindings::V3_7_0, 0x100, &mut process, false).unwrap(),
            "a\u{fffd}b"
        );

        let err = copy_string(Bindings::V3_7_0, 0x100, &mut process, true).unwrap_err();
        assert!(is_invalid_string(&err), "unexpected error: {err:?}");
    }
}

#[test]
fn test_copy_string_ascii_with_high_byte() {
    let mut memory = Memory::default();
    memory.text_units(0x100, 1, true, vec![b'a', 0xff, b'c']);
    let mut process = Target::new(&memory);

    let err = copy_string(Bindings::V3_7_0, 0x100, &mut process, true).unwrap_err();
    assert!(is_invalid_string(&err), "unexpected error: {err:?}");

    // lenient still rejects it, but not as an InvalidString: frame skipped, sample kept
    let err = copy_string(Bindings::V3_7_0, 0x100, &mut process, false).unwrap_err();
    assert!(!is_invalid_string(&err));
    assert!(matches!(root_cause(&err), Cause::NotUtf8(_)));
}

#[test]
fn test_is_invalid_string_survives_context() {
    // if this regressed to an outermost-only check, strict copying would silently do nothing,
    // since every call site wraps the error
    let err: Error = InvalidString.into();
    assert!(is_invalid_string(&err));

    let wrapped = err.context("Failed to copy filename");
    assert!(is_invalid_string(&wrapped));

    // and not the ordinary py3.13+ "wasn't a PyCodeObject" case, or we'd discard those too
    let other =
        Error::msg("Failed to copy PyFrameObject").context("Failed to call get_stack_trace");
    assert!(!is_invalid_string(&other));
}

#[test]
fn test_copy_bytes() {
    let original = [10_u8, 20, 30, 40, 50, 70, 80];
    let mut memory = Memory::default();
    memory.bytes_objects.insert(0x100, BytesObject { size: original.len(), address: 0x120 });
    memory.regions.push((0x120, original.to_vec()));
    let copied = copy_bytes(Bindings::V3_7_0, 0x100, &mut Target::new(&memory)).unwrap();
    assert_eq!(copied, original);
}

#[test]
fn ascii_multibyte_sequences_are_only_taken_leniently() {
    let mut memory = Memory::default();
    memory.text_units(0x100, 1, true, "h\u{e9}".bytes().collect());
    let mut process = Target::new(&memory);
    assert_eq!(
        copy_string(Bindings::V3_7_0, 0x100, &mut process, false).unwrap(),
        "h\u{e9}"
    );
    let err = copy_string(Bindings::V3_7_0, 0x100, &mut process, true).unwrap_err();
    assert!(is_invalid_string(&err));
}

#[test]
fn latin1_is_widened() {
    let mut memory = Memory::default();
    memory.text_units(0x100, 1, false, vec![b'n', 0xe9, 0xff, 0x80]);
    let mut process = Target::new(&memory);
    for check_utf8 in [false, true] {
        assert_eq!(
            copy_string(Bindings::V3_7_0, 0x100, &mut process, check_utf8).unwrap(),
            "n\u{e9}\u{ff}\u{80}"
        );
    }
}

#[test]
fn two_byte_strings() {
    let mut memory = Memory::default();
    let text = "\u{3b1}\u{1d4bd}z";
    let units: Vec<u16> = text.encode_utf16().collect();
    memory.ucs2(0x100, &units);
    memory.ucs2(0x200, &[0x61, 0xd800]);
    memory.ucs2(0x300, &[0xdc00, 0xd800]);
    memory.ucs2(0x400, &[0xd800, 0x61]);
    let mut process = Target::new(&memory);
    for check_utf8 in [false, true] {
        assert_eq!(
            copy_string(Bindings::V3_7_0, 0x100, &mut process, check_utf8).unwrap(),
            text
        );
    }
    for addr in [0x200, 0x300, 0x400] {
        let err = copy_string(Bindings::V3_7_0, addr, &mut process, true).unwrap_err();
        assert!(is_invalid_string(&err));
        let err = copy_string(Bindings::V3_7_0, addr, &mut process, false).unwrap_err();
        assert!(matches!(root_cause(&err), Cause::NotUtf16));
    }
}

#[test]
fn empty_strings_need_one_read() {
    let mut memory = Memory::default();
    memory.strings.insert(0x100, StringObject { size: 0, kind: 9, ascii: false, address: 0 });
    assert_eq!(
        copy_string(Bindings::V3_7_0, 0x100, &mut Target::new(&memory), true).unwrap(),
        ""
    );
    assert_eq!(memory.reads.get(), 1);
}

#[test]
fn long_strings_are_refused_unread() {
    let mut memory = Memory::default();
    memory.strings.insert(0x100, StringObject { size: 4096, kind: 1, ascii: true, address: 0x140 });
    memory.strings.insert(0x200, StringObject { size: 4095, kind: 1, ascii: true, address: 0x1000 });
    memory.regions.push((0x1000, vec![b'x'; 4096]));
    let mut process = Target::new(&memory);
    let err = copy_string(Bindings::V3_7_0, 0x100, &mut process, false).unwrap_err();
    assert_eq!(root_cause(&err).message(), "Refusing to copy 4096 chars of a string");
    assert_eq!(memory.reads.get(), 1);
    let text = copy_string(Bindings::V3_7_0, 0x200, &mut process, true).unwrap();
    assert_eq!(text.len(), 4095);
}

#[test]
fn unknown_string_kinds() {
    let mut memory = Memory::default();
    memory.text_units(0x100, 3, false, vec![1, 2, 3]);
    let err = copy_string(Bindings::V3_7_0, 0x100, &mut Target::new(&memory), true).unwrap_err();
    assert_eq!(root_cause(&err).message(), "Unknown string kind 3");
    assert!(!is_invalid_string(&err));
}

#[test]
fn failed_reads_are_no_invalid_strings() {
    let mut memory = Memory::default();
    memory.ascii(0x100, "abc");
    memory.fail_at = 0x140;
    let err = copy_string(Bindings::V3_7_0, 0x100, &mut Target::new(&memory), true).unwrap_err();
    assert_eq!(root_cause(&err).message(), "injected read failure");
    assert!(!is_invalid_string(&err));
}

#[test]
fn long_bytes_are_refused_unread() {
    let mut memory = Memory::default();
    memory.bytes_objects.insert(0x100, BytesObject { size: 65536, address: 0x1000 });
    memory.bytes_objects.insert(0x200, BytesObject { size: 65535, address: 0x1000 });
    memory.regions.push((0x1000, vec![7; 65536]));
    let mut process = Target::new(&memory);
    let err = copy_bytes(Bindings::V3_7_0, 0x100, &mut process).unwrap_err();
    assert_eq!(root_cause(&err).message(), "Refusing to copy 65536 bytes");
    assert_eq!(memory.reads.get(), 1);
    assert_eq!(copy_bytes(Bindings::V3_7_0, 0x200, &mut process).unwrap(), vec![7; 65535]);
}

#[test]
fn tagged_integers() {
    let mut memory = Memory::default();
    let size = 32;
    memory.tagged_longs.insert(0x100, TaggedLong { lv_tag: 1, digit: 5, size });
    memory.tagged_longs.insert(0x200, TaggedLong { lv_tag: 1 << 3, digit: 77, size });
    memory.tagged_longs.insert(0x300, TaggedLong { lv_tag: (1 << 3) | 2, digit: 77, size });
    memory.tagged_longs.insert(0x400, TaggedLong { lv_tag: (2 << 3) | 2, digit: 1, size });
    memory.tagged_longs.insert(0x500, TaggedLong { lv_tag: 5 << 3, digit: 1, size });
    let mut digits = Vec::new();
    if WORD == 8 {
        digits.extend(1u32.to_ne_bytes());
        digits.extend(3u32.to_ne_bytes());
        memory.regions.push((0x400 + size - 8, digits));
    } else {
        digits.extend(1u16.to_ne_bytes());
        digits.extend(3u16.to_ne_bytes());
        digits.extend([0, 0, 0, 0]);
        memory.regions.push((0x400 + size - 4, digits));
    }
    let base: i64 = if WORD == 8 { 1 << 30 } else { 1 << 15 };
    let mut process = Target::new(&memory);
    for version in [python(3, 12), python(3, 13), python(3, 14)] {
        assert_eq!(copy_long(&mut process, &version, 0x100).unwrap(), (0, false));
        assert_eq!(copy_long(&mut process, &version, 0x200).unwrap(), (77, false));
        assert_eq!(copy_long(&mut process, &version, 0x300).unwrap(), (-77, false));
        assert_eq!(copy_long(&mut process, &version, 0x400).unwrap(), (-(1 + 3 * base), false));
        assert_eq!(copy_long(&mut process, &version, 0x500).unwrap(), (5, true));
        assert!(copy_long(&mut process, &version, 0x600).is_err());
    }
}

#[test]
fn signed_count_integers() {
    let mut memory = Memory::default();
    let size = 32;
    memory.longs.insert(0x100, LongObject { ob_size: 0, digit: 5, size });
    memory.longs.insert(0x200, LongObject { ob_size: 1, digit: 77, size });
    memory.longs.insert(0x300, LongObject { ob_size: -1, digit: 77, size });
    memory.longs.insert(0x400, LongObject { ob_size: -5, digit: 1, size });
    memory.longs.insert(0x500, LongObject { ob_size: isize::MIN, digit: 1, size });
    memory.longs.insert(0x600, LongObject { ob_size: 2, digit: 0x3fff_ffff, size });
    if WORD == 8 {
        let mut digits = Vec::new();
        digits.extend(0x3fff_ffffu32.to_ne_bytes());
        digits.extend(0x3fff_ffffu32.to_ne_bytes());
        memory.regions.push((0x600 + size - 8, digits));
    }
    let mut process = Target::new(&memory);
    for version in [python(2, 7), python(3, 6), python(3, 11), python(3, 15)] {
        assert_eq!(copy_long(&mut process, &version, 0x100).unwrap(), (0, false));
        assert_eq!(copy_long(&mut process, &version, 0x200).unwrap(), (77, false));
        assert_eq!(copy_long(&mut process, &version, 0x300).unwrap(), (-77, false));
        assert_eq!(copy_long(&mut process, &version, 0x400).unwrap(), (5, true));
        assert_eq!(
            copy_long(&mut process, &version, 0x500).unwrap(),
            (isize::MIN as usize as i64, true)
        );
        if WORD == 8 {
            assert_eq!(
                copy_long(&mut process, &version, 0x600).unwrap(),
                ((1 << 60) - 1, false)
            );
        }
    }
}

#[test]
fn python2_integers() {
    let mut memory = Memory::default();
    memory.ints.insert(0x100, IntObject { ob_ival: -12 });
    let mut process = Target::new(&memory);
    assert_eq!(copy_int(&mut process, 0x100).unwrap(), -12);
    assert!(copy_int(&mut process, 0x200).is_err());
}

fn collect(mut it: DictIterator, process: &mut Target<Memory>) -> Vec<(usize, usize)> {
    let mut pairs = Vec::new();
    while let Some(pair) = it.next(process) {
        pairs.push(pair.unwrap());
    }
    pairs
}

#[test]
fn dictionaries_skip_empty_entries() {
    let mut memory = Memory::default();
    memory.dict(0x100, &[(1, 2), (0, 9), (3, 4)]);
    let mut process = Target::new(&memory);
    let it = DictIterator::from(&mut process, &python(3, 12), 0x100).unwrap();
    assert_eq!(memory.reads.get(), 2);
    assert_eq!(collect(it, &mut process), vec![(1, 2), (3, 4)]);
    assert_eq!(memory.reads.get(), 5);
}

#[test]
fn dictionaries_of_older_versions() {
    let mut memory = Memory::default();
    // an index table of 300 slots, two bytes each
    memory.dicts.insert(0x100, DictObject { ma_keys: 0x1000, ma_values: 0 });
    memory.sized_keys.insert(0x1000, SizedKeys { dk_size: 300, dk_nentries: 2, size: 40 });
    let entries = 0x1000 + 600 + 40;
    memory.entries.insert(entries, DictEntry { me_key: 1, me_value: 2 });
    memory.entries.insert(entries + 3 * WORD, DictEntry { me_key: 3, me_value: 4 });
    let mut process = Target::new(&memory);
    for minor in [6, 7, 8, 9, 10] {
        let it = DictIterator::from(&mut process, &python(3, minor), 0x100).unwrap();
        assert_eq!(collect(it, &mut process), vec![(1, 2), (3, 4)]);
    }
}

#[test]
fn split_dictionaries_have_their_values_elsewhere() {
    let mut memory = Memory::default();
    memory.dict(0x100, &[(1, 0), (0, 0), (3, 0)]);
    memory.dicts.insert(0x100, DictObject { ma_keys: 0x200, ma_values: 0x5000 });
    memory.words(0x5000, &[11, 12, 13]);
    let mut process = Target::new(&memory);
    let it = DictIterator::from(&mut process, &python(3, 11), 0x100).unwrap();
    assert_eq!(collect(it, &mut process), vec![(1, 11), (3, 13)]);
}

#[test]
fn unreadable_entries_end_the_read_of_one_item_only() {
    let mut memory = Memory::default();
    memory.dict(0x100, &[(1, 2), (3, 4)]);
    memory.fail_at = 0x200 + 8 + 32;
    let mut process = Target::new(&memory);
    let mut it = DictIterator::from(&mut process, &python(3, 13), 0x100).unwrap();
    assert!(it.next(&mut process).unwrap().is_err());
    assert_eq!(it.next(&mut process).unwrap().unwrap(), (3, 4));
    assert!(it.next(&mut process).is_none());
    assert!(it.next(&mut process).is_none());
}

#[test]
fn unreadable_dictionaries() {
    let memory = Memory::default();
    assert!(DictIterator::from(&mut Target::new(&memory), &python(3, 9), 0x100).is_err());
    assert!(DictIterator::from(&mut Target::new(&memory), &python(3, 13), 0x100).is_err());
}

fn managed_object(memory: &mut Memory, addr: usize, values: usize, dict: usize) {
    memory.words(addr - 4 * WORD, &[values, dict]);
    memory.heap_types.insert(0x7000, HeapType { ht_cached_keys: 0x7100 });
    memory.log_keys.insert(
        0x7100,
        LogKeys { dk_log2_index_bytes: 3, dk_kind: 1, dk_nentries: 2, size: 32 },
    );
    memory.entries.insert(0x7100 + 8 + 32, DictEntry { me_key: 1, me_value: 0 });
    memory.entries.insert(0x7100 + 8 + 32 + 2 * WORD, DictEntry { me_key: 3, me_value: 0 });
}

#[test]
fn managed_dictionaries() {
    let flags = PY_TPFLAGS_MANAGED_DICT;

    // values in front of the object
    let mut memory = Memory::default();
    managed_object(&mut memory, 0x2000, 0x5000, 0);
    memory.words(0x5000, &[21, 22]);
    let mut process = Target::new(&memory);
    let it =
        DictIterator::from_managed_dict(&mut process, &python(3, 11), 0x2000, 0x7000, flags).unwrap();
    assert_eq!(collect(it, &mut process), vec![(1, 21), (3, 22)]);

    // Python 3.12 marks a pointer to values by its lowest bit
    let mut memory = Memory::default();
    managed_object(&mut memory, 0x2000, 0x1234, 0x4fff);
    memory.words(0x5000, &[31, 32]);
    let mut process = Target::new(&memory);
    let it =
        DictIterator::from_managed_dict(&mut process, &python(3, 12), 0x2000, 0x7000, flags).unwrap();
    assert_eq!(collect(it, &mut process), vec![(1, 31), (3, 32)]);

    // inline values follow the object
    let mut memory = Memory::default();
    managed_object(&mut memory, 0x2000, 0x1234, 0);
    memory.words(0x2000 + 3 * WORD, &[41, 42]);
    let mut process = Target::new(&memory);
    let it = DictIterator::from_managed_dict(
        &mut process,
        &python(3, 13),
        0x2000,
        0x7000,
        flags | PY_TPFLAGS_INLINE_VALUES,
    )
    .unwrap();
    assert_eq!(collect(it, &mut process), vec![(1, 41), (3, 42)]);

    // a dictionary that was made explicit
    for (version, values) in [(python(3, 11), 0), (python(3, 12), 0x1234), (python(3, 13), 0)] {
        let mut memory = Memory::default();
        managed_object(&mut memory, 0x2000, values, 0x100);
        memory.dict(0x100, &[(5, 6)]);
        let mut process = Target::new(&memory);
        let it = DictIterator::from_managed_dict(&mut process, &version, 0x2000, 0x7000, flags)
            .unwrap();
        assert_eq!(collect(it, &mut process), vec![(5, 6)]);
    }

    let mut memory = Memory::default();
    managed_object(&mut memory, 0x2000, 0, 0);
    let mut process = Target::new(&memory);
    let err = DictIterator::from_managed_dict(&mut process, &python(3, 11), 0x2000, 0x7000, flags)
        .unwrap_err();
    assert_eq!(
        root_cause(&err).message(),
        "neither values or dict is set in managed dict"
    );
}

const THREAD_FRAME: usize = 0x1000;
const FRAME: usize = 0x1100;
const CODE: usize = 0x1200;
const FILENAME: usize = 0x1300;
const NAME: usize = 0x1400;

struct TestStack {
    memory: Memory,
    thread: ThreadState,
}

impl TestStack {
    fn new() -> Self {
        let mut memory = Memory::default();
        memory.ascii(FILENAME, "test.py");
        memory.ascii(NAME, "function");
        memory.codes.insert(
            CODE,
            CodeObject {
                filename: FILENAME,
                name: NAME,
                qualname: Some(NAME),
                first_lineno: 42,
                line_table: 0,
                nlocals: 0,
                argcount: 0,
                varnames: 0,
            },
        );
        memory.frames.insert(
            FRAME,
            FrameObject {
                is_shim: false,
                back: 0,
                code: CODE,
                lasti: 0,
                // Python 3.11 entry frames must not be mistaken for shims.
                is_entry: true,
                size: 80,
            },
        );
        memory.word(THREAD_FRAME, FRAME);
        let thread = ThreadState {
            thread_id: 123,
            native_thread_id: Some(456),
            frame: FrameRoot::Indirect(THREAD_FRAME),
            next: 0,
        };
        Self { memory, thread }
    }

    fn sample(&mut self, fail_at: usize) -> StackTrace {
        self.memory.fail_at = fail_at;
        get_stack_trace_or_error(
            Bindings::V3_11_0,
            &self.thread,
            &mut Target::new(&self.memory),
            false,
            LineNo::First,
        )
    }

    fn code(&mut self) -> &mut CodeObject {
        self.memory.codes.get_mut(&CODE).unwrap()
    }

    fn frame(&mut self) -> &mut FrameObject {
        self.memory.frames.get_mut(&FRAME).unwrap()
    }
}

fn assert_error_trace(trace: &StackTrace) {
    assert!(trace.error);
    assert_eq!(trace.thread_id, 123);
    assert_eq!(trace.os_thread_id, Some(456));
    assert_eq!(trace.frames.len(), 1);
    assert_eq!(
        trace.frames[0],
        Frame {
            name: "<error>".into(),
            filename: String::new(),
            line: 0,
            module: None,
            short_filename: None,
            locals: None,
            is_entry: false,
            is_shim_entry: false,
        }
    );
}

#[test]
fn test_unwind_read_errors() {
    let mut stack = TestStack::new();
    for addr in [THREAD_FRAME, FRAME, CODE, FILENAME, NAME] {
        assert_error_trace(&stack.sample(addr));
        // Discovery must still reject an unreadable candidate interpreter.
        stack.memory.fail_at = addr;
        assert!(get_stack_trace(
            Bindings::V3_11_0,
            &stack.thread,
            &mut Target::new(&stack.memory),
            false,
            LineNo::First
        )
        .is_err());
    }
}

#[test]
fn test_partial_stack_is_discarded() {
    let mut stack = TestStack::new();
    let caller = 0x1500;
    let frame = FrameObject { back: 0, is_entry: false, ..*stack.frame() };
    stack.memory.frames.insert(caller, frame);
    stack.frame().back = caller;
    assert_eq!(stack.sample(0).frames.len(), 2);
    assert_error_trace(&stack.sample(caller));
}

#[test]
fn test_invalid_ucs4_strings() {
    let mut stack = TestStack::new();
    let ptr = 0x1500;
    stack.memory.ucs4(ptr, &[0x110000]);
    let filename = stack.code().filename;
    stack.code().filename = ptr;
    assert_error_trace(&stack.sample(0));
    stack.code().filename = filename;
    stack.code().qualname = Some(ptr);
    let fallback = stack.sample(0);
    assert!(!fallback.error);
    assert_eq!(fallback.frames[0].name, "function");
    stack.code().name = ptr;
    assert_error_trace(&stack.sample(0));
}

#[test]
fn test_success_empty_and_qualname_fallback() {
    let mut stack = TestStack::new();
    let trace = stack.sample(0);
    assert!(!trace.error);
    assert_eq!(trace.frames.len(), 1);
    assert_eq!(trace.frames[0].name, "function");
    assert_eq!(trace.frames[0].line, 42);
    assert!(trace.frames[0].is_entry);

    stack.code().qualname = Some(0);
    let trace = stack.sample(0);
    assert!(!trace.error);
    assert_eq!(trace.frames[0].name, "function");

    // versions without qualified names
    stack.code().qualname = None;
    let trace = stack.sample(0);
    assert!(!trace.error);
    assert_eq!(trace.frames[0].name, "function");

    stack.memory.regions.retain(|(addr, _)| *addr != THREAD_FRAME);
    stack.memory.word(THREAD_FRAME, 0);
    let trace = stack.sample(0);
    assert!(!trace.error);
    assert!(trace.frames.is_empty());
}

#[test]
fn test_line_number_failure_is_not_an_error_trace() {
    let stack = TestStack::new();
    let trace = get_stack_trace_or_error(
        Bindings::V3_11_0,
        &stack.thread,
        &mut Target::new(&stack.memory),
        false,
        LineNo::LastInstruction,
    );
    assert!(!trace.error);
    assert_eq!(trace.frames[0].line, 0);
}

#[test]
fn test_shims_skip_code_reads() {
    for bindings in [Bindings::V3_12_0, Bindings::V3_13_0, Bindings::V3_14_0] {
        let mut memory = Memory::default();
        let mut shim =
            FrameObject { is_shim: true, back: 0, code: 0, lasti: 0, is_entry: false, size: 80 };
        memory.frames.insert(FRAME, shim);
        let thread = ThreadState {
            thread_id: 123,
            native_thread_id: Some(456),
            frame: FrameRoot::Direct(FRAME),
            next: 0,
        };
        let trace = get_stack_trace_or_error(
            bindings,
            &thread,
            &mut Target::new(&memory),
            false,
            LineNo::NoLine,
        );
        assert!(!trace.error);
        assert!(trace.frames.is_empty());
        assert_eq!(memory.reads.get(), 1);
        // A cycle consisting only of shims must still hit the depth limit.
        shim.back = FRAME;
        memory.frames.insert(FRAME, shim);
        let trace = get_stack_trace_or_error(
            bindings,
            &thread,
            &mut Target::new(&memory),
            false,
            LineNo::NoLine,
        );
        assert_error_trace(&trace);
        assert_eq!(memory.reads.get(), 1 + 4096);
    }
}

#[test]
fn test_get_line_number() {
    let mut stack = TestStack::new();
    let lnotab = vec![0u8, 1, 10, 1, 8, 1, 4, 1];
    stack.memory.bytes_objects.insert(0x1600, BytesObject { size: lnotab.len(), address: 0x1620 });
    stack.memory.regions.push((0x1620, lnotab));
    let code = CodeObject { first_lineno: 3, line_table: 0x1600, ..*stack.code() };
    let lineno =
        get_line_number(Bindings::V3_7_0, &code, 30, &mut Target::new(&stack.memory)).unwrap();
    assert_eq!(lineno, 7);
}

#[test]
fn missing_line_tables() {
    let mut stack = TestStack::new();
    let code = *stack.code();
    let err =
        get_line_number(Bindings::V3_7_0, &code, 30, &mut Target::new(&stack.memory)).unwrap_err();
    assert_eq!(err.causes().len(), 2);
    assert_eq!(err.causes()[1].message(), "Failed to copy line number table");
}

#[test]
fn line_numbers_as_configured() {
    let mut stack = TestStack::new();
    stack.memory.bytes_objects.insert(0x1600, BytesObject { size: 2, address: 0x1620 });
    stack.memory.regions.push((0x1620, vec![0, 5]));
    stack.code().line_table = 0x1600;
    for (lineno, line) in
        [(LineNo::NoLine, 0), (LineNo::First, 42), (LineNo::LastInstruction, 47)]
    {
        let mut process = Target::new(&stack.memory);
        let trace =
            get_stack_trace(Bindings::V3_11_0, &stack.thread, &mut process, false, lineno).unwrap();
        assert_eq!(trace.frames[0].line, line);
    }
}

#[test]
fn invalid_filenames_can_be_told_from_read_errors() {
    let mut stack = TestStack::new();
    stack.memory.text_units(0x1500, 1, true, vec![0xff]);
    stack.code().filename = 0x1500;
    let err = get_stack_trace(
        Bindings::V3_11_0,
        &stack.thread,
        &mut Target::new(&stack.memory),
        false,
        LineNo::First,
    )
    .unwrap_err();
    assert!(is_invalid_string(&err));
    assert_eq!(err.causes()[1].message(), "Failed to copy filename");

    stack.memory.fail_at = CODE;
    let err = get_stack_trace(
        Bindings::V3_11_0,
        &stack.thread,
        &mut Target::new(&stack.memory),
        false,
        LineNo::First,
    )
    .unwrap_err();
    assert!(!is_invalid_string(&err));
    assert_eq!(err.causes()[1].message(), "Failed to copy PyCodeObject");
}

#[test]
fn shims_mark_entry_frames() {
    let mut stack = TestStack::new();
    // inner frame, shim by its file name, middle frame, shim by its flag, outer frame
    let plain = FrameObject { is_entry: false, ..*stack.frame() };
    stack.memory.ascii(0x1500, "<shim>");
    let shim_code = CodeObject { filename: 0x1500, ..*stack.code() };
    stack.memory.codes.insert(0x1600, shim_code);
    stack.memory.frames.insert(FRAME, FrameObject { back: 0x2000, ..plain });
    stack.memory.frames.insert(0x2000, FrameObject { back: 0x2100, ..plain });
    stack.memory.frames.insert(0x2100, FrameObject { back: 0x2200, code: 0x1600, ..plain });
    stack.memory.frames.insert(0x2200, FrameObject { back: 0x2300, ..plain });
    stack.memory.frames.insert(
        0x2300,
        FrameObject { back: 0x2400, is_shim: true, code: 0, ..plain },
    );
    stack.memory.frames.insert(0x2400, FrameObject { back: 0, ..plain });
    let trace = stack.sample(0);
    assert!(!trace.error);
    let marks: Vec<bool> = trace.frames.iter().map(|frame| frame.is_shim_entry).collect();
    assert_eq!(marks, vec![false, true, true, true]);
    assert!(trace.frames.iter().all(|frame| frame.filename == "test.py"));
}

#[test]
fn endless_stacks_are_given_up() {
    let mut stack = TestStack::new();
    stack.frame().back = FRAME;
    let err = get_stack_trace(
        Bindings::V3_11_0,
        &stack.thread,
        &mut Target::new(&stack.memory),
        false,
        LineNo::NoLine,
    )
    .unwrap_err();
    assert_eq!(root_cause(&err).message(), "Max frame recursion depth reached");
}

fn with_locals(stack: &mut TestStack) {
    let names = 0x3000;
    stack.memory.tuples.insert(names, TupleObject { size: 4, items: names + 0x10 });
    stack.memory.words(names + 0x10, &[0x3100, 0x3200, 0x3300, 0x3400]);
    stack.memory.ascii(0x3100, "a");
    stack.memory.ascii(0x3200, "b");
    stack.memory.ascii(0x3300, "c");
    stack.memory.ascii(0x3400, "d");
    // the second has no value, and the third is tagged
    stack.memory.words(FRAME + 80 - WORD, &[0x4000, 0, 0x4101, 1]);
    let code = stack.code();
    code.nlocals = 4;
    code.argcount = 2;
    code.varnames = names;
}

#[test]
fn local_variables() {
    let mut stack = TestStack::new();
    with_locals(&mut stack);
    let (code, frame) = (*stack.code(), *stack.frame());
    let expected = vec![
        LocalVariable { name: "a".to_owned(), addr: 0x4000, arg: true, repr: None },
        LocalVariable { name: "c".to_owned(), addr: 0x4100, arg: false, repr: None },
    ];
    let mut process = Target::new(&stack.memory);
    let locals = get_locals(Bindings::V3_11_0, &code, FRAME, &frame, &mut process).unwrap();
    assert_eq!(locals, expected);

    let trace =
        get_stack_trace(Bindings::V3_11_0, &stack.thread, &mut process, true, LineNo::First).unwrap();
    assert_eq!(trace.frames[0].locals, Some(expected));
    let trace =
        get_stack_trace(Bindings::V3_11_0, &stack.thread, &mut process, false, LineNo::First)
            .unwrap();
    assert_eq!(trace.frames[0].locals, None);

    stack.memory.fail_at = 0x3300;
    let mut process = Target::new(&stack.memory);
    let err = get_stack_trace(Bindings::V3_11_0, &stack.thread, &mut process, true, LineNo::First)
        .unwrap_err();
    assert_eq!(err.causes()[1].message(), "Failed to copy local variable name");
    assert_eq!(err.causes()[2].message(), "Failed to get local variables");
}

#[test]
fn gil_holders() {
    let mut memory = Memory::default();
    let thread = TestStack::new().thread;
    memory.threads.insert(0x6000, thread);
    memory.word(0x5000, 0x6000);
    memory.word(0x5100, 0);
    let mut process = Target::new(&memory);
    assert_eq!(get_gil_threadid(Bindings::V3_11_0, 0, &mut process).unwrap(), 0);
    assert_eq!(memory.reads.get(), 0);
    assert_eq!(get_gil_threadid(Bindings::V3_11_0, 0x5000, &mut process).unwrap(), 123);
    assert_eq!(get_gil_threadid(Bindings::V3_11_0, 0x5100, &mut process).unwrap(), 0);
    assert!(get_gil_threadid(Bindings::V3_11_0, 0x5200, &mut process).is_err());

    memory.gil_runtime_state = true;
    memory.gils.insert(0x5000, GilState { locked: 1, last_holder: 0x6000 });
    memory.gils.insert(0x5100, GilState { locked: 0, last_holder: 0x6000 });
    let mut process = Target::new(&memory);
    assert_eq!(get_gil_threadid(Bindings::V3_13_0, 0x5000, &mut process).unwrap(), 123);
    assert_eq!(get_gil_threadid(Bindings::V3_13_0, 0x5100, &mut process).unwrap(), 0);
    assert!(get_gil_threadid(Bindings::V3_13_0, 0x5200, &mut process).is_err());
}

#[test]
fn all_threads_of_an_interpreter() {
    let mut stack = TestStack::new();
    let first = ThreadState { next: 0x6100, ..stack.thread };
    let second = ThreadState { thread_id: 789, native_thread_id: None, ..stack.thread };
    stack.memory.threads.insert(0x6000, first);
    stack.memory.threads.insert(0x6100, second);
    stack.memory.word(0x8010, 0x6000);
    stack.memory.word(0x5000, 0x6100);
    let config = Config { lineno: LineNo::First, dump_locals: 0 };
    let mut process = Target::new(&stack.memory);
    let traces =
        get_stack_traces(Bindings::V3_11_0, 0x8000, &mut process, 0x5000, Some(&config)).unwrap();
    assert_eq!(traces.len(), 2);
    assert_eq!((traces[0].thread_id, traces[0].owns_gil), (123, false));
    assert_eq!((traces[1].thread_id, traces[1].owns_gil), (789, true));
    assert_eq!(traces[0].frames[0].line, 42);
    assert_eq!(traces[0].status_str(), "active");
    assert_eq!(traces[1].status_str(), "active+gil");

    let traces = get_stack_traces(Bindings::V3_11_0, 0x8000, &mut process, 0, None).unwrap();
    assert!(traces.iter().all(|trace| !trace.owns_gil));
    assert_eq!(traces[0].frames[0].line, 0);
    assert_eq!(traces[0].frames[0].locals, None);

    // one broken thread fails them all here
    stack.memory.fail_at = CODE;
    let mut process = Target::new(&stack.memory);
    assert!(get_stack_traces(Bindings::V3_11_0, 0x8000, &mut process, 0, None).is_err());
}

#[test]
fn thread_list_failures() {
    let mut stack = TestStack::new();
    let mut process = Target::new(&stack.memory);
    let err = get_stack_traces(Bindings::V3_11_0, 0x8000, &mut process, 0, None).unwrap_err();
    assert_eq!(err.causes()[1].message(), "Failed to copy PyThreadState head pointer");

    stack.memory.word(0x8010, 0x6000);
    let mut process = Target::new(&stack.memory);
    let err = get_stack_traces(Bindings::V3_11_0, 0x8000, &mut process, 0, None).unwrap_err();
    assert_eq!(err.causes()[1].message(), "Failed to copy PyThreadState");

    let looping =
        ThreadState { frame: FrameRoot::Direct(0), next: 0x6000, ..stack.thread };
    stack.memory.threads.insert(0x6000, looping);
    let mut process = Target::new(&stack.memory);
    let err = get_stack_traces(Bindings::V3_11_0, 0x8000, &mut process, 0, None).unwrap_err();
    assert_eq!(root_cause(&err).message(), "Max thread recursion depth reached");
}

#[test]
fn test_modules_offset_cached_after_successful_read() {
    let mut process = Memory::default();
    process.fail_read = 1;
    process.word(0x20, 0x10000);
    process.offsets.insert(0x10000, DebugOffsets { imports_modules: 0x20000 });
    let mut cache = None;
    let version = Version {
        major: 3,
        minor: 14,
        patch: 7,
        release_flags: String::new(),
        build_metadata: None,
    };
    let lookup = |cache: &mut Option<usize>| {
        thread_names_from_interpreter(
            Bindings::V3_14_0,
            0,
            &mut Target::new(&process),
            &version,
            cache,
        )
    };
    assert!(lookup(&mut cache).is_err());
    assert!(cache.is_none());
    assert_eq!(process.reads.get(), 1);
    assert!(lookup(&mut cache).is_err());
    assert_eq!(cache, Some(0x20000));
    assert_eq!(process.reads.get(), 4);
    assert!(lookup(&mut cache).is_err());
    assert_eq!(process.reads.get(), 5);
    assert!(lookup(&mut None).is_err());
    assert_eq!(process.reads.get(), 8);
}

/// An interpreter at 0x8000 whose threading module knows two threads.
fn named_threads(memory: &mut Memory) {
    // sys.modules
    memory.str_object(0x20000, "sys");
    memory.str_object(0x20100, "threading");
    memory.dict(0x21000, &[(0x20000, 0x22000), (0x20100, 0x23000)]);
    memory.word(0x8018, 0x21000);
    // the module, with its dictionary
    memory.object(0x23000, 0x24000, "module", 0);
    memory.word(0x23000 + 0x10, 0x25000);
    memory.str_object(0x20200, "_limbo");
    memory.str_object(0x20300, "_active");
    memory.dict(0x25000, &[(0x20200, 0x1), (0x20300, 0x26000)]);
    // the active threads by their ids
    memory.small_int(0x27000, 123);
    memory.small_int(0x27100, 789);
    memory.dict(0x26000, &[(0x27000, 0x28000), (0x27100, 0x29000)]);
    // one keeps its attributes in a dictionary, the other has a managed one
    memory.str_object(0x20400, "_name");
    memory.str_object(0x20500, "MainThread");
    memory.str_object(0x20600, "worker");
    memory.object(0x28000, 0x2a000, "Thread", 0);
    memory.word(0x28000 + 0x10, 0x2b000);
    memory.dict(0x2b000, &[(0x20200, 0x1), (0x20400, 0x20500)]);
    memory.object(0x29000, 0x2c000, "Thread", PY_TPFLAGS_MANAGED_DICT);
    memory.words(0x29000 - 4 * WORD, &[0, 0x2d000]);
    memory.dict(0x2d000, &[(0x20400, 0x20600)]);
}

#[test]
fn thread_names() {
    let mut memory = Memory::default();
    named_threads(&mut memory);
    let mut cache = None;
    let names = thread_names_from_interpreter(
        Bindings::V3_13_0,
        0x8000,
        &mut Target::new(&memory),
        &python(3, 13),
        &mut cache,
    )
    .unwrap();
    let expected: HashMap<u64, String> =
        [(123, "MainThread".to_owned()), (789, "worker".to_owned())].into();
    assert_eq!(names, expected);
    assert_eq!(cache, None);

    let mut spy = PythonSpy {
        process: Target::new(&memory),
        version: python(3, 13),
        interpreter_address: 0x8000,
        python_modules_offset: None,
    };
    assert_eq!(thread_name_lookup(&mut spy), Some(expected));
}

#[test]
fn thread_names_without_a_threading_module() {
    let mut memory = Memory::default();
    memory.str_object(0x20000, "sys");
    memory.dict(0x21000, &[(0x20000, 0x22000)]);
    memory.word(0x8018, 0x21000);
    let names = thread_names_from_interpreter(
        Bindings::V3_12_0,
        0x8000,
        &mut Target::new(&memory),
        &python(3, 12),
        &mut None,
    )
    .unwrap();
    assert!(names.is_empty());
}

#[test]
fn thread_names_that_cannot_be_looked_up() {
    let memory = Memory::default();
    for version in [python(2, 7), python(3, 5), python(3, 15), python(4, 8)] {
        let mut spy = PythonSpy {
            process: Target::new(&memory),
            version,
            interpreter_address: 0x8000,
            python_modules_offset: Some(3),
        };
        assert_eq!(thread_name_lookup(&mut spy), None);
        assert_eq!(spy.python_modules_offset, Some(3));
    }
    assert_eq!(memory.reads.get(), 0);

    for minor in [6, 7, 8, 9, 10, 11, 12, 13, 14] {
        let mut spy = PythonSpy {
            process: Target::new(&memory),
            version: python(3, minor),
            interpreter_address: 0x8000,
            python_modules_offset: None,
        };
        assert_eq!(thread_name_lookup(&mut spy), None);
    }
    assert_eq!(memory.reads.get(), 9);

    let err = thread_names_from_interpreter(
        Bindings::V3_12_0,
        0x8000,
        &mut Target::new(&memory),
        &python(3, 12),
        &mut None,
    )
    .unwrap_err();
    assert_eq!(err.causes()[1].message(), "Failed to copy modules PyObject");
}

fn shown_as(memory: &Memory, version: &Version, addr: usize, max_length: isize) -> String {
    format_variable(Bindings::V3_12_0, &mut Target::new(memory), version, addr, max_length).unwrap()
}

#[test]
fn values_without_room_are_not_read() {
    let memory = Memory::default();
    for max_length in [isize::MIN, -1, 0, 5] {
        assert_eq!(shown_as(&memory, &python(3, 12), 0x100, max_length), "...");
    }
    assert_eq!(memory.reads.get(), 0);
    let mut process = Target::new(&memory);
    assert!(format_variable(Bindings::V3_12_0, &mut process, &python(3, 12), 0x100, 6).is_err());
}

#[test]
fn integers_and_booleans() {
    let version = python(3, 12);
    let mut memory = Memory::default();
    memory.small_int(0x100, 77);
    assert_eq!(shown_as(&memory, &version, 0x100, 128), "77");
    memory.tagged_longs.insert(0x100, TaggedLong { lv_tag: 10, digit: 77, size: 32 });
    assert_eq!(shown_as(&memory, &version, 0x100, 128), "-77");
    memory.tagged_longs.insert(0x100, TaggedLong { lv_tag: 7 << 3, digit: 77, size: 32 });
    assert_eq!(shown_as(&memory, &version, 0x100, 128), "+bigint");

    let mut memory = Memory::default();
    memory.object(0x100, 0x200, "bool", PY_TPFLAGS_LONG_SUBCLASS);
    memory.tagged_longs.insert(0x100, TaggedLong { lv_tag: 8, digit: 1, size: 32 });
    assert_eq!(shown_as(&memory, &version, 0x100, 128), "True");
    memory.tagged_longs.insert(0x100, TaggedLong { lv_tag: 1, digit: 0, size: 32 });
    assert_eq!(shown_as(&memory, &version, 0x100, 128), "False");

    let mut memory = Memory::default();
    memory.object(0x100, 0x200, "int", PY_TPFLAGS_INT_SUBCLASS);
    memory.ints.insert(0x100, IntObject { ob_ival: i64::MIN });
    assert_eq!(shown_as(&memory, &python(2, 7), 0x100, 128), "-9223372036854775808");

    // a count that no positive number can stand for
    if WORD == 8 {
        let mut memory = Memory::default();
        memory.object(0x100, 0x200, "int", PY_TPFLAGS_LONG_SUBCLASS);
        memory.longs.insert(0x100, LongObject { ob_size: isize::MIN, digit: 1, size: 32 });
        assert_eq!(shown_as(&memory, &python(3, 8), 0x100, 128), "-bigint");
    }
}

#[test]
fn quoted_strings() {
    let version = python(3, 12);
    let mut memory = Memory::default();
    memory.str_object(0x100, "it's\nhere");
    assert_eq!(shown_as(&memory, &version, 0x100, 128), "\"it\\\"s\\nhere\"");
    assert_eq!(shown_as(&memory, &version, 0x100, 16), "\"it\\\"s\\nhere\"");
    assert_eq!(shown_as(&memory, &version, 0x100, 15), "\"it\\\"s\\nher...\"");
    assert_eq!(shown_as(&memory, &version, 0x100, 6), "\"i...\"");

    // replacement characters are fine here
    let mut memory = Memory::default();
    memory.object(0x100, 0x200, "str", PY_TPFLAGS_STRING_SUBCLASS);
    memory.ucs4(0x100, &[0x61, 0xd800]);
    assert_eq!(shown_as(&memory, &version, 0x100, 128), "\"a\u{fffd}\"");
}

#[test]
fn python2_byte_strings() {
    let mut memory = Memory::default();
    memory.object(0x100, 0x200, "str", PY_TPFLAGS_BYTES_SUBCLASS);
    memory.ascii(0x100, "text");
    assert_eq!(shown_as(&memory, &python(2, 7), 0x100, 128), "\"text\"");
    assert_eq!(shown_as(&memory, &python(3, 12), 0x100, 128), "<str at 0x100>");
}

#[test]
fn lists_and_tuples() {
    let version = python(3, 12);
    let mut memory = Memory::default();
    for i in 0..30 {
        memory.small_int(0x4000 + 0x100 * i, i as u32);
    }
    let items: Vec<usize> = (0..30).map(|i| 0x4000 + 0x100 * i).collect();
    memory.words(0x300, &items);
    memory.object(0x100, 0x400, "list", PY_TPFLAGS_LIST_SUBCLASS);
    memory.lists.insert(0x100, ListObject { size: 3, item: 0x300 });
    memory.object(0x200, 0x600, "tuple", PY_TPFLAGS_TUPLE_SUBCLASS);
    memory.tuples.insert(0x200, TupleObject { size: 2, items: 0x300 });
    assert_eq!(shown_as(&memory, &version, 0x100, 128), "[0, 1, 2]");
    assert_eq!(shown_as(&memory, &version, 0x200, 128), "(0, 1)");

    memory.lists.insert(0x100, ListObject { size: 0, item: 0 });
    assert_eq!(shown_as(&memory, &version, 0x100, 128), "[]");
    memory.lists.insert(0x100, ListObject { size: 30, item: 0x300 });
    // four take twelve of eighteen, and a fifth would leave less than is needed to go on
    assert_eq!(shown_as(&memory, &version, 0x100, 20), "[0, 1, 2, 3, ...]");
    assert_eq!(shown_as(&memory, &version, 0x100, 6), "[...]");
    for max_length in 6..60 {
        assert!(shown_as(&memory, &version, 0x100, max_length).len() as isize <= max_length);
    }
}

#[test]
fn dictionaries() {
    let version = python(3, 12);
    let mut memory = Memory::default();
    memory.str_object(0x4000, "a");
    memory.str_object(0x4100, "b");
    memory.small_int(0x4200, 1);
    memory.small_int(0x4300, 2);
    memory.object(0x100, 0x400, "dict", PY_TPFLAGS_DICT_SUBCLASS);
    memory.dict(0x100, &[(0x4000, 0x4200), (0, 0), (0x4100, 0x4300)]);
    assert_eq!(shown_as(&memory, &version, 0x100, 128), "{\"a\": 1, \"b\": 2}");
    assert_eq!(shown_as(&memory, &version, 0x100, 15), "{...}");
    assert_eq!(shown_as(&memory, &version, 0x100, 16), "{\"a\": 1, ...}");
    assert_eq!(shown_as(&memory, &python(3, 5), 0x100, 128), "dict");
    assert_eq!(shown_as(&memory, &python(2, 7), 0x100, 128), "dict");
    for max_length in 6..40 {
        assert!(shown_as(&memory, &version, 0x100, max_length).len() as isize <= max_length);
    }
}

#[test]
fn nested_containers() {
    let version = python(3, 12);
    let mut memory = Memory::default();
    memory.object(0x100, 0x400, "list", PY_TPFLAGS_LIST_SUBCLASS);
    memory.lists.insert(0x100, ListObject { size: 1, item: 0x300 });
    // a list that holds itself
    memory.word(0x300, 0x100);
    assert_eq!(shown_as(&memory, &version, 0x100, 7), "[...]");
    assert_eq!(shown_as(&memory, &version, 0x100, 12), "[...]");
    assert_eq!(shown_as(&memory, &version, 0x100, 16), "[[...]]");
    assert_eq!(shown_as(&memory, &version, 0x100, 20), "[[[[...]]]]");
}

#[test]
fn floats_and_none() {
    let version = python(3, 12);
    let mut memory = Memory::default();
    memory.object(0x100, 0x400, "float", 0);
    memory.floats.insert(0x100, FloatObject { bits: 1.5f64.to_bits() });
    memory.object(0x200, 0x600, "NoneType", 0);
    assert_eq!(shown_as(&memory, &version, 0x100, 128), "1.5");
    assert_eq!(shown_as(&memory, &version, 0x200, 128), "None");
}

#[test]
fn numpy_scalars() {
    let version = python(3, 12);
    let cases: Vec<(&str, Vec<u8>, &str)> = vec![
        ("numpy.bool", vec![1], "1"),
        ("numpy.uint8", vec![200], "200"),
        ("numpy.uint16", 60000u16.to_ne_bytes().to_vec(), "60000"),
        ("numpy.uint32", 4000000000u32.to_ne_bytes().to_vec(), "4000000000"),
        ("numpy.uint64", u64::MAX.to_ne_bytes().to_vec(), "18446744073709551615"),
        ("numpy.int8", vec![0x80], "-128"),
        ("numpy.int16", (-2i16).to_ne_bytes().to_vec(), "-2"),
        ("numpy.int32", i32::MIN.to_ne_bytes().to_vec(), "-2147483648"),
        ("numpy.int64", (-1i64).to_ne_bytes().to_vec(), "-1"),
        ("numpy.int64", 5i64.to_ne_bytes().to_vec(), "5"),
        ("numpy.float32", 0.1f32.to_ne_bytes().to_vec(), "0.1"),
        ("numpy.float64", (-2.25f64).to_ne_bytes().to_vec(), "-2.25"),
        ("numpy.complex64", vec![0; 8], "<numpy.complex64 at 0x100>"),
    ];
    for (name, data, text) in cases {
        let mut memory = Memory::default();
        memory.object(0x100, 0x400, name, 0);
        memory.regions.push((0x100 + 2 * WORD, data));
        assert_eq!(shown_as(&memory, &version, 0x100, 128), text);
    }
}

#[test]
fn other_values() {
    let version = python(3, 12);
    let mut memory = Memory::default();
    memory.object(0xabcd, 0x400, "collections.deque", 0);
    assert_eq!(shown_as(&memory, &version, 0xabcd, 128), "<collections.deque at 0xabcd>");
    // names are cut off at 128 bytes
    let name = "x".repeat(128);
    memory.object(0xabcd, 0x600, &name, 0);
    assert_eq!(shown_as(&memory, &version, 0xabcd, 128), format!("<{name} at 0xabcd>"));
    let mut memory = Memory::default();
    memory.object(0x100, 0x400, "", 0);
    memory.regions.clear();
    memory.regions.push((0x440, vec![0xff; 128]));
    let mut process = Target::new(&memory);
    let err =
        format_variable(Bindings::V3_12_0, &mut process, &version, 0x100, 128).unwrap_err();
    assert!(matches!(root_cause(&err), Cause::NotUtf8(_)));
}

#[test]
fn answers_of_another_length() {
    let mut memory = Memory::default();
    memory.regions.push((0x100, vec![1, 2, 3]));
    assert_eq!(Target::new(&memory).copy(0x100, 3).unwrap().data, vec![1, 2, 3]);
    memory.drop_last_byte = true;
    // raw bytes are taken as they come, and only values of a fixed size need all of theirs
    assert_eq!(Target::new(&memory).copy(0x100, 3).unwrap().data, vec![1, 2]);
    let err = Target::new(&memory).block(0x100, 3).unwrap_err();
    assert_eq!(root_cause(&err).message(), "Read 2 of 3 bytes");

    memory.ascii(0x200, "abcd");
    memory.bytes_objects.insert(0x300, BytesObject { size: 3, address: 0x100 });
    let mut process = Target::new(&memory);
    assert_eq!(copy_string(Bindings::V3_7_0, 0x200, &mut process, true).unwrap(), "abc");
    assert_eq!(copy_bytes(Bindings::V3_7_0, 0x300, &mut process).unwrap(), vec![1, 2]);
}
