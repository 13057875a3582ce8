use pystack::bytes::{word_size, ByteOrder, Copied};
use pystack::error::{Cause, Error, InvalidString, ReadError, Utf8Fault};
use pystack::stack_trace::{Frame, ProcessInfo, StackTrace};
use pystack::strings::{decode_name, decode_string, utf8_outcome};
use pystack::text::{decimal, hex, upper_hex};

#[test]
fn numerals() {
    assert_eq!(decimal(0), "0");
    assert_eq!(decimal(1234567890), "1234567890");
    assert_eq!(decimal(-42), "-42");
    assert_eq!(decimal(u64::MAX as i128), u64::MAX.to_string());
    assert_eq!(decimal(i64::MIN as i128), i64::MIN.to_string());
    assert_eq!(hex(0), "0");
    assert_eq!(hex(0xdead_beef), "deadbeef");
    assert_eq!(upper_hex(0xdead_beef), "DEADBEEF");
    for n in [0u64, 9, 10, 15, 16, 255, 256, u64::MAX] {
        assert_eq!(u64::from_str_radix(&hex(n), 16), Ok(n));
        assert_eq!(decimal(n as i128).parse(), Ok(n));
    }
}

#[test]
fn integers_in_both_byte_orders() {
    let data: Vec<u8> = vec![1, 2, 3, 4, 5, 6, 7, 8];
    let little = Copied { data: data.clone(), order: ByteOrder::Little };
    let big = Copied { data, order: ByteOrder::Big };
    assert_eq!(little.unit(0, 1), 1);
    assert_eq!(little.unit(1, 2), 0x0403);
    assert_eq!(big.unit(1, 2), 0x0304);
    assert_eq!(little.unit(1, 4), 0x08070605);
    assert_eq!(big.unit(1, 4), 0x05060708);
    assert_eq!(little.unit(0, 8), 0x0807060504030201);
    assert_eq!(big.unit(0, 8), 0x0102030405060708);
    assert_eq!(word_size(), std::mem::size_of::<usize>());
}

#[test]
fn strings_in_both_byte_orders() {
    let text = "\u{1d4bd}a";
    for (order, data) in [
        (ByteOrder::Little, text.chars().flat_map(|c| (c as u32).to_le_bytes()).collect::<Vec<u8>>()),
        (ByteOrder::Big, text.chars().flat_map(|c| (c as u32).to_be_bytes()).collect()),
    ] {
        assert_eq!(decode_string(4, false, Copied { data, order }, true).unwrap(), text);
    }
    for (order, data) in [
        (ByteOrder::Little, text.encode_utf16().flat_map(|u| u.to_le_bytes()).collect::<Vec<u8>>()),
        (ByteOrder::Big, text.encode_utf16().flat_map(|u| u.to_be_bytes()).collect()),
    ] {
        assert_eq!(decode_string(2, false, Copied { data, order }, true).unwrap(), text);
    }
}

#[test]
fn leftover_bytes_are_ignored() {
    let bytes = Copied { data: vec![0x61, 0, 0, 0, 0x62], order: ByteOrder::Little };
    assert_eq!(decode_string(4, false, bytes, true).unwrap(), "a");
}

#[test]
fn names() {
    let bytes: Vec<u8> = "na\u{ef}ve\0rest".bytes().collect();
    assert_eq!(decode_name(&bytes, 6), Ok("na\u{ef}ve".to_owned()));
    assert_eq!(decode_name(&bytes, 3), Err(Utf8Fault { valid_up_to: 2, error_len: None }));
    assert_eq!(decode_name(&bytes, 0), Ok(String::new()));
}

#[test]
fn outcomes_of_decoding() {
    let fault = Utf8Fault { valid_up_to: 1, error_len: Some(1) };
    for check_utf8 in [false, true] {
        assert_eq!(utf8_outcome(Ok("text".to_owned()), check_utf8).unwrap(), "text");
    }
    assert!(matches!(utf8_outcome(Err(fault), true), Err(Cause::Invalid(_))));
    match utf8_outcome(Err(fault), false) {
        Err(Cause::NotUtf8(reported)) => assert_eq!(reported, fault),
        other => panic!("unexpected outcome: {other:?}"),
    }
}

#[test]
fn utf8_faults_are_described_as_by_std() {
    let cases: Vec<Vec<u8>> = vec![
        vec![0xff],
        vec![b'a', 0xc3],
        vec![b'a', 0xc3, b'b'],
        vec![b'a', b'b', 0xe2, 0x82],
        vec![b'a', 0xe2, 0x82, b'x'],
        vec![0xf0, 0x9f, 0x98, b'x'],
        vec![0xed, 0xa0, 0x80],
        vec![0xc0, 0x80],
    ];
    for data in cases {
        let expected = String::from_utf8(data.clone()).unwrap_err();
        let fault = decode_name(&data, data.len()).unwrap_err();
        assert_eq!(fault.valid_up_to, expected.utf8_error().valid_up_to());
        assert_eq!(fault.error_len, expected.utf8_error().error_len());
        assert_eq!(fault.message(), expected.to_string());
        let bytes = Copied { data, order: ByteOrder::Little };
        let cause = decode_string(1, true, bytes, false).unwrap_err();
        assert_eq!(cause.message(), expected.to_string());
    }
}

#[test]
fn messages() {
    let texts: Vec<String> = [
        Cause::Read(ReadError { message: "no such process".to_owned() }),
        Cause::ShortRead { wanted: 8, got: 3 },
        Cause::Invalid(InvalidString),
        Cause::StringTooLong(5000),
        Cause::BytesTooLong(70000),
        Cause::UnknownKind(7),
        Cause::NotUtf8(Utf8Fault { valid_up_to: 3, error_len: Some(2) }),
        Cause::NotUtf8(Utf8Fault { valid_up_to: 3, error_len: None }),
        Cause::NotUtf16,
        Cause::Message("Failed to copy filename"),
    ]
    .iter()
    .map(|cause| cause.message())
    .collect();
    assert_eq!(
        texts,
        vec![
            "no such process",
            "Read 3 of 8 bytes",
            "invalid string read from target process",
            "Refusing to copy 5000 chars of a string",
            "Refusing to copy 70000 bytes",
            "Unknown string kind 7",
            "invalid utf-8 sequence of 2 bytes from index 3",
            "incomplete utf-8 byte sequence from index 3",
            "invalid utf-16: lone surrogate found",
            "Failed to copy filename",
        ]
    );
    let std_error = String::from_utf16(&[0xd800]).unwrap_err();
    assert_eq!(Cause::NotUtf16.message(), std_error.to_string());
    assert_eq!(InvalidString.message(), "invalid string read from target process");
}

#[test]
fn context_is_added_outside() {
    let err = Error::new(Cause::NotUtf16).context("inner").context("outer");
    let texts: Vec<String> = err.causes().iter().map(|cause| cause.message()).collect();
    assert_eq!(texts, vec!["invalid utf-16: lone surrogate found", "inner", "outer"]);
}

fn trace(active: bool, owns_gil: bool, os_thread_id: Option<u64>) -> StackTrace {
    StackTrace {
        pid: 1,
        thread_id: 0xab12,
        thread_name: None,
        os_thread_id,
        active,
        owns_gil,
        error: false,
        frames: Vec::new(),
        process_info: None,
    }
}

#[test]
fn statuses() {
    assert_eq!(trace(false, false, None).status_str(), "idle");
    assert_eq!(trace(false, true, None).status_str(), "idle");
    assert_eq!(trace(true, false, None).status_str(), "active");
    assert_eq!(trace(true, true, None).status_str(), "active+gil");
}

#[test]
fn thread_ids() {
    assert_eq!(trace(true, true, Some(4567)).format_threadid(false), "4567");
    assert_eq!(trace(true, true, None).format_threadid(false), "0xAB12");
    assert_eq!(trace(true, true, Some(4567)).format_threadid(true), "0xAB12");
    assert_eq!(trace(true, true, None).format_threadid(true), "0xAB12");
}

#[test]
fn process_frames() {
    let info = ProcessInfo {
        pid: 77,
        command_line: "python app.py".to_owned(),
        parent: Some(Box::new(ProcessInfo {
            pid: 1,
            command_line: "init".to_owned(),
            parent: None,
        })),
    };
    let frame = info.to_frame();
    assert_eq!(
        frame,
        Frame {
            name: "process 77:\"python app.py\"".to_owned(),
            filename: String::new(),
            module: None,
            short_filename: None,
            line: 0,
            locals: None,
            is_entry: true,
            is_shim_entry: true,
        }
    );
    let copy = info.clone();
    assert_eq!(copy.to_frame(), frame);
    assert_eq!(copy.parent.unwrap().command_line, "init");
}
