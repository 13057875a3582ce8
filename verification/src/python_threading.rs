//! The names that Python code gave to its threads.
use std::collections::HashMap;

use vstd::prelude::*;

use crate::error::Error;
#[allow(unused_imports)]
use crate::error::Cause;
use crate::objects::{Bindings, DebugOffsets, Object, TypeObject};
#[allow(unused_imports)]
use crate::python_data_access::{
    dict_run, law_next_advances, long_run, managed_dict_run, next_run, string_run,
};
use crate::python_data_access::{
    copy_long, copy_string, DictIterator, PY_TPFLAGS_MANAGED_DICT,
};
use crate::target::{ProcessMemory, Target};
#[allow(unused_imports)]
use crate::target::{
    continued, done, failed, grown, interpreter_at, ran, struct_at, with_context, word_at, Event,
    Run,
};
use crate::version::Version;

verus! {

/// Looks through the entries of a dictionary for the first whose key is the string `wanted`, and
/// comes to its value.
pub open spec fn find_run(
    l: Seq<Event>,
    p: int,
    bindings: Bindings,
    it: DictIterator,
    wanted: Seq<char>,
) -> Run<Option<usize>>
    decreases it.entries - it.index,
{
    let (item, rest) = next_run(l, p, it);
    match item.out {
        Err(causes) => failed(causes, item.next),
        Ok(None) => done(None, item.next),
        Ok(Some((key, value))) => {
            let name = string_run(l, item.next, bindings, key, true);
            match name.out {
                Err(causes) => failed(causes, name.next),
                Ok(text) => if text == wanted {
                    done(Some(value), name.next)
                } else {
                    proof {
                        law_next_advances(l, p, it);
                    }
                    find_run(l, name.next, bindings, rest, wanted)
                },
            }
        },
    }
}

fn find_entry<P: ProcessMemory>(
    bindings: Bindings,
    process: &mut Target<P>,
    entries: DictIterator,
    wanted: &'static str,
) -> (r: Result<Option<usize>, Error>)
    ensures
        continued(*old(process), *final(process)),
        forall|l: Seq<Event>|
            grown(final(process).log(), l) ==> #[trigger] find_run(
                l,
                old(process).log().len() as int,
                bindings,
                entries,
                wanted@,
            ) == ran(r, final(process).log()),
{
    let mut it = entries;
    let ghost start = process.log().len() as int;
    let wanted_name = wanted.to_owned();
    loop
        invariant
            wanted_name@ == wanted@,
            start == old(process).log().len(),
            continued(*old(process), *process),
            forall|l: Seq<Event>|
                grown(process.log(), l) ==> #[trigger] find_run(
                    l,
                    start,
                    bindings,
                    entries,
                    wanted@,
                ) == find_run(l, process.log().len() as int, bindings, it, wanted@),
        decreases it.entries - it.index,
    {
        let ghost before = process.log().len() as int;
        let ghost from = it;
        match it.next(process) {
            None => {
                return Ok(None);
            },
            Some(Err(e)) => {
                return Err(e);
            },
            Some(Ok((key, value))) => {
                proof {
                    law_next_advances(process.log(), before, from);
                    assert(next_run(process.log(), before, from).1 == it);
                }
                match copy_string(bindings, key, process, true) {
                    Ok(name) => {
                        if name == wanted_name {
                            return Ok(Some(value));
                        }
                    },
                    Err(e) => {
                        return Err(e);
                    },
                }
            },
        }
    }
}

/// Starts the iteration of the attributes of the object at `addr`.
pub open spec fn attributes_run(
    l: Seq<Event>,
    p: int,
    bindings: Bindings,
    version: &Version,
    addr: usize,
) -> Run<DictIterator> {
    let object = struct_at::<Object>(l, p, bindings, addr);
    match object.out {
        Err(causes) => failed(causes, object.next),
        Ok(head) => {
            let type_read = struct_at::<TypeObject>(l, object.next, bindings, head.ob_type);
            match type_read.out {
                Err(causes) => failed(causes, type_read.next),
                Ok(class) => if class.flags & PY_TPFLAGS_MANAGED_DICT != 0 {
                    managed_dict_run(
                        l,
                        type_read.next,
                        version,
                        addr,
                        head.ob_type,
                        class.flags,
                    )
                } else {
                    let dict = word_at(
                        l,
                        type_read.next,
                        addr.wrapping_add_signed(class.dictoffset),
                    );
                    match dict.out {
                        Err(causes) => failed(causes, dict.next),
                        Ok(dict_addr) => dict_run(l, dict.next, version, dict_addr),
                    }
                },
            }
        },
    }
}

fn start_attributes<P: ProcessMemory>(
    bindings: Bindings,
    process: &mut Target<P>,
    version: &Version,
    addr: usize,
) -> (r: Result<DictIterator, Error>)
    ensures
        continued(*old(process), *final(process)),
        forall|l: Seq<Event>|
            grown(final(process).log(), l) ==> #[trigger] attributes_run(
                l,
                old(process).log().len() as int,
                bindings,
                version,
                addr,
            ) == ran(r, final(process).log()),
{
    let thread: Object = match process.copy_struct(bindings, addr) {
        Ok(thread) => thread,
        Err(e) => {
            return Err(e);
        },
    };
    let thread_type: TypeObject = match process.copy_struct(bindings, thread.ob_type) {
        Ok(thread_type) => thread_type,
        Err(e) => {
            return Err(e);
        },
    };
    let flags = thread_type.flags;
    if flags & PY_TPFLAGS_MANAGED_DICT != 0 {
        DictIterator::from_managed_dict(process, version, addr, thread.ob_type, flags)
    } else {
        match process.word(addr.wrapping_add_signed(thread_type.dictoffset)) {
            Ok(thread_dict_addr) => DictIterator::from(process, version, thread_dict_addr),
            Err(e) => Err(e),
        }
    }
}

/// Copies the `_name` of the thread object at `addr`, if it has one.
pub open spec fn thread_name_run(
    l: Seq<Event>,
    p: int,
    bindings: Bindings,
    version: &Version,
    addr: usize,
) -> Run<Option<Seq<char>>> {
    let attributes = attributes_run(l, p, bindings, version, addr);
    match attributes.out {
        Err(causes) => failed(causes, attributes.next),
        Ok(it) => {
            let found = find_run(l, attributes.next, bindings, it, "_name"@);
            match found.out {
                Err(causes) => failed(causes, found.next),
                Ok(None) => done(None, found.next),
                Ok(Some(ptr)) => {
                    let name = string_run(l, found.next, bindings, ptr, true);
                    match name.out {
                        Err(causes) => failed(causes, name.next),
                        Ok(text) => done(Some(text), name.next),
                    }
                },
            }
        },
    }
}

fn copy_thread_name<P: ProcessMemory>(
    bindings: Bindings,
    process: &mut Target<P>,
    version: &Version,
    addr: usize,
) -> (r: Result<Option<String>, Error>)
    ensures
        continued(*old(process), *final(process)),
        forall|l: Seq<Event>|
            grown(final(process).log(), l) ==> #[trigger] thread_name_run(
                l,
                old(process).log().len() as int,
                bindings,
                version,
                addr,
            ) == (match r {
                Ok(Some(name)) => done(Some(name@), final(process).log().len() as int),
                Ok(None) => done(None, final(process).log().len() as int),
                Err(e) => failed(e@, final(process).log().len() as int),
            }),
{
    let attributes = match start_attributes(bindings, process, version, addr) {
        Ok(attributes) => attributes,
        Err(e) => {
            return Err(e);
        },
    };
    match find_entry(bindings, process, attributes, "_name") {
        Ok(Some(ptr)) => match copy_string(bindings, ptr, process, true) {
            Ok(name) => Ok(Some(name)),
            Err(e) => Err(e),
        },
        Ok(None) => Ok(None),
        Err(e) => Err(e),
    }
}

/// Collects the names of the threads in the rest of the `_active` dictionary, which maps thread
/// ids to thread objects, on top of `names`.
pub open spec fn active_run(
    l: Seq<Event>,
    p: int,
    bindings: Bindings,
    version: &Version,
    it: DictIterator,
    names: Map<u64, Seq<char>>,
) -> Run<Map<u64, Seq<char>>>
    decreases it.entries - it.index,
{
    let (item, rest) = next_run(l, p, it);
    match item.out {
        Err(causes) => failed(causes, item.next),
        Ok(None) => done(names, item.next),
        Ok(Some((key, value))) => {
            let id = long_run(l, item.next, version, key);
            match id.out {
                Err(causes) => failed(causes, id.next),
                Ok((threadid, _)) => {
                    let name = thread_name_run(l, id.next, bindings, version, value);
                    match name.out {
                        Err(causes) => failed(causes, name.next),
                        Ok(found) => {
                            proof {
                                law_next_advances(l, p, it);
                            }
                            active_run(
                                l,
                                name.next,
                                bindings,
                                version,
                                rest,
                                match found {
                                    Some(text) => names.insert(threadid as u64, text),
                                    None => names,
                                },
                            )
                        },
                    }
                },
            }
        },
    }
}

/// Names by thread id, with their text taken by its view.
pub open spec fn names_view(names: Map<u64, String>) -> Map<u64, Seq<char>> {
    names.map_values(|name: String| name@)
}

/// The run that came to these names, and left the log as `log`.
pub open spec fn ran_names(r: Result<HashMap<u64, String>, Error>, log: Seq<Event>) -> Run<
    Map<u64, Seq<char>>,
> {
    match r {
        Ok(names) => done(names_view(names@), log.len() as int),
        Err(e) => failed(e@, log.len() as int),
    }
}

fn collect_active<P: ProcessMemory>(
    bindings: Bindings,
    process: &mut Target<P>,
    version: &Version,
    entries: DictIterator,
) -> (r: Result<HashMap<u64, String>, Error>)
    ensures
        continued(*old(process), *final(process)),
        forall|l: Seq<Event>|
            grown(final(process).log(), l) ==> #[trigger] active_run(
                l,
                old(process).log().len() as int,
                bindings,
                version,
                entries,
                Map::empty(),
            ) == ran_names(r, final(process).log()),
{
    broadcast use vstd::std_specs::hash::group_hash_axioms;

    let mut it = entries;
    let mut ret: HashMap<u64, String> = HashMap::new();
    let ghost start = process.log().len() as int;
    assert(names_view(ret@) =~= Map::<u64, Seq<char>>::empty());
    loop
        invariant
            start == old(process).log().len(),
            continued(*old(process), *process),
            forall|l: Seq<Event>|
                grown(process.log(), l) ==> #[trigger] active_run(
                    l,
                    start,
                    bindings,
                    version,
                    entries,
                    Map::empty(),
                ) == active_run(
                    l,
                    process.log().len() as int,
                    bindings,
                    version,
                    it,
                    names_view(ret@),
                ),
        decreases it.entries - it.index,
    {
        let ghost before = process.log().len() as int;
        let ghost from = it;
        let ghost names = ret@;
        match it.next(process) {
            None => {
                return Ok(ret);
            },
            Some(Err(e)) => {
                return Err(e);
            },
            Some(Ok((key, value))) => {
                proof {
                    law_next_advances(process.log(), before, from);
                    assert(next_run(process.log(), before, from).1 == it);
                }
                let threadid: i64 = match copy_long(process, version, key) {
                    Ok((threadid, _)) => threadid,
                    Err(e) => {
                        return Err(e);
                    },
                };
                match copy_thread_name(bindings, process, version, value) {
                    Ok(Some(name)) => {
                        ret.insert(threadid as u64, name);
                        assert(names_view(ret@) =~= names_view(names).insert(
                            threadid as u64,
                            name@,
                        ));
                    },
                    Ok(None) => {},
                    Err(e) => {
                        return Err(e);
                    },
                }
            },
        }
    }
}

/// Whether the place of the modules has to be looked up in the runtime of the target.
pub open spec fn has_debug_offsets(version: &Version) -> bool {
    version.major == 3 && version.minor == 14
}

/// Finds where the pointer to the dictionary of modules is. In python 3.14 that takes an offset
/// which the target is asked for unless it is in `cache`; comes with the cache as it is left.
pub open spec fn modules_ptr_run(
    l: Seq<Event>,
    p: int,
    bindings: Bindings,
    version: &Version,
    interpreter_address: usize,
    cache: Option<usize>,
) -> (Run<usize>, Option<usize>) {
    if !has_debug_offsets(version) {
        let interpreter = interpreter_at(l, p, bindings);
        match interpreter.out {
            Err(causes) => (failed(causes, interpreter.next), cache),
            Ok(state) => (
                done(interpreter_address.wrapping_add(state.modules), interpreter.next),
                cache,
            ),
        }
    } else if cache is Some {
        (done(interpreter_address.wrapping_add(cache->0), p), cache)
    } else {
        let interpreter = interpreter_at(l, p, Bindings::V3_14_0);
        match interpreter.out {
            Err(causes) => (failed(causes, interpreter.next), cache),
            Ok(state) => {
                let runtime = word_at(
                    l,
                    interpreter.next,
                    interpreter_address.wrapping_add(state.runtime),
                );
                match runtime.out {
                    Err(causes) => (failed(causes, runtime.next), cache),
                    Ok(addr) => {
                        let offsets = struct_at::<DebugOffsets>(
                            l,
                            runtime.next,
                            Bindings::V3_14_0,
                            addr,
                        );
                        match offsets.out {
                            Err(causes) => (failed(causes, offsets.next), cache),
                            Ok(found) => (
                                done(
                                    interpreter_address.wrapping_add(found.imports_modules),
                                    offsets.next,
                                ),
                                Some(found.imports_modules),
                            ),
                        }
                    },
                }
            },
        }
    }
}

fn find_modules_ptr<P: ProcessMemory>(
    bindings: Bindings,
    interpreter_address: usize,
    process: &mut Target<P>,
    version: &Version,
    modules_offset: &mut Option<usize>,
) -> (r: Result<usize, Error>)
    ensures
        continued(*old(process), *final(process)),
        forall|l: Seq<Event>|
            grown(final(process).log(), l) ==> #[trigger] modules_ptr_run(
                l,
                old(process).log().len() as int,
                bindings,
                version,
                interpreter_address,
                *old(modules_offset),
            ) == (ran(r, final(process).log()), *final(modules_offset)),
{
    if version.major == 3 && version.minor == 14 {
        let offset: usize = match *modules_offset {
            Some(offset) => offset,
            None => {
                let field: usize = process.interpreter(Bindings::V3_14_0).runtime;
                let runtime: usize = match process.word(interpreter_address.wrapping_add(field)) {
                    Ok(runtime) => runtime,
                    Err(e) => {
                        return Err(e);
                    },
                };
                let offsets: DebugOffsets = match process.copy_struct(
                    Bindings::V3_14_0,
                    runtime,
                ) {
                    Ok(offsets) => offsets,
                    Err(e) => {
                        return Err(e);
                    },
                };
                *modules_offset = Some(offsets.imports_modules);
                offsets.imports_modules
            },
        };
        Ok(interpreter_address.wrapping_add(offset))
    } else {
        Ok(interpreter_address.wrapping_add(process.interpreter(bindings).modules))
    }
}

/// Finds the `__dict__` of the module object at `addr`.
pub open spec fn module_dict_run(
    l: Seq<Event>,
    p: int,
    bindings: Bindings,
    version: &Version,
    addr: usize,
) -> Run<DictIterator> {
    let object = struct_at::<Object>(l, p, bindings, addr);
    match object.out {
        Err(causes) => failed(causes, object.next),
        Ok(head) => {
            let type_read = struct_at::<TypeObject>(l, object.next, bindings, head.ob_type);
            match type_read.out {
                Err(causes) => failed(causes, type_read.next),
                Ok(class) => {
                    let dict = word_at(
                        l,
                        type_read.next,
                        addr.wrapping_add(class.dictoffset as usize),
                    );
                    match dict.out {
                        Err(causes) => failed(causes, dict.next),
                        Ok(dict_addr) => dict_run(l, dict.next, version, dict_addr),
                    }
                },
            }
        },
    }
}

fn start_module_dict<P: ProcessMemory>(
    bindings: Bindings,
    process: &mut Target<P>,
    version: &Version,
    addr: usize,
) -> (r: Result<DictIterator, Error>)
    ensures
        continued(*old(process), *final(process)),
        forall|l: Seq<Event>|
            grown(final(process).log(), l) ==> #[trigger] module_dict_run(
                l,
                old(process).log().len() as int,
                bindings,
                version,
                addr,
            ) == ran(r, final(process).log()),
{
    let module: Object = match process.copy_struct(bindings, addr) {
        Ok(module) => module,
        Err(e) => {
            return Err(e);
        },
    };
    let module_type: TypeObject = match process.copy_struct(bindings, module.ob_type) {
        Ok(module_type) => module_type,
        Err(e) => {
            return Err(e);
        },
    };
    match process.word(addr.wrapping_add(module_type.dictoffset as usize)) {
        Ok(dictptr) => DictIterator::from(process, version, dictptr),
        Err(e) => Err(e),
    }
}

/// Collects thread names from the `threading` module at `addr`.
pub open spec fn threading_run(
    l: Seq<Event>,
    p: int,
    bindings: Bindings,
    version: &Version,
    addr: usize,
) -> Run<Map<u64, Seq<char>>> {
    let dict = module_dict_run(l, p, bindings, version, addr);
    match dict.out {
        Err(causes) => failed(causes, dict.next),
        Ok(it) => {
            let found = find_run(l, dict.next, bindings, it, "_active"@);
            match found.out {
                Err(causes) => failed(causes, found.next),
                Ok(None) => done(Map::empty(), found.next),
                Ok(Some(value)) => {
                    let active = dict_run(l, found.next, version, value);
                    match active.out {
                        Err(causes) => failed(causes, active.next),
                        Ok(entries) => active_run(
                            l,
                            active.next,
                            bindings,
                            version,
                            entries,
                            Map::empty(),
                        ),
                    }
                },
            }
        },
    }
}

/// Collects thread names from the modules whose dictionary the pointer at `modules_ptr` leads to.
pub open spec fn modules_run(
    l: Seq<Event>,
    p: int,
    bindings: Bindings,
    version: &Version,
    modules_ptr: usize,
) -> Run<Map<u64, Seq<char>>> {
    let pointer = with_context(word_at(l, p, modules_ptr), "Failed to copy modules PyObject");
    match pointer.out {
        Err(causes) => failed(causes, pointer.next),
        Ok(modules) => {
            let dict = dict_run(l, pointer.next, version, modules);
            match dict.out {
                Err(causes) => failed(causes, dict.next),
                Ok(it) => {
                    let found = find_run(l, dict.next, bindings, it, "threading"@);
                    match found.out {
                        Err(causes) => failed(causes, found.next),
                        Ok(None) => done(Map::empty(), found.next),
                        Ok(Some(value)) => threading_run(l, found.next, bindings, version, value),
                    }
                },
            }
        },
    }
}

/// Collects thread names from an interpreter. Comes with the cache of the modules offset as it is
/// left.
pub open spec fn names_run(
    l: Seq<Event>,
    p: int,
    bindings: Bindings,
    version: &Version,
    interpreter_address: usize,
    cache: Option<usize>,
) -> (Run<Map<u64, Seq<char>>>, Option<usize>) {
    let (place, left) = modules_ptr_run(l, p, bindings, version, interpreter_address, cache);
    match place.out {
        Err(causes) => (failed(causes, place.next), left),
        Ok(ptr) => (modules_run(l, place.next, bindings, version, ptr), left),
    }
}

/// Returns a hashmap of threadid: threadname, by inspecting the '_active' variable in the
/// 'threading' module.
pub fn thread_names_from_interpreter<P: ProcessMemory>(
    bindings: Bindings,
    interpreter_address: usize,
    process: &mut Target<P>,
    version: &Version,
    modules_offset: &mut Option<usize>,
) -> (r: Result<HashMap<u64, String>, Error>)
    ensures
        continued(*old(process), *final(process)),
        forall|l: Seq<Event>|
            grown(final(process).log(), l) ==> #[trigger] names_run(
                l,
                old(process).log().len() as int,
                bindings,
                version,
                interpreter_address,
                *old(modules_offset),
            ) == (ran_names(r, final(process).log()), *final(modules_offset)),
{
    broadcast use vstd::std_specs::hash::group_hash_axioms;

    let modules_ptr: usize = match find_modules_ptr(
        bindings,
        interpreter_address,
        process,
        version,
        modules_offset,
    ) {
        Ok(modules_ptr) => modules_ptr,
        Err(e) => {
            return Err(e);
        },
    };
    let modules: usize = match process.word(modules_ptr) {
        Ok(modules) => modules,
        Err(e) => {
            return Err(e.context("Failed to copy modules PyObject"));
        },
    };
    let entries = match DictIterator::from(process, version, modules) {
        Ok(entries) => entries,
        Err(e) => {
            return Err(e);
        },
    };
    let nothing: HashMap<u64, String> = HashMap::new();
    assert(names_view(nothing@) =~= Map::<u64, Seq<char>>::empty());
    let module: usize = match find_entry(bindings, process, entries, "threading") {
        Ok(Some(module)) => module,
        Ok(None) => {
            return Ok(nothing);
        },
        Err(e) => {
            return Err(e);
        },
    };
    let attributes = match start_module_dict(bindings, process, version, module) {
        Ok(attributes) => attributes,
        Err(e) => {
            return Err(e);
        },
    };
    let active: usize = match find_entry(bindings, process, attributes, "_active") {
        Ok(Some(active)) => active,
        Ok(None) => {
            return Ok(nothing);
        },
        Err(e) => {
            return Err(e);
        },
    };
    match DictIterator::from(process, version, active) {
        Ok(threads) => collect_active(bindings, process, version, threads),
        Err(e) => Err(e),
    }
}

/// A Python process that is being sampled.
pub struct PythonSpy<'a, P> {
    pub process: Target<'a, P>,
    pub version: Version,
    pub interpreter_address: usize,
    /// Where the modules are in an interpreter state, once that was found out.
    pub python_modules_offset: Option<usize>,
}

/// The bindings to look up thread names with.
pub open spec fn naming_bindings(version: &Version) -> Option<Bindings> {
    if version.major != 3 {
        None
    } else if version.minor == 6 {
        Some(Bindings::V3_6_6)
    } else if version.minor == 7 {
        Some(Bindings::V3_7_0)
    } else if version.minor == 8 {
        Some(Bindings::V3_8_0)
    } else if version.minor == 9 {
        Some(Bindings::V3_9_5)
    } else if version.minor == 10 {
        Some(Bindings::V3_10_0)
    } else if version.minor == 11 {
        Some(Bindings::V3_11_0)
    } else if version.minor == 12 {
        Some(Bindings::V3_12_0)
    } else if version.minor == 13 {
        Some(Bindings::V3_13_0)
    } else if version.minor == 14 {
        Some(Bindings::V3_14_0)
    } else {
        None
    }
}

fn select_naming_bindings(version: &Version) -> (r: Option<Bindings>)
    ensures
        r == naming_bindings(version),
{
    match (version.major, version.minor) {
        (3, 6) => Some(Bindings::V3_6_6),
        (3, 7) => Some(Bindings::V3_7_0),
        (3, 8) => Some(Bindings::V3_8_0),
        (3, 9) => Some(Bindings::V3_9_5),
        (3, 10) => Some(Bindings::V3_10_0),
        (3, 11) => Some(Bindings::V3_11_0),
        (3, 12) => Some(Bindings::V3_12_0),
        (3, 13) => Some(Bindings::V3_13_0),
        (3, 14) => Some(Bindings::V3_14_0),
        _ => None,
    }
}

/// Tries getting the threadnames, but doesn't sweat it if it can't. Since this relies on
/// dictionary processing only py3.6+ is handled right now, and this doesn't work at all if the
/// threading module isn't imported in the target program.
pub fn thread_name_lookup<P: ProcessMemory>(process: &mut PythonSpy<P>) -> (r: Option<
    HashMap<u64, String>,
>)
    ensures
        final(process).version == old(process).version,
        final(process).interpreter_address == old(process).interpreter_address,
        continued(old(process).process, final(process).process),
        naming_bindings(&old(process).version) is None ==> {
            &&& r is None
            &&& final(process).process.log() == old(process).process.log()
            &&& final(process).python_modules_offset == old(process).python_modules_offset
        },
        naming_bindings(&old(process).version) matches Some(bindings) ==> forall|l: Seq<Event>|
            grown(final(process).process.log(), l) ==> {
                let (run, left) = #[trigger] names_run(
                    l,
                    old(process).process.log().len() as int,
                    bindings,
                    &old(process).version,
                    old(process).interpreter_address,
                    old(process).python_modules_offset,
                );
                &&& run.next == final(process).process.log().len()
                &&& left == final(process).python_modules_offset
                &&& match run.out {
                    Ok(names) => r is Some && names_view(r->0@) == names,
                    Err(_) => r is None,
                }
            },
{
    match select_naming_bindings(&process.version) {
        Some(bindings) => match thread_names_from_interpreter(
            bindings,
            process.interpreter_address,
            &mut process.process,
            &process.version,
            &mut process.python_modules_offset,
        ) {
            Ok(names) => Some(names),
            Err(_) => None,
        },
        None => None,
    }
}

/// Once the modules offset is cached it stays as it is, whatever comes of the lookup, and the
/// target is not asked for it again.
pub proof fn law_cached_offset_is_kept(
    l: Seq<Event>,
    p: int,
    bindings: Bindings,
    version: &Version,
    interpreter_address: usize,
    offset: usize,
)
    ensures
        names_run(l, p, bindings, version, interpreter_address, Some(offset)).1 == Some(offset),
        has_debug_offsets(version) ==> names_run(
            l,
            p,
            bindings,
            version,
            interpreter_address,
            Some(offset),
        ).0 == modules_run(l, p, bindings, version, interpreter_address.wrapping_add(offset)),
{
}

/// An offset is cached exactly where it was read, even if the lookup fails afterwards: a failed
/// read leaves the cache empty, so that the next lookup tries again.
pub proof fn law_offset_is_cached_once_read(
    l: Seq<Event>,
    p: int,
    bindings: Bindings,
    version: &Version,
    interpreter_address: usize,
)
    ensures
        ({
            let (place, _) = modules_ptr_run(l, p, bindings, version, interpreter_address, None);
            let (_, left) = names_run(l, p, bindings, version, interpreter_address, None);
            if has_debug_offsets(version) {
                &&& left is Some <==> place.out is Ok
                &&& left matches Some(offset) ==> place.out == Ok::<usize, Seq<Cause>>(
                    interpreter_address.wrapping_add(offset),
                )
            } else {
                left is None
            }
        }),
{
}

/// Thread names are looked up for Python 3.6 to 3.14.
pub proof fn law_supported_versions(version: &Version)
    ensures
        naming_bindings(version) is Some <==> version.major == 3 && 6 <= version.minor <= 14,
{
}

/// Without a threading module, or without active threads in it, there are no names, which is no
/// failure.
pub proof fn law_no_threading_module(
    l: Seq<Event>,
    p: int,
    bindings: Bindings,
    version: &Version,
    modules_ptr: usize,
    modules: usize,
    it: DictIterator,
)
    requires
        word_at(l, p, modules_ptr) == done(modules, p + 1),
        dict_run(l, p + 1, version, modules).out == Ok::<DictIterator, Seq<Cause>>(it),
        find_run(
            l,
            dict_run(l, p + 1, version, modules).next,
            bindings,
            it,
            "threading"@,
        ).out == Ok::<Option<usize>, Seq<Cause>>(None),
    ensures
        modules_run(l, p, bindings, version, modules_ptr).out == Ok::<
            Map<u64, Seq<char>>,
            Seq<Cause>,
        >(Map::empty()),
{
}

proof fn lemma_active_run_bound(
    l: Seq<Event>,
    p: int,
    bindings: Bindings,
    version: &Version,
    it: DictIterator,
    names: Map<u64, Seq<char>>,
    room: nat,
)
    requires
        names.dom().finite(),
        it.index <= it.entries,
        names.dom().len() + (it.entries - it.index) <= room,
    ensures
        active_run(l, p, bindings, version, it, names).out matches Ok(all) ==> {
            &&& all.dom().finite()
            &&& all.dom().len() <= room
        },
    decreases it.entries - it.index,
{
    law_next_advances(l, p, it);
    let (item, rest) = next_run(l, p, it);
    if let Ok(Some((key, value))) = item.out {
        let id = long_run(l, item.next, version, key);
        if let Ok((threadid, _)) = id.out {
            let name = thread_name_run(l, id.next, bindings, version, value);
            if let Ok(found) = name.out {
                let next = match found {
                    Some(text) => names.insert(threadid as u64, text),
                    None => names,
                };
                lemma_active_run_bound(l, name.next, bindings, version, rest, next, room);
            }
        }
    }
}

/// There are no more names than entries in the dictionary of active threads.
pub proof fn law_names_are_bounded(
    l: Seq<Event>,
    p: int,
    bindings: Bindings,
    version: &Version,
    it: DictIterator,
)
    requires
        it.index <= it.entries,
    ensures
        active_run(l, p, bindings, version, it, Map::empty()).out matches Ok(names) ==> {
            &&& names.dom().finite()
            &&& names.dom().len() <= it.entries - it.index
        },
{
    lemma_active_run_bound(
        l,
        p,
        bindings,
        version,
        it,
        Map::empty(),
        (it.entries - it.index) as nat,
    );
}

/// Copies the id of each thread that `it` has left of the `_active` dictionary, and its `_name` if
/// it has one.
pub open spec fn named_run(
    l: Seq<Event>,
    p: int,
    bindings: Bindings,
    version: &Version,
    it: DictIterator,
) -> Run<Seq<(u64, Option<Seq<char>>)>>
    decreases it.entries - it.index,
{
    proof {
        law_next_advances(l, p, it);
    }
    let (item, rest) = next_run(l, p, it);
    match item.out {
        Err(causes) => failed(causes, item.next),
        Ok(None) => done(Seq::empty(), item.next),
        Ok(Some((key, value))) => {
            let id = long_run(l, item.next, version, key);
            match id.out {
                Err(causes) => failed(causes, id.next),
                Ok((threadid, _)) => {
                    let name = thread_name_run(l, id.next, bindings, version, value);
                    match name.out {
                        Err(causes) => failed(causes, name.next),
                        Ok(found) => {
                            let others = named_run(l, name.next, bindings, version, rest);
                            match others.out {
                                Err(causes) => failed(causes, others.next),
                                Ok(threads) => done(
                                    seq![(threadid as u64, found)] + threads,
                                    others.next,
                                ),
                            }
                        },
                    }
                },
            }
        },
    }
}

/// The names with those of these threads inserted one after the other, as far as they have any.
pub open spec fn with_names(
    names: Map<u64, Seq<char>>,
    threads: Seq<(u64, Option<Seq<char>>)>,
) -> Map<u64, Seq<char>>
    decreases threads.len(),
{
    if threads.len() == 0 {
        names
    } else {
        with_names(
            match threads[0].1 {
                Some(name) => names.insert(threads[0].0, name),
                None => names,
            },
            threads.skip(1),
        )
    }
}

/// The names are those of the active threads that have one, inserted by thread id in the order of
/// the dictionary, so that the last of two with the same id stays. Where a thread cannot be read
/// there are no names at all.
pub proof fn law_names_of_active_threads(
    l: Seq<Event>,
    p: int,
    bindings: Bindings,
    version: &Version,
    it: DictIterator,
    names: Map<u64, Seq<char>>,
)
    ensures
        ({
            let run = active_run(l, p, bindings, version, it, names);
            let active = named_run(l, p, bindings, version, it);
            match active.out {
                Err(causes) => run == failed::<Map<u64, Seq<char>>>(causes, active.next),
                Ok(threads) => run == done(with_names(names, threads), active.next),
            }
        }),
    decreases it.entries - it.index,
{
    law_next_advances(l, p, it);
    let (item, rest) = next_run(l, p, it);
    if let Ok(Some((key, value))) = item.out {
        let id = long_run(l, item.next, version, key);
        if let Ok((threadid, _)) = id.out {
            let name = thread_name_run(l, id.next, bindings, version, value);
            if let Ok(found) = name.out {
                let next = match found {
                    Some(text) => names.insert(threadid as u64, text),
                    None => names,
                };
                law_names_of_active_threads(l, name.next, bindings, version, rest, next);
                let others = named_run(l, name.next, bindings, version, rest);
                if let Ok(threads) = others.out {
                    assert((seq![(threadid as u64, found)] + threads).skip(1) =~= threads);
                }
            }
        }
    }
}

} // verus!
