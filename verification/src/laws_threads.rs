//! What thread names come to, said of the structures and strings that were read.
use vstd::prelude::*;

#[allow(unused_imports)]
use crate::error::Cause;
#[allow(unused_imports)]
use crate::objects::{Bindings, DebugOffsets, InterpreterState, Object, TypeObject};
#[allow(unused_imports)]
use crate::python_data_access::{
    dict_run, long_run, managed_dict_run, next_run, string_run, DictIterator,
};
#[allow(unused_imports)]
use crate::python_threading::{
    active_run, attributes_run, find_run, module_dict_run, modules_run, names_run, naming_bindings,
    thread_name_run, threading_run,
};
#[allow(unused_imports)]
use crate::target::{done, failed, interpreter_at, struct_at, word_at, Event};
#[allow(unused_imports)]
use crate::version::Version;

verus! {

/// Looking for a key takes the entries in turn, reads each key as a string, and stops at the first
/// that is the one wanted, with the value of that entry.
pub proof fn law_finding_a_key(
    l: Seq<Event>,
    p: int,
    bindings: Bindings,
    it: DictIterator,
    wanted: Seq<char>,
    key: usize,
    value: usize,
    q: int,
    rest: DictIterator,
    name: Seq<char>,
    r: int,
)
    ensures
        ({
            let run = find_run(l, p, bindings, it, wanted);
            let step = next_run(l, p, it);
            let text = string_run(l, q, bindings, key, true);
            &&& step.0.out matches Err(causes) ==> run == failed::<Option<usize>>(
                causes,
                step.0.next,
            )
            &&& step.0 == done(None::<(usize, usize)>, q) ==> run == done(None::<usize>, q)
            &&& step == (done(Some((key, value)), q), rest) ==> {
                &&& text.out matches Err(causes) ==> run == failed::<Option<usize>>(
                    causes,
                    text.next,
                )
                &&& text == done(name, r) && name == wanted ==> run == done(Some(value), r)
                &&& text == done(name, r) && name != wanted ==> run == find_run(
                    l,
                    r,
                    bindings,
                    rest,
                    wanted,
                )
            }
        }),
{
}

/// The attributes of an object are in its managed dictionary where its type says that it has one,
/// and otherwise in the dictionary whose address stands at the offset that its type gives.
pub proof fn law_attributes(
    l: Seq<Event>,
    p: int,
    bindings: Bindings,
    version: &Version,
    addr: usize,
    object: Object,
    class: TypeObject,
    place: usize,
)
    requires
        struct_at::<Object>(l, p, bindings, addr) == done(object, p + 1),
        struct_at::<TypeObject>(l, p + 1, bindings, object.ob_type) == done(class, p + 2),
        class.flags & 0x10 == 0 ==> place == addr + class.dictoffset,
    ensures
        ({
            let run = attributes_run(l, p, bindings, version, addr);
            let dict = word_at(l, p + 2, place);
            &&& class.flags & 0x10 != 0 ==> run == managed_dict_run(
                l,
                p + 2,
                version,
                addr,
                object.ob_type,
                class.flags,
            )
            &&& class.flags & 0x10 == 0 ==> match dict.out {
                Ok(at) => run == dict_run(l, dict.next, version, at),
                Err(causes) => run == failed::<DictIterator>(causes, dict.next),
            }
        }),
{
}

/// The attributes of a module are in the dictionary whose address stands at the offset that its type
/// gives.
pub proof fn law_module_attributes(
    l: Seq<Event>,
    p: int,
    bindings: Bindings,
    version: &Version,
    addr: usize,
    object: Object,
    class: TypeObject,
    place: usize,
)
    requires
        struct_at::<Object>(l, p, bindings, addr) == done(object, p + 1),
        struct_at::<TypeObject>(l, p + 1, bindings, object.ob_type) == done(class, p + 2),
        class.dictoffset >= 0,
        place == addr + class.dictoffset,
    ensures
        ({
            let run = module_dict_run(l, p, bindings, version, addr);
            let dict = word_at(l, p + 2, place);
            match dict.out {
                Ok(at) => run == dict_run(l, dict.next, version, at),
                Err(causes) => run == failed::<DictIterator>(causes, dict.next),
            }
        }),
{
}

/// Attributes fail where the object or its type cannot be read.
pub proof fn law_attributes_fail(
    l: Seq<Event>,
    p: int,
    bindings: Bindings,
    version: &Version,
    addr: usize,
    object: Object,
)
    ensures
        struct_at::<Object>(l, p, bindings, addr).out matches Err(causes) ==> attributes_run(
            l,
            p,
            bindings,
            version,
            addr,
        ).out == Err::<DictIterator, Seq<Cause>>(causes) && module_dict_run(
            l,
            p,
            bindings,
            version,
            addr,
        ).out == Err::<DictIterator, Seq<Cause>>(causes),
        struct_at::<Object>(l, p, bindings, addr) == done(object, p + 1) ==> (struct_at::<
            TypeObject,
        >(l, p + 1, bindings, object.ob_type).out matches Err(causes) ==> attributes_run(
            l,
            p,
            bindings,
            version,
            addr,
        ).out == Err::<DictIterator, Seq<Cause>>(causes) && module_dict_run(
            l,
            p,
            bindings,
            version,
            addr,
        ).out == Err::<DictIterator, Seq<Cause>>(causes)),
{
}

proof fn lemma_names()
    ensures
        "_name"@ == seq!['_', 'n', 'a', 'm', 'e'],
        "_active"@ == seq!['_', 'a', 'c', 't', 'i', 'v', 'e'],
        "threading"@ == seq!['t', 'h', 'r', 'e', 'a', 'd', 'i', 'n', 'g'],
{
    reveal_strlit("_name");
    reveal_strlit("_active");
    reveal_strlit("threading");
    assert("_name"@ =~= seq!['_', 'n', 'a', 'm', 'e']);
    assert("_active"@ =~= seq!['_', 'a', 'c', 't', 'i', 'v', 'e']);
    assert("threading"@ =~= seq!['t', 'h', 'r', 'e', 'a', 'd', 'i', 'n', 'g']);
}

/// The name of a thread is the string that its attribute `_name` leads to, if it has one.
pub proof fn law_thread_name(
    l: Seq<Event>,
    p: int,
    bindings: Bindings,
    version: &Version,
    addr: usize,
    it: DictIterator,
    q: int,
)
    requires
        attributes_run(l, p, bindings, version, addr) == done(it, q),
    ensures
        ({
            let run = thread_name_run(l, p, bindings, version, addr);
            let found = find_run(l, q, bindings, it, seq!['_', 'n', 'a', 'm', 'e']);
            match found.out {
                Err(causes) => run == failed::<Option<Seq<char>>>(causes, found.next),
                Ok(None) => run == done(None::<Seq<char>>, found.next),
                Ok(Some(ptr)) => {
                    let text = string_run(l, found.next, bindings, ptr, true);
                    &&& run.next == text.next
                    &&& match text.out {
                        Ok(name) => run.out == Ok::<Option<Seq<char>>, Seq<Cause>>(Some(name)),
                        Err(causes) => run.out == Err::<Option<Seq<char>>, Seq<Cause>>(causes),
                    }
                },
            }
        }),
{
    lemma_names();
}

/// The active threads are taken in turn: the key of each is its id, and the object of each leads to
/// its name, which goes into the map under that id. A thread without a name is passed over, and
/// the first that cannot be read ends it all.
pub proof fn law_active_thread(
    l: Seq<Event>,
    p: int,
    bindings: Bindings,
    version: &Version,
    it: DictIterator,
    names: Map<u64, Seq<char>>,
    key: usize,
    value: usize,
    q: int,
    rest: DictIterator,
    id: i64,
    overflowed: bool,
    r: int,
)
    ensures
        ({
            let run = active_run(l, p, bindings, version, it, names);
            let step = next_run(l, p, it);
            let long = long_run(l, q, version, key);
            let name = thread_name_run(l, r, bindings, version, value);
            &&& step.0.out matches Err(causes) ==> run.out == Err::<
                Map<u64, Seq<char>>,
                Seq<Cause>,
            >(causes)
            &&& step.0 == done(None::<(usize, usize)>, q) ==> run == done(names, q)
            &&& step == (done(Some((key, value)), q), rest) ==> {
                &&& long.out matches Err(causes) ==> run.out == Err::<
                    Map<u64, Seq<char>>,
                    Seq<Cause>,
                >(causes)
                &&& long == done((id, overflowed), r) ==> match name.out {
                    Err(causes) => run.out == Err::<Map<u64, Seq<char>>, Seq<Cause>>(causes),
                    Ok(None) => run == active_run(l, name.next, bindings, version, rest, names),
                    Ok(Some(text)) => run == active_run(
                        l,
                        name.next,
                        bindings,
                        version,
                        rest,
                        names.insert(id as u64, text),
                    ),
                }
            }
        }),
{
    crate::python_data_access::law_next_advances(l, p, it);
}

/// The names of a threading module are those of the dictionary that its `_active` is, and none where
/// it has no such attribute.
pub proof fn law_threading_module(
    l: Seq<Event>,
    p: int,
    bindings: Bindings,
    version: &Version,
    addr: usize,
    it: DictIterator,
    q: int,
)
    requires
        module_dict_run(l, p, bindings, version, addr) == done(it, q),
    ensures
        ({
            let run = threading_run(l, p, bindings, version, addr);
            let found = find_run(l, q, bindings, it, seq!['_', 'a', 'c', 't', 'i', 'v', 'e']);
            match found.out {
                Err(causes) => run.out == Err::<Map<u64, Seq<char>>, Seq<Cause>>(causes),
                Ok(None) => run == done(Map::<u64, Seq<char>>::empty(), found.next),
                Ok(Some(active)) => {
                    let dict = dict_run(l, found.next, version, active);
                    match dict.out {
                        Err(causes) => run.out == Err::<Map<u64, Seq<char>>, Seq<Cause>>(causes),
                        Ok(threads) => run == active_run(
                            l,
                            dict.next,
                            bindings,
                            version,
                            threads,
                            Map::empty(),
                        ),
                    }
                },
            }
        }),
{
    lemma_names();
}

/// The names of an interpreter are those of the module that its dictionary of modules holds under
/// `threading`, and none where that is not imported.
pub proof fn law_modules(
    l: Seq<Event>,
    p: int,
    bindings: Bindings,
    version: &Version,
    modules_ptr: usize,
    modules: usize,
    it: DictIterator,
    q: int,
)
    ensures
        ({
            let run = modules_run(l, p, bindings, version, modules_ptr);
            let pointer = word_at(l, p, modules_ptr);
            let dict = dict_run(l, p + 1, version, modules);
            let found = find_run(
                l,
                q,
                bindings,
                it,
                seq!['t', 'h', 'r', 'e', 'a', 'd', 'i', 'n', 'g'],
            );
            &&& pointer.out matches Err(causes) ==> run.out == Err::<
                Map<u64, Seq<char>>,
                Seq<Cause>,
            >(causes.push(Cause::Message("Failed to copy modules PyObject")))
            &&& pointer == done(modules, p + 1) ==> {
                &&& dict.out matches Err(causes) ==> run.out == Err::<
                    Map<u64, Seq<char>>,
                    Seq<Cause>,
                >(causes)
                &&& dict == done(it, q) ==> match found.out {
                    Err(causes) => run.out == Err::<Map<u64, Seq<char>>, Seq<Cause>>(causes),
                    Ok(None) => run == done(Map::<u64, Seq<char>>::empty(), found.next),
                    Ok(Some(module)) => run == threading_run(
                        l,
                        found.next,
                        bindings,
                        version,
                        module,
                    ),
                }
            }
        }),
{
    lemma_names();
}

/// The pointer to the dictionary of modules stands in the interpreter state: at the offset that the
/// headers give or, in Python 3.14, at the one that the runtime of the target gives, which is then
/// remembered, and used from then on without asking.
pub proof fn law_modules_place(
    l: Seq<Event>,
    p: int,
    bindings: Bindings,
    version: &Version,
    interpreter_address: usize,
    state: InterpreterState,
    runtime_at: usize,
    runtime: usize,
    offsets: DebugOffsets,
    cached: usize,
)
    ensures
        ({
            let newest = version.major == 3 && version.minor == 14;
            let fresh = names_run(l, p, bindings, version, interpreter_address, None);
            let again = names_run(l, p, bindings, version, interpreter_address, Some(cached));
            &&& !newest && interpreter_at(l, p, bindings) == done(state, p + 1) && interpreter_address
                + state.modules <= usize::MAX ==> {
                let place = (interpreter_address + state.modules) as usize;
                &&& fresh == (modules_run(l, p + 1, bindings, version, place), None::<usize>)
                &&& again == (modules_run(l, p + 1, bindings, version, place), Some(cached))
            }
            &&& newest && interpreter_address + cached <= usize::MAX ==> again == (
                modules_run(
                    l,
                    p,
                    bindings,
                    version,
                    (interpreter_address + cached) as usize,
                ),
                Some(cached),
            )
            &&& newest && interpreter_at(l, p, Bindings::V3_14_0) == done(state, p + 1)
                && runtime_at == interpreter_address + state.runtime ==> {
                &&& word_at(l, p + 1, runtime_at).out matches Err(causes) ==> fresh.0.out == Err::<
                    Map<u64, Seq<char>>,
                    Seq<Cause>,
                >(causes) && fresh.1 is None
                &&& word_at(l, p + 1, runtime_at) == done(runtime, p + 2) ==> {
                    let read = struct_at::<DebugOffsets>(l, p + 2, Bindings::V3_14_0, runtime);
                    &&& read.out matches Err(causes) ==> fresh.0.out == Err::<
                        Map<u64, Seq<char>>,
                        Seq<Cause>,
                    >(causes) && fresh.1 is None
                    &&& read == done(offsets, p + 3) && interpreter_address
                        + offsets.imports_modules <= usize::MAX ==> fresh == (
                        modules_run(
                            l,
                            p + 3,
                            bindings,
                            version,
                            (interpreter_address + offsets.imports_modules) as usize,
                        ),
                        Some(offsets.imports_modules),
                    )
                }
            }
        }),
{
}

/// The structures of each Python version are declared by bindings of its own.
pub proof fn law_naming_bindings(version: &Version)
    ensures
        version.major != 3 || version.minor < 6 || version.minor > 14 ==> naming_bindings(version)
            is None,
        version.major == 3 ==> {
            &&& version.minor == 6 ==> naming_bindings(version) == Some(Bindings::V3_6_6)
            &&& version.minor == 7 ==> naming_bindings(version) == Some(Bindings::V3_7_0)
            &&& version.minor == 8 ==> naming_bindings(version) == Some(Bindings::V3_8_0)
            &&& version.minor == 9 ==> naming_bindings(version) == Some(Bindings::V3_9_5)
            &&& version.minor == 10 ==> naming_bindings(version) == Some(Bindings::V3_10_0)
            &&& version.minor == 11 ==> naming_bindings(version) == Some(Bindings::V3_11_0)
            &&& version.minor == 12 ==> naming_bindings(version) == Some(Bindings::V3_12_0)
            &&& version.minor == 13 ==> naming_bindings(version) == Some(Bindings::V3_13_0)
            &&& version.minor == 14 ==> naming_bindings(version) == Some(Bindings::V3_14_0)
        },
{
}

/// Names fail where the attributes that they are looked for in cannot be found.
pub proof fn law_names_fail(
    l: Seq<Event>,
    p: int,
    bindings: Bindings,
    version: &Version,
    addr: usize,
)
    ensures
        attributes_run(l, p, bindings, version, addr).out matches Err(causes) ==> thread_name_run(
            l,
            p,
            bindings,
            version,
            addr,
        ).out == Err::<Option<Seq<char>>, Seq<Cause>>(causes),
        module_dict_run(l, p, bindings, version, addr).out matches Err(causes) ==> threading_run(
            l,
            p,
            bindings,
            version,
            addr,
        ).out == Err::<Map<u64, Seq<char>>, Seq<Cause>>(causes),
{
}

} // verus!
