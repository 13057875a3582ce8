# pystack

Reads the Python interpreter of another process through copies of its memory: the stacks of its
threads, which of them holds the GIL, the names its threads were given, and its variables as text.

## Layout

- `src/target.rs`: how a process is read, and the record of everything it answered.
- `src/objects.rs`: the interpreter's structures, reduced to the fields that are read.
- `src/bytes.rs`, `src/strings.rs`, `src/text.rs`: integers out of bytes, Python's string
  representations, numerals.
- `src/python_data_access.rs`: strings, bytes, integers and dictionaries.
- `src/variables.rs`: values as human readable text.
- `src/stack_trace.rs`: stack traces of threads and interpreters.
- `src/python_threading.rs`: thread names.
- `src/error.rs`: errors with their chain of causes.
- `app/`: live processes, `anyhow` errors and serialised output around the library.

## How contracts are written

Nothing is assumed of the process that is read: any read may fail, and two reads of one place may
differ. A `Target` keeps a ghost log of every question put to the process and its answer, and its
contracts tie each entry to the call that gave the answer: the process asked is the one the target
was made for, and its integers are taken in the byte order of the machine. Each operation is described by a spec function, named `.._run`, from a log and a place in it to what the
operation comes to and where in the log it ends. It says for every sequence of answers which
question comes next, and what is returned in the end. The contract of the executable function says
that its result, and the log it leaves behind, are those of the run.

Proof functions named `law_..` state what follows for all logs: what a stored string is copied as,
when a trace is an error trace, what a cache holds after which reads.
