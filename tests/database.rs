use intercept::builder::{merge, Builder, Format};
use intercept::call::{CompilationError, CompilerCall};
use intercept::compiler::{Classifier, MpiCalls};
use intercept::entry::{self, Entry};
use intercept::event::{Event, Timestamp};
use intercept::pass::CompilerPass;

fn strings(items: &[&str]) -> Vec<String> {
    items.iter().map(|s| s.to_string()).collect()
}

fn when() -> Timestamp {
    Timestamp { seconds: 1_500_000_000, nanos: 0 }
}

fn created(cwd: &str, cmd: &[&str]) -> Event {
    Event::Created { pid: 42, ppid: 1, cwd: cwd.to_string(), cmd: strings(cmd), when: when() }
}

fn entry(directory: &str, file: &str, command: &[&str], output: &str) -> Entry {
    Entry {
        directory: directory.to_string(),
        file: file.to_string(),
        command: strings(command),
        output: Some(output.to_string()),
    }
}

fn view(e: &Entry) -> (String, String, Vec<String>, Option<String>) {
    (e.directory.clone(), e.file.clone(), e.command.clone(), e.output.clone())
}

fn views(entries: &[Entry]) -> Vec<(String, String, Vec<String>, Option<String>)> {
    entries.iter().map(view).collect()
}

fn builder(append: bool, include_linking: bool) -> Builder {
    Builder { append_to_existing: append, include_linking, compilers: Classifier::new(false, &[], &[]) }
}

#[test]
fn parse_reads_pass_flags_sources_and_output() {
    let call = CompilerCall::parse(
        "/src",
        "gcc",
        strings(&["-c", "-D", "NAME", "-I", "inc", "-Wall", "-MD", "-o", "out.o", "main.c", "notes.txt"]),
    )
    .unwrap();
    assert_eq!("/src", call.work_dir());
    assert_eq!("gcc", call.compiler());
    assert_eq!(CompilerPass::Compilation, call.pass());
    assert_eq!(&strings(&["-D", "NAME", "-I", "inc", "-Wall"]), call.flags());
    assert_eq!(&strings(&["main.c"]), call.sources());
    assert_eq!(Some("out.o"), call.output());
}

#[test]
fn parse_refuses_what_does_not_compile() {
    assert_eq!(
        Err(CompilationError::NotCompiling),
        CompilerCall::parse("/", "gcc", strings(&["-E", "x.c"])).map(|c| c.pass())
    );
    assert_eq!(
        Err(CompilationError::NotCompiling),
        CompilerCall::parse("/", "gcc", strings(&["-v"])).map(|c| c.pass())
    );
    assert_eq!(
        Err(CompilationError::NoSourceFiles),
        CompilerCall::parse("/", "gcc", strings(&["-c", "x.o", "-o", "y.c"])).map(|c| c.pass())
    );
    assert_eq!(
        Err(CompilationError::CompilerNotRecognized),
        CompilerCall::from(&Classifier::new(false, &[], &[]), "/", &strings(&["ls", "x.c"]), &MpiCalls::new())
            .map(|c| c.pass())
    );
}

#[test]
fn every_source_extension_is_recognized() {
    let names = [
        "a.c", "a.i", "a.ii", "a.m", "a.mi", "a.mm", "a.mii", "a.C", "a.cc", "a.CC", "a.cp", "a.cpp",
        "a.cxx", "a.c++", "a.C++", "a.txx", "a.s", "a.S", "a.sx", "a.asm",
    ];
    for name in names.iter() {
        let call = CompilerCall::parse("/", "cc", strings(&["-c", name])).unwrap();
        assert_eq!(&strings(&[name]), call.sources());
    }
    let call = CompilerCall::parse("/", "cc", strings(&["-c", "a.h", "a.o", "lib.a", "x.c"])).unwrap();
    assert_eq!(&strings(&["x.c"]), call.sources());
}

#[test]
fn linking_two_sources_gives_two_compile_entries() {
    let call = CompilerCall::parse("/proj", "cc", strings(&["a.c", "b.c"])).unwrap();
    assert_eq!(CompilerPass::Linking, call.pass());
    let entries = Entry::from(&call);
    assert_eq!(
        vec![
            view(&entry("/proj", "a.c", &["cc", "-c", "a.c", "-o", "a.o"], "a.o")),
            view(&entry("/proj", "b.c", &["cc", "-c", "b.c", "-o", "b.o"], "b.o")),
        ],
        views(&entries)
    );
}

#[test]
fn explicit_output_is_used_for_a_single_source_only() {
    let call = CompilerCall::parse("/p", "cc", strings(&["-c", "a.c", "b.c", "-o", "out.o"])).unwrap();
    let entries = entry::from(&call);
    assert_eq!(Some("a.o".to_string()), entries[0].output);
    assert_eq!(Some("b.o".to_string()), entries[1].output);

    let call = CompilerCall::parse("/p", "cc", strings(&["a.c", "-o", "prog"])).unwrap();
    assert_eq!(Some("a.o".to_string()), entry::from(&call)[0].output);

    let call = CompilerCall::parse("/p", "cc", strings(&["-S", "a.c", "-o", "a.s"])).unwrap();
    assert_eq!(Some("a.s".to_string()), entry::from(&call)[0].output);
}

#[test]
fn object_names_replace_or_append_the_extension() {
    let cases = [
        ("src/main.cpp", "src/main.o"),
        ("x.tar.c", "x.tar.o"),
        ("dir.d/x.c", "dir.d/x.o"),
        ("foo..c", "foo..o"),
    ];
    for (source, object) in cases.iter() {
        let call = CompilerCall::parse("/p", "cc", strings(&[source])).unwrap();
        assert_eq!(Some(object.to_string()), entry::from(&call)[0].output);
    }
}

#[test]
fn one_created_event_yields_one_entry() {
    let events = vec![created("/proj", &["gcc", "-c", "foo.c", "-o", "foo.o"])];
    let result = builder(false, false).build(&events, Vec::new(), &MpiCalls::new());
    assert_eq!(
        vec![view(&entry("/proj", "foo.c", &["gcc", "-c", "foo.c", "-o", "foo.o"], "foo.o"))],
        views(&result)
    );
}

#[test]
fn preprocessing_events_yield_no_entry() {
    let events = vec![
        created("/proj", &["gcc", "-E", "foo.c"]),
        created("/proj", &["gcc", "-E", "-c", "foo.c", "-o", "foo.i"]),
        created("/proj", &["gcc", "-c", "-M", "foo.c"]),
        created("/proj", &["clang", "-cc1", "-c", "foo.c"]),
    ];
    assert!(builder(false, true).build(&events, Vec::new(), &MpiCalls::new()).is_empty());
}

#[test]
fn termination_events_are_ignored() {
    let events = vec![
        Event::TerminatedNormally { pid: 42, code: 0, when: when() },
        Event::TerminatedAbnormally { pid: 43, signal: "SIGKILL".to_string(), when: when() },
    ];
    assert!(builder(false, true).build(&events, Vec::new(), &MpiCalls::new()).is_empty());
    assert_eq!(43, events[1].pid());
    assert!(events[0].to_execution().is_none());
}

#[test]
fn linking_calls_are_recorded_only_when_asked() {
    let events = vec![created("/p", &["cc", "a.c", "-o", "prog"])];
    assert!(builder(false, false).build(&events, Vec::new(), &MpiCalls::new()).is_empty());
    let result = builder(false, true).build(&events, Vec::new(), &MpiCalls::new());
    assert_eq!(vec![view(&entry("/p", "a.c", &["cc", "-c", "a.c", "-o", "a.o"], "a.o"))], views(&result));
    assert!(builder(false, true).records(CompilerPass::Linking));
    assert!(!builder(false, false).records(CompilerPass::Linking));
    assert!(builder(false, false).records(CompilerPass::Compilation));
}

#[test]
fn mpi_events_use_the_recorded_answer() {
    let mut mpi = MpiCalls::new();
    mpi.record("mpicc".to_string(), Some(strings(&["gcc", "-I/mpi"])));
    let events = vec![created("/p", &["mpicc", "-c", "x.c"])];
    let result = builder(false, false).build(&events, Vec::new(), &mpi);
    assert_eq!(
        vec![view(&entry("/p", "x.c", &["gcc", "-c", "-I/mpi", "x.c", "-o", "x.o"], "x.o"))],
        views(&result)
    );
}

#[test]
fn merge_keeps_the_newest_entry_of_each_file() {
    let previous = vec![
        entry("/p", "a.c", &["cc", "-c", "a.c", "-o", "a.o"], "a.o"),
        entry("/p", "b.c", &["cc", "-c", "b.c", "-o", "b.o"], "b.o"),
        entry("/q", "a.c", &["cc", "-c", "a.c", "-o", "a.o"], "a.o"),
    ];
    let current = vec![
        entry("/p", "a.c", &["cc", "-c", "-O2", "a.c", "-o", "a.o"], "a.o"),
        entry("/p", "c.c", &["cc", "-c", "c.c", "-o", "c.o"], "c.o"),
        entry("/p", "c.c", &["cc", "-c", "-g", "c.c", "-o", "c.o"], "c.o"),
    ];
    let result = merge(previous, current);
    assert_eq!(
        vec![
            view(&entry("/p", "b.c", &["cc", "-c", "b.c", "-o", "b.o"], "b.o")),
            view(&entry("/q", "a.c", &["cc", "-c", "a.c", "-o", "a.o"], "a.o")),
            view(&entry("/p", "a.c", &["cc", "-c", "-O2", "a.c", "-o", "a.o"], "a.o")),
            view(&entry("/p", "c.c", &["cc", "-c", "-g", "c.c", "-o", "c.o"], "c.o")),
        ],
        views(&result)
    );
    assert!(merge(Vec::new(), Vec::new()).is_empty());
}

#[test]
fn building_twice_adds_nothing() {
    let sut = builder(true, false);
    let events = vec![
        created("/p", &["gcc", "-c", "a.c"]),
        created("/p", &["gcc", "-c", "b.c"]),
        created("/p", &["gcc", "-c", "a.c", "-DX"]),
    ];
    let start = vec![entry("/p", "old.c", &["cc", "-c", "old.c", "-o", "old.o"], "old.o")];
    let once = sut.build(&events, start, &MpiCalls::new());
    let again = sut.build(&events, once.iter().map(|e| entry_copy(e)).collect(), &MpiCalls::new());
    assert_eq!(3, once.len());
    assert_eq!(views(&once), views(&again));
}

#[test]
fn without_append_the_previous_entries_are_dropped() {
    let start = vec![entry("/p", "old.c", &["cc", "-c", "old.c", "-o", "old.o"], "old.o")];
    let events = vec![created("/p", &["gcc", "-c", "a.c"])];
    let result = builder(false, false).build(&events, start, &MpiCalls::new());
    assert_eq!(1, result.len());
    assert_eq!("a.c", result[0].file);
}

#[test]
fn transform_re_reads_stored_commands() {
    let stored = vec![
        entry("/p", "a.c", &["ccache", "gcc", "-c", "-MD", "a.c", "-o", "x/a.o"], "x/a.o"),
        entry("/p", "b.c", &["gcc", "-E", "b.c"], "b.i"),
    ];
    let result = builder(false, false).transform(&stored, &MpiCalls::new());
    assert_eq!(
        vec![view(&entry("/p", "a.c", &["gcc", "-c", "a.c", "-o", "x/a.o"], "x/a.o"))],
        views(&result)
    );
}

#[test]
fn defaults() {
    let b = Builder::default();
    assert!(!b.append_to_existing);
    assert!(!b.include_linking);
    let f = Format::default();
    assert!(f.relative_to.is_none());
    assert!(f.command_as_array);
    assert!(!f.drop_output_field);
    assert!(f.drop_wrapper);
}

fn entry_copy(e: &Entry) -> Entry {
    Entry { directory: e.directory.clone(), file: e.file.clone(), command: e.command.clone(), output: e.output.clone() }
}
