use intercept::compiler::{mpi_probe_flags, parse_probe_output, Classifier, MpiCalls};
use intercept::text::basename;

fn strings(items: &[&str]) -> Vec<String> {
    items.iter().map(|s| s.to_string()).collect()
}

fn classifier() -> Classifier {
    Classifier::new(false, &[], &[])
}

#[test]
fn ccache_is_looked_through() {
    let result = classifier().split(&strings(&["ccache", "gcc", "-c", "x.c"]), &MpiCalls::new());
    assert_eq!(Some(("gcc".to_string(), strings(&["-c", "x.c"]))), result);
}

#[test]
fn wrappers_nest() {
    let result =
        classifier().split(&strings(&["/usr/bin/distcc", "ccache", "clang++", "a.cpp"]), &MpiCalls::new());
    assert_eq!(Some(("clang++".to_string(), strings(&["a.cpp"]))), result);
}

#[test]
fn a_bare_wrapper_is_the_compiler() {
    let result = classifier().split(&strings(&["ccache", "-c", "x.c"]), &MpiCalls::new());
    assert_eq!(Some(("ccache".to_string(), strings(&["-c", "x.c"]))), result);
}

#[test]
fn a_script_is_no_compiler() {
    assert_eq!(None, classifier().split(&strings(&["python", "script.py"]), &MpiCalls::new()));
    assert_eq!(None, classifier().split(&[], &MpiCalls::new()));
}

#[test]
fn known_names_are_compilers() {
    for name in [
        "gcc", "cc", "icc", "xlc", "gxlc", "clang", "clang-3.8", "gcc-7", "gcc7.2",
        "arm-none-eabi-gcc", "/usr/bin/gcc", "mcc",
    ]
    .iter()
    {
        let result = classifier().split(&strings(&[name, "x.c"]), &MpiCalls::new());
        assert_eq!(Some((name.to_string(), strings(&["x.c"]))), result, "{}", name);
    }
    for name in ["g++", "c++", "cxx", "CC", "icpc", "xlC", "xlc++", "clang++-6.0", "x86_64-linux-gnu-g++-9"].iter() {
        let result = classifier().split(&strings(&[name, "x.cc"]), &MpiCalls::new());
        assert_eq!(Some((name.to_string(), strings(&["x.cc"]))), result, "{}", name);
    }
    for name in ["ld", "gcc-ar", "clang-tidy", "make", "Gcc"].iter() {
        assert_eq!(None, classifier().split(&strings(&[name, "x.c"]), &MpiCalls::new()), "{}", name);
    }
}

#[test]
fn only_listed_compilers_count_when_asked() {
    let sut = Classifier::new(true, &strings(&["/opt/bin/mycc"]), &strings(&["mycxx"]));
    assert_eq!(None, sut.split(&strings(&["gcc", "x.c"]), &MpiCalls::new()));
    assert_eq!(
        Some(("/usr/local/mycc".to_string(), strings(&["x.c"]))),
        sut.split(&strings(&["/usr/local/mycc", "x.c"]), &MpiCalls::new())
    );
    assert_eq!(
        Some(("mycxx".to_string(), strings(&["x.cc"]))),
        sut.split(&strings(&["mycxx", "x.cc"]), &MpiCalls::new())
    );
}

#[test]
fn listed_compilers_add_to_the_known_names() {
    let sut = Classifier::new(false, &strings(&["mycc"]), &[]);
    assert!(sut.split(&strings(&["mycc", "x.c"]), &MpiCalls::new()).is_some());
    assert!(sut.split(&strings(&["gcc", "x.c"]), &MpiCalls::new()).is_some());
}

#[test]
fn mpi_wrapper_is_resolved_by_its_answer() {
    let sut = classifier();
    let command = strings(&["mpicc", "-c", "x.c"]);
    let mut mpi = MpiCalls::new();
    assert_eq!(Some("mpicc".to_string()), sut.pending_probe(&command, &mpi));
    assert_eq!(None, sut.split(&command, &mpi));

    mpi.record("mpicc".to_string(), Some(strings(&["gcc", "-I/opt/mpi/include", "-pthread"])));
    assert_eq!(None, sut.pending_probe(&command, &mpi));
    assert_eq!(
        Some(("gcc".to_string(), strings(&["-I/opt/mpi/include", "-pthread", "-c", "x.c"]))),
        sut.split(&command, &mpi)
    );
}

#[test]
fn a_failed_probe_is_no_compiler() {
    let sut = classifier();
    let mut mpi = MpiCalls::new();
    mpi.record("mpicxx".to_string(), None);
    let command = strings(&["mpicxx", "x.cc"]);
    assert_eq!(None, sut.pending_probe(&command, &mpi));
    assert_eq!(None, sut.split(&command, &mpi));
}

#[test]
fn a_wrapper_around_an_unresolved_mpi_wrapper_is_the_compiler() {
    let sut = classifier();
    let command = strings(&["ccache", "mpicc", "x.c"]);
    let mpi = MpiCalls::new();
    assert_eq!(Some("mpicc".to_string()), sut.pending_probe(&command, &mpi));
    assert_eq!(Some(("ccache".to_string(), strings(&["mpicc", "x.c"]))), sut.split(&command, &mpi));
}

#[test]
fn an_mpi_wrapper_that_names_itself_is_no_compiler() {
    let sut = classifier();
    let mut mpi = MpiCalls::new();
    mpi.record("mpicc".to_string(), Some(strings(&["mpicc", "-g"])));
    let command = strings(&["mpicc", "x.c"]);
    assert_eq!(None, sut.pending_probe(&command, &mpi));
    assert_eq!(None, sut.split(&command, &mpi));
}

#[test]
fn probe_flags_are_show_then_showme() {
    assert_eq!(strings(&["--show", "--showme"]), mpi_probe_flags());
}

#[test]
fn probe_output_first_line_is_split_as_shell_words() {
    assert_eq!(
        Some(strings(&["gcc", "-I/usr/include/my mpi", "-lmpi"])),
        parse_probe_output(true, "gcc \"-I/usr/include/my mpi\" -lmpi\nsecond line\n")
    );
    assert_eq!(Some(strings(&["cc", "-g"])), parse_probe_output(true, "cc -g\r\n"));
}

#[test]
fn failed_or_empty_probes_give_nothing() {
    assert_eq!(None, parse_probe_output(false, "gcc -g\n"));
    assert_eq!(None, parse_probe_output(true, ""));
    assert_eq!(None, parse_probe_output(true, "\ngcc\n"));
    assert_eq!(None, parse_probe_output(true, "gcc 'unterminated\n"));
}

#[test]
fn basename_takes_the_last_component() {
    assert_eq!("gcc", basename("/usr/bin/gcc"));
    assert_eq!("gcc", basename("gcc"));
    assert_eq!("/usr/bin/", basename("/usr/bin/"));
    assert_eq!("", basename(""));
}
