use intercept::pass::{advance, CompilerPass};

#[test]
fn test_default_stays_linker() {
    let mut sut: CompilerPass = Default::default();
    assert_eq!(CompilerPass::Linking, sut);

    assert_eq!(false, sut.take("--not_this"));
    assert_eq!(CompilerPass::Linking, sut);
}

#[test]
fn test_compilation_updates_linker() {
    let mut sut: CompilerPass = Default::default();
    assert_eq!(CompilerPass::Linking, sut);

    assert_eq!(true, sut.take("-c"));
    assert_eq!(false, sut.take("--not_this"));
    assert_eq!(CompilerPass::Compilation, sut);
}

#[test]
fn test_prepocessor_updates_linker() {
    let mut sut: CompilerPass = Default::default();
    assert_eq!(CompilerPass::Linking, sut);

    assert_eq!(true, sut.take("-E"));
    assert_eq!(false, sut.take("--not_this"));
    assert_eq!(CompilerPass::Preprocessor, sut);
}

#[test]
fn test_internal_updates_linker() {
    let mut sut: CompilerPass = Default::default();
    assert_eq!(CompilerPass::Linking, sut);

    assert_eq!(true, sut.take("-###"));
    assert_eq!(false, sut.take("--not_this"));
    assert_eq!(CompilerPass::Internal, sut);
}

#[test]
fn test_is_compiling() {
    assert_eq!(true, CompilerPass::Compilation.is_compiling());
    assert_eq!(true, CompilerPass::Linking.is_compiling());

    assert_eq!(false, CompilerPass::Preprocessor.is_compiling());
    assert_eq!(false, CompilerPass::Internal.is_compiling());
}

#[test]
fn unknown_tokens_leave_every_pass_unchanged() {
    let passes = [
        CompilerPass::Linking,
        CompilerPass::Compilation,
        CompilerPass::Preprocessor,
        CompilerPass::Internal,
    ];
    for start in passes.iter() {
        for token in ["", "-o", "-cc", "-e", "c", "-MMD", "--verbose", "-V"].iter() {
            let mut sut = *start;
            assert_eq!(false, sut.take(token));
            assert_eq!(*start, sut);
        }
    }
}

#[test]
fn compile_then_preprocess_is_preprocessor() {
    let mut sut = CompilerPass::default();
    assert!(sut.take("-c"));
    assert!(sut.take("-E"));
    assert_eq!(CompilerPass::Preprocessor, sut);
}

#[test]
fn preprocess_then_compile_stays_preprocessor() {
    let mut sut = CompilerPass::default();
    assert!(sut.take("-E"));
    assert!(sut.take("-c"));
    assert_eq!(CompilerPass::Preprocessor, sut);
}

#[test]
fn every_phase_flag_is_taken() {
    let table = [
        ("-v", CompilerPass::Internal),
        ("-###", CompilerPass::Internal),
        ("-cc1", CompilerPass::Internal),
        ("-cc1as", CompilerPass::Internal),
        ("-E", CompilerPass::Preprocessor),
        ("-M", CompilerPass::Preprocessor),
        ("-MM", CompilerPass::Preprocessor),
        ("-c", CompilerPass::Compilation),
        ("-S", CompilerPass::Compilation),
    ];
    for (flag, expected) in table.iter() {
        let mut sut = CompilerPass::Linking;
        assert!(sut.take(flag));
        assert_eq!(*expected, sut);
    }
}

#[test]
fn internal_is_never_left() {
    let mut sut = CompilerPass::Internal;
    for flag in ["-c", "-E", "-S", "-M"].iter() {
        assert!(sut.take(flag));
        assert_eq!(CompilerPass::Internal, sut);
    }
}

#[test]
fn advance_keeps_the_higher_pass() {
    assert_eq!(CompilerPass::Compilation, advance(CompilerPass::Linking, CompilerPass::Compilation));
    assert_eq!(CompilerPass::Preprocessor, advance(CompilerPass::Preprocessor, CompilerPass::Compilation));
    assert_eq!(CompilerPass::Internal, advance(CompilerPass::Compilation, CompilerPass::Internal));
    assert_eq!(CompilerPass::Compilation, advance(CompilerPass::Compilation, CompilerPass::Linking));
}
