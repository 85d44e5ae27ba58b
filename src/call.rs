//! Reads a compiler's arguments into a compiler call: the pass it runs,
//! the flags that matter for compiling, its source files and its output.

use vstd::prelude::*;

use crate::compiler::{Classifier, MpiAnswer, MpiCalls};
use crate::flags::{filtered, FlagIterator};
use crate::pass::{advanced, compiling, phase_of, precedence, CompilerPass};
use crate::text::{ends_with, str_ends_with, str_eq, words};

verus! {

/// Why a command line is not a compilation to record.
#[derive(Debug, Clone, Copy, PartialEq, Eq, Structural)]
pub enum CompilationError {
    /// The executable is not a compiler.
    CompilerNotRecognized,
    /// The compiler only preprocesses or reports on itself.
    NotCompiling,
    /// No source file is among the arguments.
    NoSourceFiles,
}

/// File names with the extension of a C, C++, Objective-C or assembler
/// source.
pub open spec fn has_source_extension(name: Seq<char>) -> bool {
    ends_with(name, ".c"@)
        || ends_with(name, ".i"@)
        || ends_with(name, ".ii"@)
        || ends_with(name, ".m"@)
        || ends_with(name, ".mi"@)
        || ends_with(name, ".mm"@)
        || ends_with(name, ".mii"@)
        || ends_with(name, ".C"@)
        || ends_with(name, ".cc"@)
        || ends_with(name, ".CC"@)
        || ends_with(name, ".cp"@)
        || ends_with(name, ".cpp"@)
        || ends_with(name, ".cxx"@)
        || ends_with(name, ".c++"@)
        || ends_with(name, ".C++"@)
        || ends_with(name, ".txx"@)
        || ends_with(name, ".s"@)
        || ends_with(name, ".S"@)
        || ends_with(name, ".sx"@)
        || ends_with(name, ".asm"@)
}

/// An argument that names a source file: it does not start with `-`, has at
/// least two characters and a source extension.
pub open spec fn is_source_name(name: Seq<char>) -> bool {
    name.len() >= 2 && name[0] != '-' && has_source_extension(name)
}

/// Options whose value is the argument after them.
pub open spec fn takes_value(flag: Seq<char>) -> bool {
    flag == "-D"@ || flag == "-I"@
}

/// What the arguments read so far say about the call.
pub struct Reading {
    pub pass: CompilerPass,
    pub flags: Seq<Seq<char>>,
    pub sources: Seq<Seq<char>>,
    pub output: Option<Seq<char>>,
}

/// Nothing read yet: a linking call with no flags, sources or output.
pub open spec fn no_reading() -> Reading {
    Reading { pass: CompilerPass::Linking, flags: seq![], sources: seq![], output: None }
}

/// `r` with its pass moved by a flag asking for `p`.
pub open spec fn with_pass(r: Reading, p: CompilerPass) -> Reading {
    Reading { pass: advanced(r.pass, p), flags: r.flags, sources: r.sources, output: r.output }
}

/// `r` with `output` as its output.
pub open spec fn with_output(r: Reading, output: Seq<char>) -> Reading {
    Reading { pass: r.pass, flags: r.flags, sources: r.sources, output: Some(output) }
}

/// `r` with `kept` added to its flags.
pub open spec fn with_flags(r: Reading, kept: Seq<Seq<char>>) -> Reading {
    Reading { pass: r.pass, flags: r.flags + kept, sources: r.sources, output: r.output }
}

/// `r` with `source` added to its sources.
pub open spec fn with_source(r: Reading, source: Seq<char>) -> Reading {
    Reading { pass: r.pass, flags: r.flags, sources: r.sources.push(source), output: r.output }
}

/// Reads `args` on from `r`. Each argument is, in this order: a phase flag,
/// which moves the pass; `-o`, whose value is the output; an option, kept
/// with its value where it takes one; a source file; or else dropped.
pub open spec fn read_args(args: Seq<Seq<char>>, r: Reading) -> Reading
    decreases args.len(),
{
    if args.len() == 0 {
        r
    } else {
        let t = args[0];
        let rest = args.drop_first();
        match phase_of(t) {
            Some(p) => read_args(rest, with_pass(r, p)),
            None => if t == "-o"@ {
                if rest.len() > 0 {
                    read_args(rest.drop_first(), with_output(r, rest[0]))
                } else {
                    r
                }
            } else if takes_value(t) && rest.len() > 0 {
                read_args(rest.drop_first(), with_flags(r, seq![t, rest[0]]))
            } else if t.len() > 0 && t[0] == '-' {
                read_args(rest, with_flags(r, seq![t]))
            } else if is_source_name(t) {
                read_args(rest, with_source(r, t))
            } else {
                read_args(rest, r)
            }
        }
    }
}

/// A compiler call as the library sees it.
pub struct CallView {
    pub work_dir: Seq<char>,
    pub compiler: Seq<char>,
    pub pass: CompilerPass,
    pub flags: Seq<Seq<char>>,
    pub sources: Seq<Seq<char>>,
    pub output: Option<Seq<char>>,
}

/// The call that `compiler` run in `work_dir` with `args` makes, or why it
/// is no compilation: the arguments are filtered, then read.
pub open spec fn parse_spec(work_dir: Seq<char>, compiler: Seq<char>, args: Seq<Seq<char>>) -> Result<
    CallView,
    CompilationError,
> {
    let r = read_args(filtered(args), no_reading());
    if !compiling(r.pass) {
        Err(CompilationError::NotCompiling)
    } else if r.sources.len() == 0 {
        Err(CompilationError::NoSourceFiles)
    } else {
        Ok(
            CallView {
                work_dir,
                compiler,
                pass: r.pass,
                flags: r.flags,
                sources: r.sources,
                output: r.output,
            },
        )
    }
}

/// The call that `command` run in `work_dir` makes, or why it is no
/// compilation.
pub open spec fn call_spec(
    classifier: Classifier,
    work_dir: Seq<char>,
    command: Seq<Seq<char>>,
    calls: Seq<(Seq<char>, MpiAnswer)>,
) -> Result<CallView, CompilationError> {
    match classifier.split_spec(command, calls, calls.len()) {
        Some(split) => parse_spec(work_dir, split.0, split.1),
        None => Err(CompilationError::CompilerNotRecognized),
    }
}

pub open spec fn call_result_view(r: Result<CompilerCall, CompilationError>) -> Result<
    CallView,
    CompilationError,
> {
    match r {
        Ok(c) => Ok(c@),
        Err(e) => Err(e),
    }
}

fn is_source(name: &str) -> (r: bool)
    ensures
        r == is_source_name(name@),
{
    name.unicode_len() >= 2 && name.get_char(0) != '-' && has_source_ext(name)
}

fn has_source_ext(name: &str) -> (r: bool)
    ensures
        r == has_source_extension(name@),
{
    str_ends_with(name, ".c")
        || str_ends_with(name, ".i")
        || str_ends_with(name, ".ii")
        || str_ends_with(name, ".m")
        || str_ends_with(name, ".mi")
        || str_ends_with(name, ".mm")
        || str_ends_with(name, ".mii")
        || str_ends_with(name, ".C")
        || str_ends_with(name, ".cc")
        || str_ends_with(name, ".CC")
        || str_ends_with(name, ".cp")
        || str_ends_with(name, ".cpp")
        || str_ends_with(name, ".cxx")
        || str_ends_with(name, ".c++")
        || str_ends_with(name, ".C++")
        || str_ends_with(name, ".txx")
        || str_ends_with(name, ".s")
        || str_ends_with(name, ".S")
        || str_ends_with(name, ".sx")
        || str_ends_with(name, ".asm")
}

fn takes_value_flag(flag: &str) -> (r: bool)
    ensures
        r == takes_value(flag@),
{
    str_eq(flag, "-D") || str_eq(flag, "-I")
}

/// A compiler call: where and which compiler ran, the pass it ran, the
/// flags kept for compiling, the source files and the output given.
pub struct CompilerCall {
    work_dir: String,
    compiler: String,
    pass: CompilerPass,
    flags: Vec<String>,
    sources: Vec<String>,
    output: Option<String>,
}

impl View for CompilerCall {
    type V = CallView;

    closed spec fn view(&self) -> CallView {
        CallView {
            work_dir: self.work_dir@,
            compiler: self.compiler@,
            pass: self.pass,
            flags: words(self.flags@),
            sources: words(self.sources@),
            output: match self.output {
                Some(o) => Some(o@),
                None => None,
            },
        }
    }
}

/// The state of reading a compiler's arguments.
struct CompilerExecution {
    pass: CompilerPass,
    flags: Vec<String>,
    sources: Vec<String>,
    output: Option<String>,
}

impl CompilerExecution {
    closed spec fn reading(&self) -> Reading {
        Reading {
            pass: self.pass,
            flags: words(self.flags@),
            sources: words(self.sources@),
            output: match self.output {
                Some(o) => Some(o@),
                None => None,
            },
        }
    }

    fn new() -> (r: Self)
        ensures
            r.reading() == no_reading(),
    {
        let r = CompilerExecution {
            pass: CompilerPass::Linking,
            flags: Vec::new(),
            sources: Vec::new(),
            output: None,
        };
        assert(r.reading().flags =~= Seq::<Seq<char>>::empty());
        assert(r.reading().sources =~= Seq::<Seq<char>>::empty());
        r
    }

    /// Takes a phase flag.
    fn pass(&mut self, flag: &str) -> (r: bool)
        ensures
            r == phase_of(flag@) is Some,
            final(self).reading() == match phase_of(flag@) {
                Some(p) => with_pass(old(self).reading(), p),
                None => old(self).reading(),
            },
    {
        self.pass.take(flag)
    }

    /// Takes `-o` with the argument after it as the output.
    fn output(&mut self, flag: &str, it: &mut FlagIterator) -> (r: bool)
        requires
            old(it).wf(),
        ensures
            final(it).wf(),
            r == (flag@ == "-o"@),
            !r ==> final(self).reading() == old(self).reading() && final(it).pending() == old(
                it,
            ).pending(),
            r && old(it).pending().len() > 0 ==> final(it).pending() == old(it).pending().drop_first()
                && final(self).reading() == with_output(old(self).reading(), old(it).pending()[0]),
            r && old(it).pending().len() == 0 ==> final(it).pending().len() == 0
                && final(self).reading() == old(self).reading(),
    {
        if str_eq(flag, "-o") {
            if let Some(output) = it.next() {
                self.output = Some(output);
            }
            return true;
        }
        false
    }

    /// Takes an option, with its value where it takes one.
    fn flags(&mut self, flag: &str, it: &mut FlagIterator) -> (r: bool)
        requires
            old(it).wf(),
        ensures
            final(it).wf(),
            r == (flag@.len() > 0 && flag@[0] == '-'),
            !r ==> final(self).reading() == old(self).reading() && final(it).pending() == old(
                it,
            ).pending(),
            r && takes_value(flag@) && old(it).pending().len() > 0 ==> final(it).pending() == old(
                it,
            ).pending().drop_first() && final(self).reading() == with_flags(
                old(self).reading(),
                seq![flag@, old(it).pending()[0]],
            ),
            r && !(takes_value(flag@) && old(it).pending().len() > 0) ==> final(it).pending() == old(
                it,
            ).pending() && final(self).reading() == with_flags(old(self).reading(), seq![flag@]),
    {
        if takes_value_flag(flag) {
            let ghost before = words(self.flags@);
            match it.next() {
                Some(value) => {
                    let ghost v = value@;
                    self.flags.push(String::from_str(flag));
                    self.flags.push(value);
                    assert(words(self.flags@) =~= before + seq![flag@, v]);
                },
                None => {
                    self.flags.push(String::from_str(flag));
                    assert(words(self.flags@) =~= before + seq![flag@]);
                },
            }
            proof {
                reveal_strlit("-D");
                reveal_strlit("-I");
            }
            return true;
        }
        if flag.unicode_len() > 0 && flag.get_char(0) == '-' {
            let ghost before = words(self.flags@);
            let ghost f = flag@;
            self.flags.push(String::from_str(flag));
            assert(words(self.flags@) =~= before + seq![f]);
            return true;
        }
        false
    }

    /// Takes a source file.
    fn source(&mut self, file: &str) -> (r: bool)
        ensures
            r == is_source_name(file@),
            r ==> final(self).reading() == with_source(old(self).reading(), file@),
            !r ==> final(self).reading() == old(self).reading(),
    {
        if is_source(file) {
            let ghost before = words(self.sources@);
            let ghost f = file@;
            self.sources.push(String::from_str(file));
            assert(words(self.sources@) =~= before.push(f));
            true
        } else {
            false
        }
    }
}

impl CompilerCall {
    /// Reads the call that `compiler` run in `work_dir` with `args` makes.
    pub fn parse(work_dir: &str, compiler: &str, args: Vec<String>) -> (r: Result<
        CompilerCall,
        CompilationError,
    >)
        ensures
            call_result_view(r) == parse_spec(work_dir@, compiler@, words(args@)),
    {
        let mut it = FlagIterator::from(args);
        let mut result = CompilerExecution::new();
        loop
            invariant
                it.wf(),
                read_args(it.pending(), result.reading()) == read_args(
                    filtered(words(args@)),
                    no_reading(),
                ),
            ensures
                result.reading() == read_args(filtered(words(args@)), no_reading()),
            decreases it.pending().len(),
        {
            let ghost before = it.pending();
            match it.next() {
                None => {
                    assert(it.pending().len() == 0);
                    assert(read_args(it.pending(), result.reading()) == result.reading());
                    break;
                },
                Some(arg) => {
                    let ghost rest = it.pending();
                    let ghost r0 = result.reading();
                    assert(before[0] == arg@ && before.drop_first() =~= rest);
                    if result.pass(arg.as_str()) {
                        assert(read_args(before, r0) == read_args(it.pending(), result.reading()));
                        continue;
                    }
                    if result.output(arg.as_str(), &mut it) {
                        assert(read_args(before, r0) == read_args(it.pending(), result.reading()));
                        continue;
                    }
                    if result.flags(arg.as_str(), &mut it) {
                        assert(read_args(before, r0) == read_args(it.pending(), result.reading()));
                        continue;
                    }
                    proof {
                        reveal_strlit("-D");
                        reveal_strlit("-I");
                    }
                    result.source(arg.as_str());
                    assert(read_args(before, r0) == read_args(it.pending(), result.reading()));
                },
            }
        }
        if !result.pass.is_compiling() {
            Err(CompilationError::NotCompiling)
        } else if result.sources.len() == 0 {
            Err(CompilationError::NoSourceFiles)
        } else {
            Ok(
                CompilerCall {
                    work_dir: String::from_str(work_dir),
                    compiler: String::from_str(compiler),
                    pass: result.pass,
                    flags: result.flags,
                    sources: result.sources,
                    output: result.output,
                },
            )
        }
    }
}

impl CompilerCall {
    /// The compiler call that `command`, run in `work_dir`, makes; or why it
    /// is none.
    pub fn from(classifier: &Classifier, work_dir: &str, command: &[String], mpi: &MpiCalls) -> (r:
        Result<CompilerCall, CompilationError>)
        ensures
            call_result_view(r) == call_spec(*classifier, work_dir@, words(command@), mpi@),
    {
        match classifier.split(command, mpi) {
            Some((compiler, args)) => CompilerCall::parse(work_dir, compiler.as_str(), args),
            None => Err(CompilationError::CompilerNotRecognized),
        }
    }

    pub fn work_dir(&self) -> (r: &str)
        ensures
            r@ == self@.work_dir,
    {
        self.work_dir.as_str()
    }

    pub fn compiler(&self) -> (r: &str)
        ensures
            r@ == self@.compiler,
    {
        self.compiler.as_str()
    }

    pub fn pass(&self) -> (r: CompilerPass)
        ensures
            r == self@.pass,
    {
        self.pass
    }

    pub fn flags(&self) -> (r: &Vec<String>)
        ensures
            words(r@) == self@.flags,
    {
        &self.flags
    }

    pub fn sources(&self) -> (r: &Vec<String>)
        ensures
            words(r@) == self@.sources,
    {
        &self.sources
    }

    pub fn output(&self) -> (r: Option<&str>)
        ensures
            match r {
                Some(o) => self@.output == Some(o@),
                None => self@.output is None,
            },
    {
        match &self.output {
            Some(o) => Some(o.as_str()),
            None => None,
        }
    }
}

/// Arguments after which the next one is read as their value.
pub open spec fn consumes_next(arg: Seq<char>) -> bool {
    arg == "-o"@ || takes_value(arg)
}

/// Flags that make a call only preprocess or report on itself.
pub open spec fn preprocessing_flag(arg: Seq<char>) -> bool {
    phase_of(arg) == Some(CompilerPass::Preprocessor) || phase_of(arg) == Some(CompilerPass::Internal)
}

/// Reading on never lowers the pass.
pub proof fn lemma_read_monotone(args: Seq<Seq<char>>, r: Reading)
    ensures
        precedence(read_args(args, r).pass) >= precedence(r.pass),
    decreases args.len(),
{
    if args.len() > 0 {
        let rest = args.drop_first();
        lemma_read_monotone(rest, r);
        match phase_of(args[0]) {
            Some(p) => lemma_read_monotone(rest, with_pass(r, p)),
            None => {
                if rest.len() > 0 {
                    lemma_read_monotone(rest.drop_first(), with_output(r, rest[0]));
                    lemma_read_monotone(rest.drop_first(), with_flags(r, seq![args[0], rest[0]]));
                }
                lemma_read_monotone(rest, with_flags(r, seq![args[0]]));
                lemma_read_monotone(rest, with_source(r, args[0]));
            },
        }
    }
}

/// A preprocessing flag that is read as a flag (it is no value of the
/// argument before it) leaves the pass at preprocessing or above.
pub proof fn lemma_read_preprocessing(args: Seq<Seq<char>>, r: Reading, i: int)
    requires
        0 <= i < args.len(),
        preprocessing_flag(args[i]),
        i == 0 || !consumes_next(args[i - 1]),
    ensures
        precedence(read_args(args, r).pass) >= precedence(CompilerPass::Preprocessor),
    decreases args.len(),
{
    let rest = args.drop_first();
    if i == 0 {
        let p = phase_of(args[0])->0;
        lemma_read_monotone(rest, with_pass(r, p));
    } else {
        assert(rest[i - 1] == args[i]);
        match phase_of(args[0]) {
            Some(p) => lemma_read_preprocessing(rest, with_pass(r, p), i - 1),
            None => {
                if args[0] == "-o"@ {
                    assert(i >= 2);
                    assert(rest.drop_first()[i - 2] == args[i]);
                    lemma_read_preprocessing(rest.drop_first(), with_output(r, rest[0]), i - 2);
                } else if takes_value(args[0]) && rest.len() > 0 {
                    assert(i >= 2);
                    assert(rest.drop_first()[i - 2] == args[i]);
                    lemma_read_preprocessing(rest.drop_first(), with_flags(r, seq![args[0], rest[0]]), i - 2);
                } else if args[0].len() > 0 && args[0][0] == '-' {
                    lemma_read_preprocessing(rest, with_flags(r, seq![args[0]]), i - 1);
                } else if is_source_name(args[0]) {
                    lemma_read_preprocessing(rest, with_source(r, args[0]), i - 1);
                } else {
                    lemma_read_preprocessing(rest, r, i - 1);
                }
            },
        }
    }
}

} // verus!
