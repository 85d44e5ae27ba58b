//! Decides whether a command line is a compiler call, looking through
//! compiler wrappers (ccache, distcc) and MPI compiler wrappers.

use vstd::prelude::*;

use crate::pattern::{regex_is_match, regex_matches};
use crate::shell::{shell_split, shell_words};
use crate::text::{basename, basename_of, first_line, first_line_of, str_eq, words};

verus! {

/// What an MPI wrapper answered when asked for the compiler call it makes:
/// the words of that call, or `None` when the probe failed.
pub type MpiAnswer = Option<Seq<Seq<char>>>;

/// The recorded answer for `wrapper`: the first one recorded for it, or
/// `None` when it was never probed.
pub open spec fn answer_of(calls: Seq<(Seq<char>, MpiAnswer)>, wrapper: Seq<char>) -> Option<
    MpiAnswer,
>
    decreases calls.len(),
{
    if calls.len() == 0 {
        None
    } else if calls[0].0 == wrapper {
        Some(calls[0].1)
    } else {
        answer_of(calls.drop_first(), wrapper)
    }
}

pub open spec fn answer_view(a: Option<Vec<String>>) -> MpiAnswer {
    match a {
        Some(v) => Some(words(v@)),
        None => None,
    }
}

/// The answers of the MPI wrappers probed so far, in the order they were
/// recorded.
pub struct MpiCalls {
    calls: Vec<(String, Option<Vec<String>>)>,
}

impl View for MpiCalls {
    type V = Seq<(Seq<char>, MpiAnswer)>;

    closed spec fn view(&self) -> Seq<(Seq<char>, MpiAnswer)> {
        self.calls@.map_values(|c: (String, Option<Vec<String>>)| (c.0@, answer_view(c.1)))
    }
}

impl MpiCalls {
    pub fn new() -> (r: Self)
        ensures
            r@ == Seq::<(Seq<char>, MpiAnswer)>::empty(),
    {
        let r = MpiCalls { calls: Vec::new() };
        assert(r@ =~= Seq::<(Seq<char>, MpiAnswer)>::empty());
        r
    }

    /// Records what probing `wrapper` gave.
    pub fn record(&mut self, wrapper: String, answer: Option<Vec<String>>)
        ensures
            final(self)@ == old(self)@.push((wrapper@, answer_view(answer))),
    {
        let ghost before = self@;
        self.calls.push((wrapper, answer));
        assert(self@ =~= before.push((wrapper@, answer_view(answer))));
    }

    /// The index of the first answer recorded for `wrapper`.
    fn find(&self, wrapper: &str) -> (r: Option<usize>)
        ensures
            match r {
                Some(i) => i < self.calls@.len() && self@[i as int].0 == wrapper@
                    && answer_of(self@, wrapper@) == Some(self@[i as int].1),
                None => answer_of(self@, wrapper@) is None,
            },
    {
        let n = self.calls.len();
        let mut i: usize = 0;
        assert(self@.subrange(0, n as int) == self@);
        while i < n
            invariant
                n == self.calls@.len() == self@.len(),
                i <= n,
                answer_of(self@, wrapper@) == answer_of(self@.subrange(i as int, n as int), wrapper@),
            decreases n - i,
        {
            let ghost tail = self@.subrange(i as int, n as int);
            assert(tail[0] == self@[i as int]);
            assert(tail.drop_first() == self@.subrange(i + 1, n as int));
            if str_eq(self.calls[i].0.as_str(), wrapper) {
                return Some(i);
            }
            i = i + 1;
        }
        None
    }
}

/// Names of compiler wrappers that run the compiler given after them.
pub open spec fn is_wrapper_name(name: Seq<char>) -> bool {
    regex_matches("^(distcc|ccache)$"@, name)
}

/// Names of MPI compiler wrappers.
pub open spec fn is_mpi_wrapper_name(name: Seq<char>) -> bool {
    regex_matches("^mpi(cc|cxx|CC|c\\+\\+)$"@, name)
}

/// Names of known C compilers: gcc, clang, cc and xlc, cross-prefixed or
/// versioned.
pub open spec fn c_name_pattern(name: Seq<char>) -> bool {
    regex_matches("^([^-]*-)*[mg]cc(-?\\d+(\\.\\d+){0,2})?$"@, name)
        || regex_matches("^([^-]*-)*clang(-\\d+(\\.\\d+){0,2})?$"@, name)
        || regex_matches("^(|i)cc$"@, name)
        || regex_matches("^(g|)xlc$"@, name)
}

/// Names of known C++ compilers: g++, clang++, c++, CC, icpc and xlC,
/// cross-prefixed or versioned.
pub open spec fn cxx_name_pattern(name: Seq<char>) -> bool {
    regex_matches("^(c\\+\\+|cxx|CC)$"@, name)
        || regex_matches("^([^-]*-)*[mg]\\+\\+(-?\\d+(\\.\\d+){0,2})?$"@, name)
        || regex_matches("^([^-]*-)*clang\\+\\+(-\\d+(\\.\\d+){0,2})?$"@, name)
        || regex_matches("^icpc$"@, name)
        || regex_matches("^(g|)xl(C|c\\+\\+)$"@, name)
}

/// Decides which executables are compilers.
pub struct Classifier {
    ignore: bool,
    c_compilers: Vec<String>,
    cxx_compilers: Vec<String>,
}

impl Classifier {
    /// Only the listed names count as compilers.
    pub closed spec fn only_listed(&self) -> bool {
        self.ignore
    }

    /// The file names of the listed C compilers.
    pub closed spec fn c_names(&self) -> Seq<Seq<char>> {
        words(self.c_compilers@)
    }

    /// The file names of the listed C++ compilers.
    pub closed spec fn cxx_names(&self) -> Seq<Seq<char>> {
        words(self.cxx_compilers@)
    }

    pub open spec fn is_c_name(&self, name: Seq<char>) -> bool {
        self.c_names().contains(name) || (!self.only_listed() && c_name_pattern(name))
    }

    pub open spec fn is_cxx_name(&self, name: Seq<char>) -> bool {
        self.cxx_names().contains(name) || (!self.only_listed() && cxx_name_pattern(name))
    }

    /// The compiler and its arguments that `cmd` runs, if it runs one.
    /// `fuel` bounds how many MPI wrappers may be resolved on the way, so
    /// that a wrapper that names itself again is no compiler.
    pub open spec fn split_spec(
        &self,
        cmd: Seq<Seq<char>>,
        calls: Seq<(Seq<char>, MpiAnswer)>,
        fuel: nat,
    ) -> Option<(Seq<char>, Seq<Seq<char>>)>
        decreases fuel, cmd.len(),
    {
        if cmd.len() == 0 {
            None
        } else {
            let exe = cmd[0];
            let rest = cmd.drop_first();
            let name = basename_of(exe);
            if is_wrapper_name(name) {
                match self.split_spec(rest, calls, fuel) {
                    Some(r) => Some(r),
                    None => Some((exe, rest)),
                }
            } else if is_mpi_wrapper_name(name) {
                match answer_of(calls, exe) {
                    Some(Some(call)) => if fuel == 0 {
                        None
                    } else {
                        self.split_spec(call + rest, calls, (fuel - 1) as nat)
                    },
                    _ => None,
                }
            } else if self.is_c_name(name) || self.is_cxx_name(name) {
                Some((exe, rest))
            } else {
                None
            }
        }
    }

    /// The first MPI wrapper that splitting `cmd` reaches and that has no
    /// recorded answer.
    pub open spec fn pending_spec(
        &self,
        cmd: Seq<Seq<char>>,
        calls: Seq<(Seq<char>, MpiAnswer)>,
        fuel: nat,
    ) -> Option<Seq<char>>
        decreases fuel, cmd.len(),
    {
        if cmd.len() == 0 {
            None
        } else {
            let exe = cmd[0];
            let rest = cmd.drop_first();
            let name = basename_of(exe);
            if is_wrapper_name(name) {
                self.pending_spec(rest, calls, fuel)
            } else if is_mpi_wrapper_name(name) {
                match answer_of(calls, exe) {
                    None => Some(exe),
                    Some(Some(call)) => if fuel == 0 {
                        None
                    } else {
                        self.pending_spec(call + rest, calls, (fuel - 1) as nat)
                    },
                    Some(None) => None,
                }
            } else {
                None
            }
        }
    }
}

/// The view of a split: the compiler and its arguments.
pub open spec fn split_view(r: Option<(String, Vec<String>)>) -> Option<(Seq<char>, Seq<Seq<char>>)> {
    match r {
        Some(p) => Some((p.0@, words(p.1@))),
        None => None,
    }
}

/// The flags with which an MPI wrapper is asked for the compiler call it
/// makes, in the order they are tried.
pub open spec fn probe_flags() -> Seq<Seq<char>> {
    seq!["--show"@, "--showme"@]
}

/// What one probe of an MPI wrapper tells: when the probe succeeded and its
/// output has a first line that is not empty, the words of that line.
pub open spec fn probe_answer(succeeded: bool, output: Seq<char>) -> MpiAnswer {
    if !succeeded {
        None
    } else {
        match first_line(output) {
            Some(line) => if line.len() == 0 {
                None
            } else {
                shell_words(line)
            },
            None => None,
        }
    }
}

/// Returns the probe flags, in the order they are tried.
pub fn mpi_probe_flags() -> (r: Vec<String>)
    ensures
        words(r@) == probe_flags(),
{
    let mut r: Vec<String> = Vec::new();
    r.push(String::from_str("--show"));
    r.push(String::from_str("--showme"));
    assert(words(r@) =~= probe_flags());
    r
}

/// Reads the answer of one probe of an MPI wrapper from whether the probe
/// succeeded and what it printed.
pub fn parse_probe_output(succeeded: bool, output: &str) -> (r: Option<Vec<String>>)
    ensures
        answer_view(r) == probe_answer(succeeded, output@),
{
    if !succeeded {
        return None;
    }
    match first_line_of(output) {
        Some(line) => {
            if line.as_str().unicode_len() == 0 {
                None
            } else {
                match shell_split(line.as_str()) {
                    Ok(v) => Some(v),
                    Err(_) => None,
                }
            }
        },
        None => None,
    }
}

/// Whether `names` holds `name`.
fn listed(names: &Vec<String>, name: &str) -> (r: bool)
    ensures
        r == words(names@).contains(name@),
{
    let n = names.len();
    let mut i: usize = 0;
    while i < n
        invariant
            n == names@.len(),
            i <= n,
            forall|k: int| 0 <= k < i ==> names@[k]@ != name@,
        decreases n - i,
    {
        if str_eq(names[i].as_str(), name) {
            assert(words(names@)[i as int] == name@);
            return true;
        }
        i = i + 1;
    }
    assert forall|k: int| 0 <= k < words(names@).len() implies words(names@)[k] != name@ by {
        assert(words(names@)[k] == names@[k]@);
    }
    false
}

/// The strings of `v` from index `from` on, copied.
fn copy_from(v: &[String], from: usize) -> (r: Vec<String>)
    requires
        from <= v@.len(),
    ensures
        words(r@) == words(v@).subrange(from as int, v@.len() as int),
{
    let n = v.len();
    let mut r: Vec<String> = Vec::new();
    let mut i: usize = from;
    while i < n
        invariant
            n == v@.len(),
            from <= i <= n,
            words(r@) == words(v@).subrange(from as int, i as int),
        decreases n - i,
    {
        let ghost before = words(r@);
        r.push(v[i].clone());
        assert(words(r@) =~= before.push(v@[i as int]@));
        assert(words(v@).subrange(from as int, i + 1) =~= words(v@).subrange(from as int, i as int).push(
            v@[i as int]@,
        ));
        i = i + 1;
    }
    r
}

/// Appends copies of the strings of `src` to `dst`.
fn append_copies(dst: &mut Vec<String>, src: &[String])
    ensures
        words(final(dst)@) == words(old(dst)@) + words(src@),
{
    let n = src.len();
    let mut i: usize = 0;
    while i < n
        invariant
            n == src@.len(),
            i <= n,
            words(dst@) == words(old(dst)@) + words(src@).subrange(0, i as int),
        decreases n - i,
    {
        let ghost before = words(dst@);
        dst.push(src[i].clone());
        assert(words(dst@) =~= before.push(src@[i as int]@));
        assert(words(src@).subrange(0, i + 1) =~= words(src@).subrange(0, i as int).push(
            src@[i as int]@,
        ));
        i = i + 1;
    }
    assert(words(src@).subrange(0, n as int) =~= words(src@));
}

impl Classifier {
    /// Makes a classifier that takes the listed compilers by their file
    /// names; with `only_use`, no other name is a compiler.
    pub fn new(only_use: bool, c_compilers: &[String], cxx_compilers: &[String]) -> (r: Self)
        ensures
            r.only_listed() == only_use,
            r.c_names() == words(c_compilers@).map_values(|p: Seq<char>| basename_of(p)),
            r.cxx_names() == words(cxx_compilers@).map_values(|p: Seq<char>| basename_of(p)),
    {
        Classifier {
            ignore: only_use,
            c_compilers: basenames(c_compilers),
            cxx_compilers: basenames(cxx_compilers),
        }
    }

    /// Matches against known compiler wrappers.
    fn is_wrapper(&self, executable: &str) -> (r: bool)
        ensures
            r == is_wrapper_name(basename_of(executable@)),
    {
        let program = basename(executable);
        regex_is_match("^(distcc|ccache)$", program.as_str())
    }

    /// Matches against known MPI compiler wrappers.
    fn is_mpi_wrapper(&self, executable: &str) -> (r: bool)
        ensures
            r == is_mpi_wrapper_name(basename_of(executable@)),
    {
        let program = basename(executable);
        regex_is_match("^mpi(cc|cxx|CC|c\\+\\+)$", program.as_str())
    }

    /// Matches against the C compilers: the listed ones, and unless only
    /// those count, the known names.
    fn is_c_compiler(&self, executable: &str) -> (r: bool)
        ensures
            r == self.is_c_name(basename_of(executable@)),
    {
        let program = basename(executable);
        let p = program.as_str();
        let use_match = listed(&self.c_compilers, p);
        if self.ignore {
            use_match
        } else {
            use_match || regex_is_match("^([^-]*-)*[mg]cc(-?\\d+(\\.\\d+){0,2})?$", p)
                || regex_is_match("^([^-]*-)*clang(-\\d+(\\.\\d+){0,2})?$", p)
                || regex_is_match("^(|i)cc$", p)
                || regex_is_match("^(g|)xlc$", p)
        }
    }

    /// Matches against the C++ compilers: the listed ones, and unless only
    /// those count, the known names.
    fn is_cxx_compiler(&self, executable: &str) -> (r: bool)
        ensures
            r == self.is_cxx_name(basename_of(executable@)),
    {
        let program = basename(executable);
        let p = program.as_str();
        let use_match = listed(&self.cxx_compilers, p);
        if self.ignore {
            use_match
        } else {
            use_match || regex_is_match("^(c\\+\\+|cxx|CC)$", p)
                || regex_is_match("^([^-]*-)*[mg]\\+\\+(-?\\d+(\\.\\d+){0,2})?$", p)
                || regex_is_match("^([^-]*-)*clang\\+\\+(-\\d+(\\.\\d+){0,2})?$", p)
                || regex_is_match("^icpc$", p)
                || regex_is_match("^(g|)xl(C|c\\+\\+)$", p)
        }
    }

    /// The compiler and its arguments that `command` runs, if it runs one.
    /// Wrappers are looked through: a wrapper with no compiler after it is
    /// the compiler itself. An MPI wrapper is replaced by the call it
    /// answered when probed; one with no answer, or whose probe failed, is no
    /// compiler.
    pub fn split(&self, command: &[String], mpi: &MpiCalls) -> (r: Option<(String, Vec<String>)>)
        ensures
            split_view(r) == self.split_spec(words(command@), mpi@, mpi@.len()),
    {
        self.split_within(command, mpi, mpi.calls.len())
    }

    fn split_within(&self, command: &[String], mpi: &MpiCalls, fuel: usize) -> (r: Option<
        (String, Vec<String>),
    >)
        ensures
            split_view(r) == self.split_spec(words(command@), mpi@, fuel as nat),
        decreases fuel, command@.len(),
    {
        if command.len() == 0 {
            return None;
        }
        let executable = &command[0];
        let parameters = copy_from(command, 1);
        assert(words(command@).drop_first() == words(command@).subrange(1, command@.len() as int));
        assert(words(command@)[0] == executable@);
        if self.is_wrapper(executable.as_str()) {
            match self.split_within(parameters.as_slice(), mpi, fuel) {
                Some(found) => Some(found),
                None => Some((executable.clone(), parameters)),
            }
        } else if self.is_mpi_wrapper(executable.as_str()) {
            match mpi.find(executable.as_str()) {
                Some(i) => match &mpi.calls[i].1 {
                    Some(call) => {
                        assert(mpi@[i as int] == (mpi.calls@[i as int].0@, answer_view(
                            mpi.calls@[i as int].1,
                        )));
                        assert(answer_of(mpi@, executable@) == Some(Some(words(call@))));
                        if fuel == 0 {
                            None
                        } else {
                            let mut resolved = copy_from(call.as_slice(), 0);
                            append_copies(&mut resolved, parameters.as_slice());
                            assert(words(resolved@) == words(call@) + words(command@).drop_first());
                            self.split_within(resolved.as_slice(), mpi, fuel - 1)
                        }
                    },
                    None => {
                        assert(mpi@[i as int] == (mpi.calls@[i as int].0@, answer_view(
                            mpi.calls@[i as int].1,
                        )));
                        None
                    },
                },
                None => None,
            }
        } else if self.is_c_compiler(executable.as_str()) || self.is_cxx_compiler(executable.as_str()) {
            Some((executable.clone(), parameters))
        } else {
            None
        }
    }

    /// The first MPI wrapper that splitting `command` reaches and whose
    /// answer is not recorded yet: the one to probe before `split` can tell.
    pub fn pending_probe(&self, command: &[String], mpi: &MpiCalls) -> (r: Option<String>)
        ensures
            match r {
                Some(w) => self.pending_spec(words(command@), mpi@, mpi@.len()) == Some(w@),
                None => self.pending_spec(words(command@), mpi@, mpi@.len()) is None,
            },
    {
        self.pending_within(command, mpi, mpi.calls.len())
    }

    fn pending_within(&self, command: &[String], mpi: &MpiCalls, fuel: usize) -> (r: Option<String>)
        ensures
            match r {
                Some(w) => self.pending_spec(words(command@), mpi@, fuel as nat) == Some(w@),
                None => self.pending_spec(words(command@), mpi@, fuel as nat) is None,
            },
        decreases fuel, command@.len(),
    {
        if command.len() == 0 {
            return None;
        }
        let executable = &command[0];
        let parameters = copy_from(command, 1);
        assert(words(command@).drop_first() == words(command@).subrange(1, command@.len() as int));
        assert(words(command@)[0] == executable@);
        if self.is_wrapper(executable.as_str()) {
            self.pending_within(parameters.as_slice(), mpi, fuel)
        } else if self.is_mpi_wrapper(executable.as_str()) {
            match mpi.find(executable.as_str()) {
                Some(i) => match &mpi.calls[i].1 {
                    Some(call) => {
                        assert(mpi@[i as int] == (mpi.calls@[i as int].0@, answer_view(
                            mpi.calls@[i as int].1,
                        )));
                        assert(answer_of(mpi@, executable@) == Some(Some(words(call@))));
                        if fuel == 0 {
                            None
                        } else {
                            let mut resolved = copy_from(call.as_slice(), 0);
                            append_copies(&mut resolved, parameters.as_slice());
                            assert(words(resolved@) == words(call@) + words(command@).drop_first());
                            self.pending_within(resolved.as_slice(), mpi, fuel - 1)
                        }
                    },
                    None => {
                        assert(mpi@[i as int] == (mpi.calls@[i as int].0@, answer_view(
                            mpi.calls@[i as int].1,
                        )));
                        None
                    },
                },
                None => Some(executable.clone()),
            }
        } else {
            None
        }
    }
}

/// The file names of the given paths.
fn basenames(paths: &[String]) -> (r: Vec<String>)
    ensures
        words(r@) == words(paths@).map_values(|p: Seq<char>| basename_of(p)),
{
    let n = paths.len();
    let mut r: Vec<String> = Vec::new();
    let mut i: usize = 0;
    while i < n
        invariant
            n == paths@.len(),
            i <= n,
            words(r@) == words(paths@).subrange(0, i as int).map_values(|p: Seq<char>| basename_of(p)),
        decreases n - i,
    {
        let ghost before = words(r@);
        r.push(basename(paths[i].as_str()));
        assert(words(paths@).subrange(0, i + 1) =~= words(paths@).subrange(0, i as int).push(
            paths@[i as int]@,
        ));
        assert(words(r@) =~= before.push(basename_of(paths@[i as int]@)));
        assert(words(r@) =~= words(paths@).subrange(0, i + 1).map_values(|p: Seq<char>| basename_of(p)));
        i = i + 1;
    }
    assert(words(paths@).subrange(0, n as int) =~= words(paths@));
    r
}

} // verus!
