//! The compilation phase that a compiler call performs, and how the flags
//! on its command line move it.

use vstd::prelude::*;

use crate::text::str_eq;

verus! {

/// What a compiler invocation does: only preprocess, compile, link, or
/// report on itself.
#[derive(Debug, Clone, Copy, PartialEq, Eq, Structural)]
pub enum CompilerPass {
    Preprocessor,
    Compilation,
    Linking,
    Internal,
}

/// Precedence of the passes: a flag only moves the pass to a higher one.
pub open spec fn precedence(p: CompilerPass) -> int {
    match p {
        CompilerPass::Linking => 0,
        CompilerPass::Compilation => 1,
        CompilerPass::Preprocessor => 2,
        CompilerPass::Internal => 3,
    }
}

/// The pass that a phase flag asks for; `None` for every other token.
pub open spec fn phase_of(flag: Seq<char>) -> Option<CompilerPass> {
    if flag == "-v"@ || flag == "-###"@ || flag == "-cc1"@ || flag == "-cc1as"@ {
        Some(CompilerPass::Internal)
    } else if flag == "-E"@ || flag == "-M"@ || flag == "-MM"@ {
        Some(CompilerPass::Preprocessor)
    } else if flag == "-c"@ || flag == "-S"@ {
        Some(CompilerPass::Compilation)
    } else {
        None
    }
}

/// The pass after `proposed` is offered to `current`.
pub open spec fn advanced(current: CompilerPass, proposed: CompilerPass) -> CompilerPass {
    if precedence(proposed) > precedence(current) {
        proposed
    } else {
        current
    }
}

/// The passes whose invocations produce object code or executables.
pub open spec fn compiling(p: CompilerPass) -> bool {
    p == CompilerPass::Compilation || p == CompilerPass::Linking
}

/// Looks a token up in the table of phase flags.
pub fn phase_flag(flag: &str) -> (r: Option<CompilerPass>)
    ensures
        r == phase_of(flag@),
{
    if str_eq(flag, "-v") || str_eq(flag, "-###") || str_eq(flag, "-cc1") || str_eq(flag, "-cc1as") {
        Some(CompilerPass::Internal)
    } else if str_eq(flag, "-E") || str_eq(flag, "-M") || str_eq(flag, "-MM") {
        Some(CompilerPass::Preprocessor)
    } else if str_eq(flag, "-c") || str_eq(flag, "-S") {
        Some(CompilerPass::Compilation)
    } else {
        None
    }
}

/// The pass after `proposed` is offered to `current`: the one of higher
/// precedence.
pub fn advance(current: CompilerPass, proposed: CompilerPass) -> (r: CompilerPass)
    ensures
        r == advanced(current, proposed),
{
    let rank_current = rank(current);
    let rank_proposed = rank(proposed);
    if rank_proposed > rank_current {
        proposed
    } else {
        current
    }
}

fn rank(p: CompilerPass) -> (r: u8)
    ensures
        r as int == precedence(p),
{
    match p {
        CompilerPass::Linking => 0,
        CompilerPass::Compilation => 1,
        CompilerPass::Preprocessor => 2,
        CompilerPass::Internal => 3,
    }
}

impl Default for CompilerPass {
    /// A compiler invocation links unless a flag says otherwise.
    fn default() -> (r: CompilerPass)
        ensures
            r == CompilerPass::Linking,
    {
        CompilerPass::Linking
    }
}

impl CompilerPass {
    /// Offers a token to the pass: a phase flag moves the pass (when it asks
    /// for a higher one) and is consumed; any other token is not.
    pub fn take(&mut self, string: &str) -> (r: bool)
        ensures
            r == phase_of(string@).is_some(),
            *final(self) == match phase_of(string@) {
                Some(p) => advanced(*old(self), p),
                None => *old(self),
            },
    {
        match phase_flag(string) {
            Some(pass) => {
                self.update(&pass);
                true
            },
            None => false,
        }
    }

    /// True for the passes that compile or link.
    pub fn is_compiling(&self) -> (r: bool)
        ensures
            r == compiling(*self),
    {
        *self == CompilerPass::Compilation || *self == CompilerPass::Linking
    }

    fn update(&mut self, new_state: &CompilerPass)
        ensures
            *final(self) == advanced(*old(self), *new_state),
    {
        *self = advance(*self, *new_state);
    }
}

} // verus!
