//! Removes from a compiler's arguments those that a compilation database
//! does not need: dependency-file options and linker options.

use vstd::prelude::*;

use crate::pattern::{regex_is_match, regex_matches};
use crate::text::{str_eq, words};

verus! {

/// A linker option with its value attached: `-lfoo`, `-L/path`, `-Wl,opt`.
pub open spec fn linker_flag_pattern() -> Seq<char> {
    "^-(l|L|Wl,).+"@
}

/// The options that are dropped, each with the number of arguments that
/// follow it and are dropped with it.
pub open spec fn ignored_arity(flag: Seq<char>) -> Option<nat> {
    if flag == "-MD"@ || flag == "-MMD"@ || flag == "-MG"@ || flag == "-MP"@ {
        Some(0)
    } else if flag == "-MF"@ || flag == "-MT"@ || flag == "-MQ"@ {
        Some(1)
    } else if flag == "-static"@ || flag == "-shared"@ || flag == "-s"@ || flag == "-rdynamic"@ {
        Some(0)
    } else if flag == "-l"@ || flag == "-L"@ || flag == "-u"@ || flag == "-z"@ || flag == "-T"@
        || flag == "-Xlinker"@ {
        Some(1)
    } else if flag == "-nologo"@ || flag == "-EHsc"@ || flag == "-EHa"@ {
        Some(0)
    } else {
        None
    }
}

/// `args` without its first `n` elements (empty when it has fewer).
pub open spec fn drop_front(args: Seq<Seq<char>>, n: nat) -> Seq<Seq<char>> {
    if n < args.len() {
        args.subrange(n as int, args.len() as int)
    } else {
        Seq::empty()
    }
}

/// The arguments that remain after the ignored options, their values and
/// the attached linker options are dropped, in the order given.
pub open spec fn filtered(args: Seq<Seq<char>>) -> Seq<Seq<char>>
    decreases args.len(),
{
    if args.len() == 0 {
        args
    } else {
        match ignored_arity(args[0]) {
            Some(k) => filtered(drop_front(args, 1 + k)),
            None => if regex_matches(linker_flag_pattern(), args[0]) {
                filtered(args.drop_first())
            } else {
                seq![args[0]] + filtered(args.drop_first())
            },
        }
    }
}

fn ignored_flag(flag: &str) -> (r: Option<usize>)
    ensures
        match r {
            Some(k) => ignored_arity(flag@) == Some(k as nat),
            None => ignored_arity(flag@) is None,
        },
{
    if str_eq(flag, "-MD") || str_eq(flag, "-MMD") || str_eq(flag, "-MG") || str_eq(flag, "-MP") {
        Some(0)
    } else if str_eq(flag, "-MF") || str_eq(flag, "-MT") || str_eq(flag, "-MQ") {
        Some(1)
    } else if str_eq(flag, "-static") || str_eq(flag, "-shared") || str_eq(flag, "-s") || str_eq(
        flag,
        "-rdynamic",
    ) {
        Some(0)
    } else if str_eq(flag, "-l") || str_eq(flag, "-L") || str_eq(flag, "-u") || str_eq(flag, "-z")
        || str_eq(flag, "-T") || str_eq(flag, "-Xlinker") {
        Some(1)
    } else if str_eq(flag, "-nologo") || str_eq(flag, "-EHsc") || str_eq(flag, "-EHa") {
        Some(0)
    } else {
        None
    }
}

/// An ordered sequence of compiler arguments from which the ignorable ones
/// are left out as it is read.
pub struct FlagIterator {
    items: Vec<String>,
    position: usize,
}

impl FlagIterator {
    /// The arguments not read yet, before filtering.
    pub closed spec fn rest(&self) -> Seq<Seq<char>> {
        words(self.items@).subrange(self.position as int, self.items@.len() as int)
    }

    /// The arguments that reading on will hand out.
    pub open spec fn pending(&self) -> Seq<Seq<char>> {
        filtered(self.rest())
    }

    pub closed spec fn wf(&self) -> bool {
        self.position <= self.items@.len()
    }

    pub fn from(collection: Vec<String>) -> (r: Self)
        ensures
            r.wf(),
            r.rest() == words(collection@),
    {
        let r = FlagIterator { items: collection, position: 0 };
        assert(words(r.items@).subrange(0, r.items@.len() as int) == words(r.items@));
        r
    }

    /// Hands out the next argument that is kept.
    pub fn next(&mut self) -> (r: Option<String>)
        requires
            old(self).wf(),
        ensures
            final(self).wf(),
            old(self).pending() == match r {
                Some(s) => seq![s@] + final(self).pending(),
                None => Seq::empty(),
            },
            r is None ==> final(self).pending().len() == 0,
    {
        let n = self.items.len();
        while self.position < n
            invariant
                n == self.items@.len(),
                self.wf(),
                self.pending() == old(self).pending(),
            decreases n - self.position,
        {
            let p = self.position;
            let ghost rest = self.rest();
            assert(rest[0] == self.items@[p as int]@);
            match ignored_flag(self.items[p].as_str()) {
                Some(k) => {
                    let skip = if k < n - p - 1 { k } else { n - p - 1 };
                    self.position = p + 1 + skip;
                    assert(self.rest() == drop_front(rest, (1 + k) as nat));
                },
                None => {
                    self.position = p + 1;
                    assert(self.rest() == rest.drop_first());
                    if !regex_is_match("^-(l|L|Wl,).+", self.items[p].as_str()) {
                        return Some(self.items[p].clone());
                    }
                },
            }
        }
        assert(self.rest().len() == 0);
        None
    }

    /// Reads all the remaining arguments that are kept.
    pub fn collect(self) -> (r: Vec<String>)
        requires
            self.wf(),
        ensures
            words(r@) == self.pending(),
    {
        let mut it = self;
        let mut out: Vec<String> = Vec::new();
        loop
            invariant
                it.wf(),
                words(out@) + it.pending() == self.pending(),
            decreases it.pending().len(),
        {
            match it.next() {
                Some(s) => {
                    let ghost before = words(out@);
                    out.push(s);
                    assert(words(out@) == before.push(s@));
                },
                None => {
                    assert(words(out@) + it.pending() == words(out@));
                    return out;
                },
            }
        }
    }
}

} // verus!
