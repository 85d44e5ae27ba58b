//! Expands a compiler call into compilation database entries, one for each
//! source file it compiles.

use vstd::prelude::*;

use crate::call::{CallView, CompilerCall};
use crate::pass::CompilerPass;
use crate::text::words;

verus! {

/// One record of a compilation database: how to compile one source file.
pub struct Entry {
    pub directory: String,
    pub file: String,
    pub command: Vec<String>,
    pub output: Option<String>,
}

pub struct EntryView {
    pub directory: Seq<char>,
    pub file: Seq<char>,
    pub command: Seq<Seq<char>>,
    pub output: Option<Seq<char>>,
}

impl View for Entry {
    type V = EntryView;

    open spec fn view(&self) -> EntryView {
        EntryView {
            directory: self.directory@,
            file: self.file@,
            command: words(self.command@),
            output: match self.output {
                Some(o) => Some(o@),
                None => None,
            },
        }
    }
}

/// The views of a sequence of entries.
pub open spec fn entry_views(entries: Seq<Entry>) -> Seq<EntryView> {
    entries.map_values(|e: Entry| e@)
}

/// The index of the `.` that starts the extension of the file name at the
/// end of `path`; -1 when that name has no extension (no `.`, or only a
/// leading one).
pub open spec fn extension_dot(path: Seq<char>) -> int
    decreases path.len(),
{
    if path.len() == 0 || path.last() == '/' {
        -1
    } else if path.last() == '.' {
        if path.len() >= 2 && path[path.len() - 2] != '/' {
            path.len() - 1
        } else {
            -1
        }
    } else {
        extension_dot(path.drop_last())
    }
}

/// The object file of a source: its extension replaced by `o`, or `.o`
/// appended where it has none.
pub open spec fn object_of(source: Seq<char>) -> Seq<char> {
    let d = extension_dot(source);
    if d >= 0 {
        source.subrange(0, d + 1) + "o"@
    } else {
        source + ".o"@
    }
}

/// The output of the entry for `source`: the call's own output where it
/// does not link and compiles that one source alone, else its object file.
pub open spec fn entry_output(call: CallView, source: Seq<char>) -> Seq<char> {
    if call.pass != CompilerPass::Linking && call.output is Some && call.sources.len() == 1 {
        call.output->0
    } else {
        object_of(source)
    }
}

/// The command that compiles `source` alone into `output`.
pub open spec fn entry_command(call: CallView, source: Seq<char>, output: Seq<char>) -> Seq<
    Seq<char>,
> {
    seq![call.compiler, "-c"@] + call.flags + seq![source, "-o"@, output]
}

pub open spec fn entry_of(call: CallView, source: Seq<char>) -> EntryView {
    EntryView {
        directory: call.work_dir,
        file: source,
        command: entry_command(call, source, entry_output(call, source)),
        output: Some(entry_output(call, source)),
    }
}

/// The entries of a call: one for each source, in order.
pub open spec fn entries_of(call: CallView) -> Seq<EntryView> {
    call.sources.map_values(|s: Seq<char>| entry_of(call, s))
}

proof fn lemma_extension_dot(path: Seq<char>, i: int)
    requires
        0 <= i <= path.len(),
        forall|k: int| i <= k < path.len() ==> path[k] != '/' && path[k] != '.',
    ensures
        extension_dot(path) == extension_dot(path.subrange(0, i)),
    decreases path.len() - i,
{
    if i < path.len() {
        assert(path.drop_last() == path.subrange(0, path.len() - 1));
        lemma_extension_dot(path.drop_last(), i);
        assert(path.drop_last().subrange(0, i) == path.subrange(0, i));
    } else {
        assert(path.subrange(0, i) == path);
    }
}

/// Returns the object file of a source, as `object_of` describes it.
fn object_from_source(source: &str) -> (r: String)
    ensures
        r@ == object_of(source@),
{
    let n = source.unicode_len();
    let mut i: usize = n;
    while i > 0 && source.get_char(i - 1) != '/' && source.get_char(i - 1) != '.'
        invariant
            n == source@.len(),
            i <= n,
            forall|k: int| i <= k < n ==> source@[k] != '/' && source@[k] != '.',
        decreases i,
    {
        i = i - 1;
    }
    proof {
        lemma_extension_dot(source@, i as int);
    }
    let ghost prefix = source@.subrange(0, i as int);
    if i >= 2 && source.get_char(i - 1) == '.' && source.get_char(i - 2) != '/' {
        assert(prefix.last() == '.' && prefix[prefix.len() - 2] != '/');
        let mut r = String::from_str(source.substring_char(0, i));
        r.append("o");
        r
    } else {
        if i > 0 {
            assert(prefix.last() == source@[i - 1]);
            if i >= 2 {
                assert(prefix[prefix.len() - 2] == source@[i - 2]);
            }
        }
        let mut r = String::from_str(source);
        r.append(".o");
        r
    }
}

/// Copies of the given strings.
pub(crate) fn copy_words(v: &Vec<String>) -> (r: Vec<String>)
    ensures
        words(r@) == words(v@),
{
    let n = v.len();
    let mut r: Vec<String> = Vec::new();
    let mut i: usize = 0;
    while i < n
        invariant
            n == v@.len(),
            i <= n,
            words(r@) == words(v@).subrange(0, i as int),
        decreases n - i,
    {
        let ghost before = words(r@);
        r.push(v[i].clone());
        assert(words(r@) =~= before.push(v@[i as int]@));
        assert(words(v@).subrange(0, i + 1) =~= words(v@).subrange(0, i as int).push(v@[i as int]@));
        i = i + 1;
    }
    assert(words(v@).subrange(0, n as int) =~= words(v@));
    r
}

/// A copy of an entry.
pub(crate) fn copy_entry(e: &Entry) -> (r: Entry)
    ensures
        r@ == e@,
{
    Entry {
        directory: e.directory.clone(),
        file: e.file.clone(),
        command: copy_words(&e.command),
        output: match &e.output {
            Some(o) => Some(o.clone()),
            None => None,
        },
    }
}

/// The entry that compiles `source` of `compilation`.
fn entry_for(compilation: &CompilerCall, source: &str) -> (r: Entry)
    ensures
        r@ == entry_of(compilation@, source@),
{
    let output = match compilation.output() {
        Some(o) => {
            if compilation.pass() != CompilerPass::Linking && compilation.sources().len() == 1 {
                String::from_str(o)
            } else {
                object_from_source(source)
            }
        },
        None => object_from_source(source),
    };
    let mut command: Vec<String> = Vec::new();
    command.push(String::from_str(compilation.compiler()));
    command.push(String::from_str("-c"));
    let mut flags = copy_words(compilation.flags());
    command.append(&mut flags);
    command.push(String::from_str(source));
    command.push(String::from_str("-o"));
    command.push(output.clone());
    let r = Entry {
        directory: String::from_str(compilation.work_dir()),
        file: String::from_str(source),
        command,
        output: Some(output),
    };
    assert(r@.command =~= entry_command(compilation@, source@, output@));
    r
}

/// The entries of a compiler call: one for each source file, in order.
pub fn from(compilation: &CompilerCall) -> (r: Vec<Entry>)
    ensures
        entry_views(r@) == entries_of(compilation@),
{
    let sources = compilation.sources();
    let n = sources.len();
    let mut r: Vec<Entry> = Vec::new();
    let mut i: usize = 0;
    while i < n
        invariant
            n == sources@.len(),
            words(sources@) == compilation@.sources,
            i <= n,
            entry_views(r@) == entries_of(compilation@).subrange(0, i as int),
        decreases n - i,
    {
        assert(compilation@.sources[i as int] == sources@[i as int]@);
        let e = entry_for(compilation, sources[i].as_str());
        let ghost before = entry_views(r@);
        r.push(e);
        assert(entry_views(r@) =~= before.push(e@));
        assert(entries_of(compilation@).subrange(0, i + 1) =~= entries_of(compilation@).subrange(
            0,
            i as int,
        ).push(e@));
        i = i + 1;
    }
    assert(entries_of(compilation@).subrange(0, n as int) =~= entries_of(compilation@));
    r
}

impl Entry {
    /// The entries of a compiler call: one for each source file, in order.
    pub fn from(compilation: &CompilerCall) -> (r: Vec<Entry>)
        ensures
            entry_views(r@) == entries_of(compilation@),
    {
        from(compilation)
    }
}

} // verus!
