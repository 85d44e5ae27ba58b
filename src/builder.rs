//! Builds a compilation database from the events of a build, and merges it
//! with the entries of a database that already exists.

use vstd::prelude::*;

use crate::call::{
    call_spec, consumes_next, lemma_read_preprocessing, no_reading, preprocessing_flag, CompilerCall,
};
use crate::flags::filtered;
use crate::compiler::{Classifier, MpiAnswer, MpiCalls};
use crate::entry::{copy_entry, entries_of, entry_views, Entry, EntryView};
use crate::event::Event;
use crate::pass::{compiling, CompilerPass};
use crate::text::words;

verus! {

/// Two entries with the same key describe the same compilation.
pub open spec fn key_of(e: EntryView) -> (Seq<char>, Seq<char>) {
    (e.directory, e.file)
}

/// Some entry of `s` has key `k`.
pub open spec fn has_key(s: Seq<EntryView>, k: (Seq<char>, Seq<char>)) -> bool {
    exists|j: int| 0 <= j < s.len() && key_of(s[j]) == k
}

/// `s` with every entry left out that a later one of the same key
/// replaces: for each key the newest entry stays, in its place.
pub open spec fn dedup_newest(s: Seq<EntryView>) -> Seq<EntryView>
    decreases s.len(),
{
    if s.len() == 0 {
        s
    } else {
        let rest = dedup_newest(s.drop_first());
        if has_key(s.drop_first(), key_of(s[0])) {
            rest
        } else {
            seq![s[0]] + rest
        }
    }
}

/// The entries of `previous` and then of `current`, the newest of each key
/// kept.
pub open spec fn merged(previous: Seq<EntryView>, current: Seq<EntryView>) -> Seq<EntryView> {
    dedup_newest(previous + current)
}

/// The passes whose calls are recorded: compilations, and linking calls too
/// where `include_linking` asks for them.
pub open spec fn recorded(include_linking: bool, pass: CompilerPass) -> bool {
    (include_linking && compiling(pass)) || pass == CompilerPass::Compilation
}

/// Reading a command line that `classifier` found to be a compiler call
/// and whose pass `include_linking` records, the entries of that call.
pub open spec fn command_entries(
    classifier: Classifier,
    include_linking: bool,
    work_dir: Seq<char>,
    command: Seq<Seq<char>>,
    calls: Seq<(Seq<char>, MpiAnswer)>,
) -> Seq<EntryView> {
    match call_spec(classifier, work_dir, command, calls) {
        Ok(call) => if recorded(include_linking, call.pass) {
            entries_of(call)
        } else {
            Seq::empty()
        },
        Err(_) => Seq::empty(),
    }
}

/// A strategy for building a compilation database.
pub struct Builder {
    /// Keep the entries of the database that exists.
    pub append_to_existing: bool,
    /// Record linking calls along with compilations.
    pub include_linking: bool,
    /// Which executables are compilers.
    pub compilers: Classifier,
}

impl Builder {
    /// The entries of one event: those of the compiler call that a process
    /// start makes; none for any other event.
    pub open spec fn event_entries(&self, event: Event, calls: Seq<(Seq<char>, MpiAnswer)>) -> Seq<
        EntryView,
    > {
        match event {
            Event::Created { cwd, cmd, .. } => command_entries(
                self.compilers,
                self.include_linking,
                cwd@,
                words(cmd@),
                calls,
            ),
            _ => Seq::empty(),
        }
    }

    /// The entries of the events, in the order of the events.
    pub open spec fn collected(&self, events: Seq<Event>, calls: Seq<(Seq<char>, MpiAnswer)>) -> Seq<
        EntryView,
    >
        decreases events.len(),
    {
        if events.len() == 0 {
            Seq::empty()
        } else {
            self.collected(events.drop_last(), calls) + self.event_entries(events.last(), calls)
        }
    }

    /// The database that a build with `events` leaves, where `previous` is
    /// what the database held before.
    pub open spec fn built(
        &self,
        events: Seq<Event>,
        previous: Seq<EntryView>,
        calls: Seq<(Seq<char>, MpiAnswer)>,
    ) -> Seq<EntryView> {
        merged(
            if self.append_to_existing {
                previous
            } else {
                Seq::empty()
            },
            self.collected(events, calls),
        )
    }

    /// The entries that re-reading the commands of `entries` gives.
    pub open spec fn transformed(&self, entries: Seq<EntryView>, calls: Seq<(Seq<char>, MpiAnswer)>) -> Seq<
        EntryView,
    >
        decreases entries.len(),
    {
        if entries.len() == 0 {
            Seq::empty()
        } else {
            let e = entries.last();
            self.transformed(entries.drop_last(), calls) + command_entries(
                self.compilers,
                self.include_linking,
                e.directory,
                e.command,
                calls,
            )
        }
    }
}

proof fn lemma_dedup_keys(s: Seq<EntryView>, k: (Seq<char>, Seq<char>))
    ensures
        has_key(dedup_newest(s), k) == has_key(s, k),
    decreases s.len(),
{
    if s.len() > 0 {
        let rest = s.drop_first();
        lemma_dedup_keys(rest, k);
        assert(s =~= seq![s[0]] + rest);
        lemma_has_key_concat(seq![s[0]], rest, k);
        lemma_has_key_concat(seq![s[0]], dedup_newest(rest), k);
        assert(has_key(seq![s[0]], k) == (key_of(s[0]) == k)) by {
            if has_key(seq![s[0]], k) {
                let j = choose|j: int| 0 <= j < 1 && key_of(seq![s[0]][j]) == k;
            }
            if key_of(s[0]) == k {
                assert(key_of(seq![s[0]][0]) == k);
            }
        }
    }
}

proof fn lemma_has_key_concat(a: Seq<EntryView>, b: Seq<EntryView>, k: (Seq<char>, Seq<char>))
    ensures
        has_key(a + b, k) == (has_key(a, k) || has_key(b, k)),
{
    if has_key(a + b, k) {
        let j = choose|j: int| 0 <= j < (a + b).len() && key_of((a + b)[j]) == k;
        if j >= a.len() {
            assert(key_of(b[j - a.len()]) == k);
        } else {
            assert(key_of(a[j]) == k);
        }
    }
    if has_key(a, k) {
        let j = choose|j: int| 0 <= j < a.len() && key_of(a[j]) == k;
        assert(key_of((a + b)[j]) == k);
    }
    if has_key(b, k) {
        let j = choose|j: int| 0 <= j < b.len() && key_of(b[j]) == k;
        assert(key_of((a + b)[a.len() + j]) == k);
    }
}

/// Deduplicating first changes nothing of a later deduplication.
proof fn lemma_dedup_prefix(x: Seq<EntryView>, c: Seq<EntryView>)
    ensures
        dedup_newest(dedup_newest(x) + c) == dedup_newest(x + c),
    decreases x.len(),
{
    if x.len() == 0 {
        assert(dedup_newest(x) + c =~= c);
        assert(x + c =~= c);
    } else {
        let x1 = x.drop_first();
        let k = key_of(x[0]);
        lemma_dedup_prefix(x1, c);
        assert((x + c).drop_first() =~= x1 + c);
        assert((x + c)[0] == x[0]);
        lemma_has_key_concat(x1, c, k);
        lemma_has_key_concat(dedup_newest(x1), c, k);
        lemma_dedup_keys(x1, k);
        if !has_key(x1, k) {
            let y = seq![x[0]] + dedup_newest(x1);
            assert(y + c =~= seq![x[0]] + (dedup_newest(x1) + c));
            assert((y + c).drop_first() =~= dedup_newest(x1) + c);
            assert((y + c)[0] == x[0]);
        }
    }
}

/// Entries whose keys all come again later change nothing.
proof fn lemma_dedup_shadowed(u: Seq<EntryView>, c: Seq<EntryView>)
    requires
        forall|j: int| 0 <= j < u.len() ==> has_key(c, key_of(#[trigger] u[j])),
    ensures
        dedup_newest(u + c) == dedup_newest(c),
    decreases u.len(),
{
    if u.len() == 0 {
        assert(u + c =~= c);
    } else {
        let u1 = u.drop_first();
        assert((u + c).drop_first() =~= u1 + c);
        assert((u + c)[0] == u[0]);
        assert(has_key(c, key_of(u[0])));
        lemma_has_key_concat(u1, c, key_of(u[0]));
        assert forall|j: int| 0 <= j < u1.len() implies has_key(c, key_of(#[trigger] u1[j])) by {
            assert(u1[j] == u[j + 1]);
        }
        lemma_dedup_shadowed(u1, c);
    }
}

/// Entries seen twice in a row count once.
proof fn lemma_dedup_repeat(y: Seq<EntryView>, c: Seq<EntryView>)
    ensures
        dedup_newest(y + c + c) == dedup_newest(y + c),
    decreases y.len(),
{
    if y.len() == 0 {
        assert(y + c + c =~= c + c);
        assert(y + c =~= c);
        assert forall|j: int| 0 <= j < c.len() implies has_key(c, key_of(#[trigger] c[j])) by {}
        lemma_dedup_shadowed(c, c);
    } else {
        let y1 = y.drop_first();
        let k = key_of(y[0]);
        lemma_dedup_repeat(y1, c);
        assert((y + c + c).drop_first() =~= y1 + c + c);
        assert((y + c).drop_first() =~= y1 + c);
        assert((y + c + c)[0] == y[0]);
        assert((y + c)[0] == y[0]);
        lemma_has_key_concat(y1 + c, c, k);
        lemma_has_key_concat(y1, c, k);
    }
}

/// Merging the same new entries twice gives what merging them once gives.
pub proof fn lemma_merge_idempotent(previous: Seq<EntryView>, current: Seq<EntryView>)
    ensures
        merged(merged(previous, current), current) == merged(previous, current),
{
    lemma_dedup_prefix(previous + current, current);
    lemma_dedup_repeat(previous, current);
}

/// Building twice from the same events, the second time on what the first
/// left, gives the database that building once gives.
pub proof fn lemma_build_idempotent(
    builder: Builder,
    events: Seq<Event>,
    previous: Seq<EntryView>,
    calls: Seq<(Seq<char>, MpiAnswer)>,
)
    ensures
        builder.built(events, builder.built(events, previous, calls), calls) == builder.built(
            events,
            previous,
            calls,
        ),
{
    let current = builder.collected(events, calls);
    if builder.append_to_existing {
        lemma_merge_idempotent(previous, current);
    } else {
        assert(Seq::<EntryView>::empty() + current =~= current);
    }
}

/// Keeps the newest entry of each key, as `dedup_newest` describes.
fn dedup(all: &Vec<Entry>) -> (r: Vec<Entry>)
    ensures
        entry_views(r@) == dedup_newest(entry_views(all@)),
{
    let ghost s = entry_views(all@);
    let n = all.len();
    let mut out: Vec<Entry> = Vec::new();
    let mut i: usize = 0;
    assert(s.subrange(0, n as int) =~= s);
    while i < n
        invariant
            n == all@.len() == s.len(),
            s == entry_views(all@),
            i <= n,
            entry_views(out@) + dedup_newest(s.subrange(i as int, n as int)) == dedup_newest(s),
        decreases n - i,
    {
        let ghost tail = s.subrange(i as int, n as int);
        let ghost later = s.subrange(i + 1, n as int);
        assert(tail.drop_first() =~= later);
        assert(tail[0] == all@[i as int]@);
        let mut seen = false;
        let mut j: usize = i + 1;
        while j < n
            invariant
                n == all@.len() == s.len(),
                s == entry_views(all@),
                i < n,
                i + 1 <= j <= n,
                later == s.subrange(i + 1, n as int),
                seen == has_key(s.subrange(i + 1, j as int), key_of(s[i as int])),
            decreases n - j,
        {
            let ghost before = s.subrange(i + 1, j as int);
            assert(s.subrange(i + 1, j + 1) =~= before + seq![s[j as int]]);
            proof {
                lemma_has_key_concat(before, seq![s[j as int]], key_of(s[i as int]));
            }
            if all[j].directory == all[i].directory && all[j].file == all[i].file {
                assert(key_of(seq![s[j as int]][0]) == key_of(s[i as int]));
                seen = true;
            } else {
                assert(!has_key(seq![s[j as int]], key_of(s[i as int])));
            }
            j = j + 1;
        }
        let ghost kept = entry_views(out@);
        if !seen {
            let e = copy_entry(&all[i]);
            out.push(e);
            assert(entry_views(out@) =~= kept.push(e@));
            assert(entry_views(out@) + dedup_newest(later) =~= kept + (seq![s[i as int]] + dedup_newest(later)));
        }
        i = i + 1;
    }
    assert(s.subrange(n as int, n as int) =~= Seq::<EntryView>::empty());
    assert(entry_views(out@) + Seq::<EntryView>::empty() =~= entry_views(out@));
    out
}

/// Merges the entries of a database with new ones: those of `previous`,
/// then those of `current`, the newest of each key kept.
pub fn merge(previous: Vec<Entry>, current: Vec<Entry>) -> (r: Vec<Entry>)
    ensures
        entry_views(r@) == merged(entry_views(previous@), entry_views(current@)),
{
    let mut all = previous;
    let mut current = current;
    let ghost p = entry_views(all@);
    let ghost c = entry_views(current@);
    all.append(&mut current);
    assert(entry_views(all@) =~= p + c);
    dedup(&all)
}

impl Builder {
    /// Whether calls of `pass` are recorded.
    pub fn records(&self, pass: CompilerPass) -> (r: bool)
        ensures
            r == recorded(self.include_linking, pass),
    {
        (self.include_linking && pass.is_compiling()) || pass == CompilerPass::Compilation
    }

    fn command_entries(&self, work_dir: &str, command: &[String], mpi: &MpiCalls) -> (r: Vec<Entry>)
        ensures
            entry_views(r@) == command_entries(
                self.compilers,
                self.include_linking,
                work_dir@,
                words(command@),
                mpi@,
            ),
    {
        match CompilerCall::from(&self.compilers, work_dir, command, mpi) {
            Ok(call) => {
                if self.records(call.pass()) {
                    Entry::from(&call)
                } else {
                    let r: Vec<Entry> = Vec::new();
                    assert(entry_views(r@) =~= Seq::<EntryView>::empty());
                    r
                }
            },
            Err(_) => {
                let r: Vec<Entry> = Vec::new();
                assert(entry_views(r@) =~= Seq::<EntryView>::empty());
                r
            },
        }
    }

    /// The entries of the events, in the order of the events.
    pub fn collect(&self, events: &[Event], mpi: &MpiCalls) -> (r: Vec<Entry>)
        ensures
            entry_views(r@) == self.collected(events@, mpi@),
    {
        let n = events.len();
        let mut r: Vec<Entry> = Vec::new();
        let mut i: usize = 0;
        assert(entry_views(r@) =~= Seq::<EntryView>::empty());
        while i < n
            invariant
                n == events@.len(),
                i <= n,
                entry_views(r@) == self.collected(events@.subrange(0, i as int), mpi@),
            decreases n - i,
        {
            let ghost before = entry_views(r@);
            let ghost upto = events@.subrange(0, i + 1);
            assert(upto.drop_last() =~= events@.subrange(0, i as int));
            assert(upto.last() == events@[i as int]);
            match events[i].to_execution() {
                Some((cmd, cwd)) => {
                    let mut found = self.command_entries(cwd, cmd.as_slice(), mpi);
                    let ghost more = entry_views(found@);
                    r.append(&mut found);
                    assert(entry_views(r@) =~= before + more);
                },
                None => {
                    assert(before + Seq::<EntryView>::empty() =~= before);
                },
            }
            i = i + 1;
        }
        assert(events@.subrange(0, n as int) =~= events@);
        r
    }

    /// The database that a build with `events` leaves, where `previous` holds
    /// the entries of the database that exists (empty where there is none).
    pub fn build(&self, events: &[Event], previous: Vec<Entry>, mpi: &MpiCalls) -> (r: Vec<Entry>)
        ensures
            entry_views(r@) == self.built(events@, entry_views(previous@), mpi@),
    {
        let current = self.collect(events, mpi);
        if self.append_to_existing {
            merge(previous, current)
        } else {
            let none: Vec<Entry> = Vec::new();
            assert(entry_views(none@) =~= Seq::<EntryView>::empty());
            merge(none, current)
        }
    }

    /// Re-reads the commands of the entries of a database, as a build would
    /// have read them.
    pub fn transform(&self, entries: &[Entry], mpi: &MpiCalls) -> (r: Vec<Entry>)
        ensures
            entry_views(r@) == self.transformed(entry_views(entries@), mpi@),
    {
        let ghost views = entry_views(entries@);
        let n = entries.len();
        let mut r: Vec<Entry> = Vec::new();
        let mut i: usize = 0;
        assert(entry_views(r@) =~= Seq::<EntryView>::empty());
        while i < n
            invariant
                n == entries@.len(),
                views == entry_views(entries@),
                i <= n,
                entry_views(r@) == self.transformed(views.subrange(0, i as int), mpi@),
            decreases n - i,
        {
            let ghost before = entry_views(r@);
            let ghost upto = views.subrange(0, i + 1);
            assert(upto.drop_last() =~= views.subrange(0, i as int));
            assert(upto.last() == entries@[i as int]@);
            let e = &entries[i];
            let mut found = self.command_entries(e.directory.as_str(), e.command.as_slice(), mpi);
            let ghost more = entry_views(found@);
            r.append(&mut found);
            assert(entry_views(r@) =~= before + more);
            i = i + 1;
        }
        assert(views.subrange(0, n as int) =~= views);
        r
    }
}

impl Default for Builder {
    /// Records compilations only, on a fresh database, with every known
    /// compiler name.
    fn default() -> (r: Builder)
        ensures
            !r.append_to_existing,
            !r.include_linking,
            !r.compilers.only_listed(),
            r.compilers.c_names().len() == 0,
            r.compilers.cxx_names().len() == 0,
    {
        let none: Vec<String> = Vec::new();
        Builder {
            append_to_existing: false,
            include_linking: false,
            compilers: Classifier::new(false, none.as_slice(), none.as_slice()),
        }
    }
}

/// How the entries of a compilation database are written.
pub struct Format {
    /// Directory that the paths of the entries are made relative to.
    pub relative_to: Option<String>,
    /// Write each command as an array of arguments, not as one string.
    pub command_as_array: bool,
    /// Leave the output of each entry out.
    pub drop_output_field: bool,
    /// Leave compiler wrappers out of the commands.
    pub drop_wrapper: bool,
}

impl Default for Format {
    fn default() -> (r: Format)
        ensures
            r.relative_to is None,
            r.command_as_array,
            !r.drop_output_field,
            r.drop_wrapper,
    {
        Format { relative_to: None, command_as_array: true, drop_output_field: false, drop_wrapper: true }
    }
}

/// A compiler call in which a flag to only preprocess (`-E`, `-M`, `-MM`)
/// or to report on the compiler (`-v`, `-###`, `-cc1`, `-cc1as`) is read
/// as a flag gives no entry, whatever else its command holds.
pub proof fn lemma_preprocessing_yields_no_entries(
    classifier: Classifier,
    include_linking: bool,
    work_dir: Seq<char>,
    command: Seq<Seq<char>>,
    calls: Seq<(Seq<char>, MpiAnswer)>,
    i: int,
)
    requires
        match classifier.split_spec(command, calls, calls.len()) {
            Some(split) => 0 <= i < filtered(split.1).len() && preprocessing_flag(filtered(split.1)[i])
                && (i == 0 || !consumes_next(filtered(split.1)[i - 1])),
            None => true,
        },
    ensures
        command_entries(classifier, include_linking, work_dir, command, calls) == Seq::<
            EntryView,
        >::empty(),
{
    match classifier.split_spec(command, calls, calls.len()) {
        Some(split) => {
            lemma_read_preprocessing(filtered(split.1), no_reading(), i);
        },
        None => {},
    }
}

} // verus!
