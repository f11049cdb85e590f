//! Loading prompts and workflows from the tiers, with the tier of each.

use crate::definition::WorkflowDefinition;
use crate::validator::{findings_of, fviews, validate, Finding};
use crate::parser::{fails_with, body_ok, clone_string, doc_name, header_ok, ambiguous, body_statements, parse_workflow, parsed_from, ParseError};
use crate::vfs::{as_map, eviews, lemma_as_map_index, lemma_as_map_keys, merge_all, unique_names, EntryView, FileEntry, FileSource, VirtualFileSystem};
use vstd::prelude::*;

verus! {

/// One name and the tier that supplied it.
pub struct SourceEntry {
    pub name: String,
    pub source: FileSource,
}

/// For each loaded resource, the tier it came from; a later record for a
/// name replaces an earlier one.
pub struct SourceMap {
    pub records: Vec<SourceEntry>,
}

pub open spec fn source_map(v: Seq<SourceEntry>) -> Map<Seq<char>, FileSource>
    decreases v.len(),
{
    if v.len() == 0 {
        Map::empty()
    } else {
        source_map(v.drop_last()).insert(v.last().name@, v.last().source)
    }
}

impl SourceMap {
    pub open spec fn view(&self) -> Map<Seq<char>, FileSource> {
        source_map(self.records@)
    }

    pub fn new() -> (m: SourceMap)
        ensures
            m.view() == Map::<Seq<char>, FileSource>::empty(),
    {
        SourceMap { records: Vec::new() }
    }

    pub fn insert(&mut self, name: String, source: FileSource)
        ensures
            final(self).view() == old(self).view().insert(name@, source),
    {
        let ghost before = self.records@;
        self.records.push(SourceEntry { name, source });
        assert(self.records@.drop_last() =~= before);
    }

    /// The tier recorded for `name`.
    pub fn get(&self, name: &str) -> (r: Option<&FileSource>)
        ensures
            match r {
                Some(s) => self.view().contains_key(name@) && self.view()[name@] == *s,
                None => !self.view().contains_key(name@),
            },
    {
        let key = String::from_str(name);
        let mut i: usize = self.records.len();
        while i > 0
            invariant
                i <= self.records.len(),
                key@ == name@,
                forall|k: int| i <= k < self.records.len() ==> self.records[k].name@ != name@,
            decreases i,
        {
            i = i - 1;
            if self.records[i].name == key {
                proof {
                    lemma_source_map_last(self.records@, i as int, name@);
                }
                return Some(&self.records[i].source);
            }
        }
        proof {
            lemma_source_map_absent(self.records@, name@);
        }
        None
    }
}

proof fn lemma_source_map_last(v: Seq<SourceEntry>, i: int, n: Seq<char>)
    requires
        0 <= i < v.len(),
        v[i].name@ == n,
        forall|k: int| i < k < v.len() ==> v[k].name@ != n,
    ensures
        source_map(v).contains_key(n),
        source_map(v)[n] == v[i].source,
    decreases v.len(),
{
    if i < v.len() - 1 {
        lemma_source_map_last(v.drop_last(), i, n);
    }
}

proof fn lemma_source_map_absent(v: Seq<SourceEntry>, n: Seq<char>)
    requires
        forall|k: int| 0 <= k < v.len() ==> v[k].name@ != n,
    ensures
        !source_map(v).contains_key(n),
    decreases v.len(),
{
    if v.len() > 0 {
        lemma_source_map_absent(v.drop_last(), n);
    }
}

/// A prompt: its name and its template text, which is rendered elsewhere.
#[derive(Debug)]
pub struct Prompt {
    pub name: String,
    pub template: String,
}

/// Why loading resources failed.
#[derive(Debug)]
pub enum ResolveError {
    /// The resource `name` from tier `source` could not be parsed.
    Parse { name: String, source: FileSource, error: ParseError },
}

/// Turns resource text into prompts; prompt bodies are opaque templates.
pub struct PromptLoader {}

impl PromptLoader {
    pub fn new() -> PromptLoader {
        PromptLoader {}
    }

    pub fn load_from_string(&self, name: &str, content: &str) -> (r: Result<Prompt, ResolveError>)
        ensures
            r is Ok,
            r->Ok_0.name@ == name@,
            r->Ok_0.template@ == content@,
    {
        Ok(Prompt { name: String::from_str(name), template: String::from_str(content) })
    }
}

pub open spec fn prompt_map(v: Seq<Prompt>) -> Map<Seq<char>, Seq<char>>
    decreases v.len(),
{
    if v.len() == 0 {
        Map::empty()
    } else {
        prompt_map(v.drop_last()).insert(v.last().name@, v.last().template@)
    }
}

/// Every name of `m` is the name of a prompt of `v`.
pub open spec fn lists_every(m: Map<Seq<char>, Seq<char>>, v: Seq<Prompt>) -> bool {
    forall|n: Seq<char>| #[trigger] m.contains_key(n) ==> exists|i: int| 0 <= i < v.len() && #[trigger] v[i].name@ == n
}

/// Prompts by name; adding a prompt replaces one of the same name.
pub struct PromptLibrary {
    pub prompts: Vec<Prompt>,
}

proof fn lemma_prompt_map_last(v: Seq<Prompt>, i: int, n: Seq<char>)
    requires
        0 <= i < v.len(),
        v[i].name@ == n,
        forall|k: int| i < k < v.len() ==> v[k].name@ != n,
    ensures
        prompt_map(v).contains_key(n),
        prompt_map(v)[n] == v[i].template@,
    decreases v.len(),
{
    if i < v.len() - 1 {
        lemma_prompt_map_last(v.drop_last(), i, n);
    }
}

proof fn lemma_prompt_map_absent(v: Seq<Prompt>, n: Seq<char>)
    requires
        forall|k: int| 0 <= k < v.len() ==> v[k].name@ != n,
    ensures
        !prompt_map(v).contains_key(n),
    decreases v.len(),
{
    if v.len() > 0 {
        lemma_prompt_map_absent(v.drop_last(), n);
    }
}

impl PromptLibrary {
    pub open spec fn view(&self) -> Map<Seq<char>, Seq<char>> {
        prompt_map(self.prompts@)
    }

    pub fn new() -> (l: PromptLibrary)
        ensures
            l.view() == Map::<Seq<char>, Seq<char>>::empty(),
    {
        PromptLibrary { prompts: Vec::new() }
    }

    /// Adds `p`, replacing a prompt of the same name.
    pub fn add(&mut self, p: Prompt) -> (r: Result<(), ResolveError>)
        ensures
            r is Ok,
            final(self).view() == old(self).view().insert(p.name@, p.template@),
    {
        let ghost before = self.prompts@;
        let ghost pv = p;
        self.prompts.push(p);
        assert(self.prompts@.drop_last() =~= before);
        Ok(())
    }

    /// The template of the prompt named `name`.
    pub fn get(&self, name: &str) -> (r: Option<&Prompt>)
        ensures
            match r {
                Some(p) => p.name@ == name@ && self.view().contains_key(name@) && self.view()[name@]
                    == p.template@,
                None => !self.view().contains_key(name@),
            },
    {
        let key = String::from_str(name);
        let mut i: usize = self.prompts.len();
        while i > 0
            invariant
                i <= self.prompts.len(),
                key@ == name@,
                forall|k: int| i <= k < self.prompts.len() ==> self.prompts[k].name@ != name@,
            decreases i,
        {
            i = i - 1;
            if self.prompts[i].name == key {
                proof {
                    lemma_prompt_map_last(self.prompts@, i as int, name@);
                }
                return Some(&self.prompts[i]);
            }
        }
        proof {
            lemma_prompt_map_absent(self.prompts@, name@);
        }
        None
    }

    /// Every prompt once, as last added.
    pub fn list(&self) -> (r: Result<Vec<Prompt>, ResolveError>)
        ensures
            r is Ok,
            forall|i: int| 0 <= i < r->Ok_0.len() ==> self.view().contains_key(#[trigger] r->Ok_0[i].name@)
                && self.view()[r->Ok_0[i].name@] == r->Ok_0[i].template@,
            lists_every(self.view(), r->Ok_0@),
    {
        let names = self.names();
        let mut out: Vec<Prompt> = Vec::new();
        let mut i: usize = 0;
        while i < names.len()
            invariant
                i <= names.len(),
                out.len() == i,
                forall|n: Seq<char>| names.deep_view().contains(n) <==> self.view().contains_key(n),
                forall|k: int| 0 <= k < i ==> out[k].name@ == names[k]@,
                forall|k: int| 0 <= k < i ==> self.view().contains_key(#[trigger] out[k].name@)
                    && self.view()[out[k].name@] == out[k].template@,
            decreases names.len() - i,
        {
            assert(names.deep_view()[i as int] == names[i as int]@);
            assert(names.deep_view().contains(names[i as int]@));
            match self.get(names[i].as_str()) {
                Some(p) => {
                    out.push(Prompt { name: clone_string(&p.name), template: clone_string(&p.template) });
                },
                None => {
                    assert(false);
                    out.push(Prompt { name: clone_string(&names[i]), template: String::new() });
                },
            }
            i = i + 1;
        }
        proof {
            assert forall|n: Seq<char>| #[trigger] self.view().contains_key(n) implies exists|i: int| 0 <= i < out@.len() && #[trigger] out@[i].name@ == n by {
                assert(names.deep_view().contains(n));
                let k = choose|k: int| 0 <= k < names.deep_view().len() && names.deep_view()[k] == n;
                assert(names.deep_view()[k] == names[k]@);
                assert(out@[k].name@ == n);
            }
            assert(lists_every(self.view(), out@));
        }
        Ok(out)
    }

    /// The names of the prompts, each once, latest addition last.
    pub fn names(&self) -> (r: Vec<String>)
        ensures
            forall|n: Seq<char>| r.deep_view().contains(n) <==> self.view().contains_key(n),
    {
        let mut out: Vec<String> = Vec::new();
        let mut i: usize = 0;
        while i < self.prompts.len()
            invariant
                i <= self.prompts.len(),
                forall|n: Seq<char>| out.deep_view().contains(n) <==> prompt_map(self.prompts@.subrange(0, i as int)).contains_key(n),
            decreases self.prompts.len() - i,
        {
            assert(self.prompts@.subrange(0, i + 1).drop_last() =~= self.prompts@.subrange(0, i as int));
            assert(self.prompts@.subrange(0, i + 1).last() == self.prompts[i as int]);
            let ghost before = out.deep_view();
            crate::executor::push_unique(&mut out, &self.prompts[i].name);
            let ghost x = self.prompts[i as int].name@;
            assert forall|n: Seq<char>| out.deep_view().contains(n) <==> (before.contains(n) || n == x) by {
                if !before.contains(x) {
                    assert(out.deep_view() == before.push(x));
                    assert(out.deep_view()[before.len() as int] == x);
                    if before.contains(n) {
                        let j = choose|j: int| 0 <= j < before.len() && before[j] == n;
                        assert(out.deep_view()[j] == n);
                    }
                    if out.deep_view().contains(n) {
                        let j = choose|j: int| 0 <= j < out.deep_view().len() && out.deep_view()[j] == n;
                        if j < before.len() {
                            assert(before[j] == n);
                        }
                    }
                }
            }
            let ghost pm0 = prompt_map(self.prompts@.subrange(0, i as int));
            let ghost pm1 = prompt_map(self.prompts@.subrange(0, i + 1));
            assert(pm1 == pm0.insert(x, self.prompts[i as int].template@));
            assert forall|n: Seq<char>| out.deep_view().contains(n) <==> pm1.contains_key(n) by {
                assert(before.contains(n) <==> pm0.contains_key(n));
            }
            i = i + 1;
        }
        assert(self.prompts@.subrange(0, self.prompts.len() as int) =~= self.prompts@);
        out
    }
}

/// The prompts embedded in the binary.
pub open spec fn builtin_prompt_entries() -> Seq<EntryView> {
    seq![
        EntryView {
            name: "debug/error"@,
            content: "Analyse the error below, find its cause and propose a fix.\n\n{{ error }}\n"@,
            source: FileSource::Builtin,
        },
        EntryView {
            name: "help"@,
            content: "Answer the question below as a concise, accurate guide.\n\n{{ topic }}\n"@,
            source: FileSource::Builtin,
        },
    ]
}

pub fn builtin_prompts() -> (r: Vec<FileEntry>)
    ensures
        eviews(r@) == builtin_prompt_entries(),
{
    let mut v: Vec<FileEntry> = Vec::new();
    v.push(FileEntry::new(
        String::from_str("debug/error"),
        String::from_str("Analyse the error below, find its cause and propose a fix.\n\n{{ error }}\n"),
        FileSource::Builtin,
    ));
    v.push(FileEntry::new(
        String::from_str("help"),
        String::from_str("Answer the question below as a concise, accurate guide.\n\n{{ topic }}\n"),
        FileSource::Builtin,
    ));
    assert(eviews(v@) =~= builtin_prompt_entries());
    v
}

/// Some of the first `i` entries is named `n`.
pub open spec fn named_before(fv: Seq<EntryView>, i: int, n: Seq<char>) -> bool {
    exists|j: int| 0 <= j < i && #[trigger] fv[j].name == n
}

proof fn lemma_named_all(fv: Seq<EntryView>, n: Seq<char>)
    ensures
        named_before(fv, fv.len() as int, n) <==> as_map(fv).contains_key(n),
{
    lemma_as_map_keys(fv, n);
}

/// Records the tier of every resource of `files`, in order.
fn record_sources(m: &mut SourceMap, files: &Vec<FileEntry>)
    requires
        unique_names(eviews(files@)),
    ensures
        forall|n: Seq<char>|
            #[trigger] final(m).view().contains_key(n) <==> old(m).view().contains_key(n) || as_map(eviews(files@)).contains_key(n),
        forall|n: Seq<char>|
            #[trigger] as_map(eviews(files@)).contains_key(n) ==> final(m).view()[n] == as_map(eviews(files@))[n].source,
{
    let ghost fv = eviews(files@);
    let ghost start = m.view();
    let mut i: usize = 0;
    while i < files.len()
        invariant
            fv == eviews(files@),
            unique_names(fv),
            i <= files.len(),
            start == old(m).view(),
            forall|n: Seq<char>| #[trigger] m.view().contains_key(n) <==> start.contains_key(n) || named_before(fv, i as int, n),
            forall|j: int| 0 <= j < i ==> m.view().contains_key(#[trigger] fv[j].name) && m.view()[fv[j].name] == fv[j].source,
        decreases files.len() - i,
    {
        assert(fv[i as int] == files[i as int]@);
        let ghost mb = m.view();
        m.insert(clone_string(&files[i].name), files[i].source);
        assert forall|n: Seq<char>| #[trigger] m.view().contains_key(n) <==> start.contains_key(n) || named_before(fv, i + 1, n) by {
            assert(mb.contains_key(n) <==> start.contains_key(n) || named_before(fv, i as int, n));
            assert(m.view().contains_key(n) <==> mb.contains_key(n) || n == fv[i as int].name);
            if named_before(fv, i + 1, n) && !named_before(fv, i as int, n) {
                let j = choose|j: int| 0 <= j < i + 1 && #[trigger] fv[j].name == n;
                assert(j == i);
            }
            if named_before(fv, i as int, n) {
                let j = choose|j: int| 0 <= j < i && #[trigger] fv[j].name == n;
                assert(fv[j].name == n);
            }
        }
        i = i + 1;
    }
    proof {
        assert forall|n: Seq<char>| #[trigger] m.view().contains_key(n) <==> start.contains_key(n) || as_map(fv).contains_key(n) by {
            lemma_named_all(fv, n);
        }
        assert forall|n: Seq<char>| #[trigger] as_map(fv).contains_key(n) implies m.view()[n] == as_map(fv)[n].source by {
            lemma_as_map_keys(fv, n);
            let j = choose|j: int| 0 <= j < fv.len() && #[trigger] fv[j].name == n;
            lemma_as_map_index(fv, j);
        }
    }
}

/// Loads prompts from the tiers with the precedence built in < user < local.
pub struct PromptResolver {
    /// The tier that supplied each loaded prompt.
    pub prompt_sources: SourceMap,
    pub vfs: VirtualFileSystem,
}

impl PromptResolver {
    pub open spec fn wf(&self) -> bool {
        self.vfs.wf()
    }

    pub fn new() -> (r: PromptResolver)
        ensures
            r.wf(),
            r.vfs.resources() == Map::<Seq<char>, EntryView>::empty(),
            r.vfs.dirs() == Seq::<Seq<char>>::empty(),
            r.prompt_sources.view() == Map::<Seq<char>, FileSource>::empty(),
    {
        PromptResolver { prompt_sources: SourceMap::new(), vfs: VirtualFileSystem::new("prompts") }
    }

    /// The directories that prompts are loaded from, in order of precedence.
    pub fn get_prompt_directories(&self) -> (r: Result<Vec<String>, ResolveError>)
        requires
            self.wf(),
        ensures
            r is Ok,
            r->Ok_0.deep_view() == self.vfs.dirs(),
            forall|a: int, b: int| 0 <= a < b < r->Ok_0.len() ==> r->Ok_0.deep_view()[a] != r->Ok_0.deep_view()[b],
    {
        Ok(self.vfs.get_directories())
    }

    /// Registers the embedded prompts at the built-in tier.
    pub fn load_builtin_prompts(&mut self) -> (r: Result<(), ResolveError>)
        requires
            old(self).wf(),
        ensures
            r is Ok,
            final(self).wf(),
            final(self).vfs.resources() == merge_all(old(self).vfs.resources(), builtin_prompt_entries()),
            final(self).vfs.dirs() == old(self).vfs.dirs(),
            final(self).prompt_sources == old(self).prompt_sources,
    {
        let b = builtin_prompts();
        self.vfs.load_all(&b);
        Ok(())
    }

    /// Rebuilds the merged set from nothing: the built-in prompts, then the
    /// resources scanned from the user and local directories (in that order).
    /// The tiers recorded are exactly those of the merged prompts, and every
    /// merged prompt is added to `library`, replacing one of the same name.
    pub fn load_all_prompts(&mut self, library: &mut PromptLibrary, scanned: &Vec<FileEntry>) -> (r: Result<(), ResolveError>)
        requires
            old(self).wf(),
        ensures
            r is Ok,
            final(self).wf(),
            final(self).vfs.dirs() == old(self).vfs.dirs(),
            final(self).vfs.resources() == merge_all(
                Map::empty(),
                builtin_prompt_entries() + eviews(scanned@),
            ),
            forall|n: Seq<char>|
                #[trigger] final(self).prompt_sources.view().contains_key(n) <==> final(self).vfs.resources().contains_key(n),
            forall|n: Seq<char>|
                #[trigger] final(library).view().contains_key(n) <==> old(library).view().contains_key(n)
                    || final(self).vfs.resources().contains_key(n),
            forall|n: Seq<char>|
                #[trigger] final(self).vfs.resources().contains_key(n) ==> final(self).prompt_sources.view()[n]
                    == final(self).vfs.resources()[n].source && final(library).view()[n]
                    == final(self).vfs.resources()[n].content,
            forall|n: Seq<char>|
                !final(self).vfs.resources().contains_key(n) && old(library).view().contains_key(n)
                    ==> #[trigger] final(library).view()[n] == old(library).view()[n],
    {
        self.vfs.clear();
        self.prompt_sources = SourceMap::new();
        let ghost start = self.vfs.resources();
        let _ = self.load_builtin_prompts();
        self.vfs.load_all(scanned);
        proof {
            crate::vfs::lemma_merge_all_concat(start, builtin_prompt_entries(), eviews(scanned@));
        }
        let files = self.vfs.list();
        let ghost fv = eviews(files@);
        assert(self.prompt_sources.view() =~= Map::<Seq<char>, FileSource>::empty());
        record_sources(&mut self.prompt_sources, &files);
        let ghost lib0 = library.view();
        let loader = PromptLoader::new();
        let mut i: usize = 0;
        while i < files.len()
            invariant
                fv == eviews(files@),
                unique_names(fv),
                i <= files.len(),
                lib0 == old(library).view(),
                self.wf(),
                self.vfs.dirs() == old(self).vfs.dirs(),
                as_map(fv) == self.vfs.resources(),
                self.vfs.resources() == merge_all(Map::empty(), builtin_prompt_entries() + eviews(scanned@)),
                forall|n: Seq<char>| #[trigger] self.prompt_sources.view().contains_key(n) <==> as_map(fv).contains_key(n),
                forall|n: Seq<char>| #[trigger] as_map(fv).contains_key(n) ==> self.prompt_sources.view()[n] == as_map(fv)[n].source,
                forall|n: Seq<char>| #[trigger] library.view().contains_key(n) <==> lib0.contains_key(n) || named_before(fv, i as int, n),
                forall|n: Seq<char>| !named_before(fv, i as int, n) && lib0.contains_key(n) ==> #[trigger] library.view()[n] == lib0[n],
                forall|j: int| 0 <= j < i ==> library.view().contains_key(#[trigger] fv[j].name) && library.view()[fv[j].name] == fv[j].content,
            decreases files.len() - i,
        {
            assert(fv[i as int] == files[i as int]@);
            let ghost lb = library.view();
            let p = loader.load_from_string(files[i].name.as_str(), files[i].content.as_str());
            if let Ok(p) = p {
                let _ = library.add(p);
            }
            assert(library.view() == lb.insert(fv[i as int].name, fv[i as int].content));
            assert forall|n: Seq<char>| #[trigger] library.view().contains_key(n) <==> lib0.contains_key(n) || named_before(fv, i + 1, n) by {
                assert(lb.contains_key(n) <==> lib0.contains_key(n) || named_before(fv, i as int, n));
                if named_before(fv, i + 1, n) && !named_before(fv, i as int, n) {
                    let j = choose|j: int| 0 <= j < i + 1 && #[trigger] fv[j].name == n;
                    assert(j == i);
                }
                if named_before(fv, i as int, n) {
                    let j = choose|j: int| 0 <= j < i && #[trigger] fv[j].name == n;
                    assert(fv[j].name == n);
                }
            }
            assert forall|n: Seq<char>| !named_before(fv, i + 1, n) && lib0.contains_key(n) implies #[trigger] library.view()[n] == lib0[n] by {
                assert(!named_before(fv, i as int, n) ==> lb[n] == lib0[n]);
                if named_before(fv, i as int, n) {
                    let j = choose|j: int| 0 <= j < i && #[trigger] fv[j].name == n;
                    assert(named_before(fv, i + 1, n));
                }
                assert(fv[i as int].name != n);
            }
            i = i + 1;
        }
        proof {
            assert forall|n: Seq<char>| #[trigger] as_map(fv).contains_key(n) implies library.view().contains_key(n)
                && library.view()[n] == as_map(fv)[n].content by {
                lemma_as_map_keys(fv, n);
                let j = choose|j: int| 0 <= j < fv.len() && #[trigger] fv[j].name == n;
                lemma_as_map_index(fv, j);
            }
            assert forall|n: Seq<char>| #[trigger] library.view().contains_key(n) <==> lib0.contains_key(n) || as_map(fv).contains_key(n) by {
                lemma_named_all(fv, n);
            }
            assert forall|n: Seq<char>| !as_map(fv).contains_key(n) && lib0.contains_key(n) implies #[trigger] library.view()[n] == lib0[n] by {
                lemma_named_all(fv, n);
            }
        }
        Ok(())
    }
}

/// Whether `text` is a workflow document that parses.
pub open spec fn parses(text: Seq<char>) -> bool {
    &&& header_ok(text)
    &&& doc_name(text) is Some
    &&& body_ok(text)
    &&& forall|id: Seq<char>| !#[trigger] ambiguous(body_statements(text), id)
}

/// A parsed workflow under the name of the resource it came from.
#[derive(Debug)]
pub struct StoredWorkflow {
    pub key: String,
    pub definition: WorkflowDefinition,
}

pub open spec fn workflow_map(v: Seq<StoredWorkflow>) -> Map<Seq<char>, WorkflowDefinition>
    decreases v.len(),
{
    if v.len() == 0 {
        Map::empty()
    } else {
        workflow_map(v.drop_last()).insert(v.last().key@, v.last().definition)
    }
}

/// Parsed workflows by resource name; storing under a name replaces what was
/// stored under it.
pub struct MemoryWorkflowStorage {
    pub stored: Vec<StoredWorkflow>,
}

proof fn lemma_workflow_map_last(v: Seq<StoredWorkflow>, i: int, n: Seq<char>)
    requires
        0 <= i < v.len(),
        v[i].key@ == n,
        forall|k: int| i < k < v.len() ==> v[k].key@ != n,
    ensures
        workflow_map(v).contains_key(n),
        workflow_map(v)[n] == v[i].definition,
    decreases v.len(),
{
    if i < v.len() - 1 {
        lemma_workflow_map_last(v.drop_last(), i, n);
    }
}

proof fn lemma_workflow_map_absent(v: Seq<StoredWorkflow>, n: Seq<char>)
    requires
        forall|k: int| 0 <= k < v.len() ==> v[k].key@ != n,
    ensures
        !workflow_map(v).contains_key(n),
    decreases v.len(),
{
    if v.len() > 0 {
        lemma_workflow_map_absent(v.drop_last(), n);
    }
}

impl MemoryWorkflowStorage {
    pub open spec fn view(&self) -> Map<Seq<char>, WorkflowDefinition> {
        workflow_map(self.stored@)
    }

    pub fn new() -> (s: MemoryWorkflowStorage)
        ensures
            s.view() == Map::<Seq<char>, WorkflowDefinition>::empty(),
    {
        MemoryWorkflowStorage { stored: Vec::new() }
    }

    pub fn store(&mut self, key: String, definition: WorkflowDefinition)
        ensures
            final(self).view() == old(self).view().insert(key@, definition),
    {
        let ghost before = self.stored@;
        self.stored.push(StoredWorkflow { key, definition });
        assert(self.stored@.drop_last() =~= before);
    }

    /// The workflow stored under `name`.
    pub fn get(&self, name: &str) -> (r: Option<&WorkflowDefinition>)
        ensures
            match r {
                Some(d) => self.view().contains_key(name@) && self.view()[name@] == *d,
                None => !self.view().contains_key(name@),
            },
    {
        let key = String::from_str(name);
        let mut i: usize = self.stored.len();
        while i > 0
            invariant
                i <= self.stored.len(),
                key@ == name@,
                forall|k: int| i <= k < self.stored.len() ==> self.stored[k].key@ != name@,
            decreases i,
        {
            i = i - 1;
            if self.stored[i].key == key {
                proof {
                    lemma_workflow_map_last(self.stored@, i as int, name@);
                }
                return Some(&self.stored[i].definition);
            }
        }
        proof {
            lemma_workflow_map_absent(self.stored@, name@);
        }
        None
    }
}

/// The workflows embedded in the binary.
pub open spec fn builtin_workflow_entries() -> Seq<EntryView> {
    seq![
        EntryView {
            name: "hello-world"@,
            content: "---\nname: hello-world\ndescription: Greets and finishes\n---\n\nstateDiagram-v2\n    [*] --> Greet\n    Greet : log Hello\n    Greet --> [*]\n"@,
            source: FileSource::Builtin,
        },
    ]
}

pub fn builtin_workflows() -> (r: Vec<FileEntry>)
    ensures
        eviews(r@) == builtin_workflow_entries(),
{
    let mut v: Vec<FileEntry> = Vec::new();
    v.push(FileEntry::new(
        String::from_str("hello-world"),
        String::from_str("---\nname: hello-world\ndescription: Greets and finishes\n---\n\nstateDiagram-v2\n    [*] --> Greet\n    Greet : log Hello\n    Greet --> [*]\n"),
        FileSource::Builtin,
    ));
    assert(eviews(v@) =~= builtin_workflow_entries());
    v
}

impl Default for PromptResolver {
    fn default() -> (r: PromptResolver)
        ensures
            r.wf(),
            r.vfs.resources() == Map::<Seq<char>, EntryView>::empty(),
    {
        PromptResolver::new()
    }
}

/// Loads workflows from the tiers with the precedence built in < user < local.
pub struct WorkflowResolver {
    /// The tier that supplied each loaded workflow.
    pub workflow_sources: SourceMap,
    pub vfs: VirtualFileSystem,
}

impl WorkflowResolver {
    pub open spec fn wf(&self) -> bool {
        self.vfs.wf()
    }

    pub fn new() -> (r: WorkflowResolver)
        ensures
            r.wf(),
            r.vfs.resources() == Map::<Seq<char>, EntryView>::empty(),
            r.vfs.dirs() == Seq::<Seq<char>>::empty(),
            r.workflow_sources.view() == Map::<Seq<char>, FileSource>::empty(),
    {
        WorkflowResolver { workflow_sources: SourceMap::new(), vfs: VirtualFileSystem::new("workflows") }
    }

    /// The directories that workflows are loaded from, in order of precedence.
    pub fn get_workflow_directories(&self) -> (r: Vec<String>)
        requires
            self.wf(),
        ensures
            r.deep_view() == self.vfs.dirs(),
            forall|a: int, b: int| 0 <= a < b < r.len() ==> r.deep_view()[a] != r.deep_view()[b],
    {
        self.vfs.get_directories()
    }

    /// Rebuilds the merged set from nothing: the built-in workflows, then the
    /// scanned user and local ones, and parses every merged resource. One
    /// that does not parse aborts the whole load, leaves `storage` as it was
    /// and records no tiers; otherwise every workflow is stored under its
    /// resource name, and the tiers recorded are exactly theirs.
    pub fn load_all_workflows(&mut self, storage: &mut MemoryWorkflowStorage, scanned: &Vec<FileEntry>) -> (r: Result<(), ResolveError>)
        requires
            old(self).wf(),
        ensures
            final(self).wf(),
            final(self).vfs.dirs() == old(self).vfs.dirs(),
            final(self).vfs.resources() == merge_all(
                Map::empty(),
                builtin_workflow_entries() + eviews(scanned@),
            ),
            r is Ok <==> forall|n: Seq<char>|
                #[trigger] final(self).vfs.resources().contains_key(n) ==> parses(final(self).vfs.resources()[n].content),
            r is Ok ==> forall|n: Seq<char>|
                #[trigger] final(self).vfs.resources().contains_key(n) ==> final(storage).view().contains_key(n)
                    && parsed_from(final(storage).view()[n], final(self).vfs.resources()[n].content)
                    && final(self).workflow_sources.view()[n] == final(self).vfs.resources()[n].source,
            r is Ok ==> forall|n: Seq<char>|
                #[trigger] final(self).workflow_sources.view().contains_key(n) <==> final(self).vfs.resources().contains_key(n),
            r is Ok ==> forall|n: Seq<char>|
                #[trigger] final(storage).view().contains_key(n) <==> old(storage).view().contains_key(n)
                    || final(self).vfs.resources().contains_key(n),
            r is Ok ==> forall|n: Seq<char>|
                !final(self).vfs.resources().contains_key(n) && old(storage).view().contains_key(n)
                    ==> #[trigger] final(storage).view()[n] == old(storage).view()[n],
            match r {
                Err(ResolveError::Parse { name, source, error }) => final(self).vfs.resources().contains_key(name@)
                    && final(self).vfs.resources()[name@].source == source
                    && !parses(final(self).vfs.resources()[name@].content)
                    && fails_with(final(self).vfs.resources()[name@].content, error)
                    && final(storage).view() == old(storage).view()
                    && final(self).workflow_sources.view() == Map::<Seq<char>, FileSource>::empty(),
                Ok(_) => true,
            },
    {
        self.vfs.clear();
        self.workflow_sources = SourceMap::new();
        let ghost start = self.vfs.resources();
        let b = builtin_workflows();
        self.vfs.load_all(&b);
        self.vfs.load_all(scanned);
        proof {
            crate::vfs::lemma_merge_all_concat(start, builtin_workflow_entries(), eviews(scanned@));
        }
        let files = self.vfs.list();
        let ghost fv = eviews(files@);
        let ghost res = self.vfs.resources();
        let mut parsed: Vec<WorkflowDefinition> = Vec::new();
        let mut i: usize = 0;
        while i < files.len()
            invariant
                fv == eviews(files@),
                unique_names(fv),
                as_map(fv) == res,
                self.wf(),
                self.vfs.dirs() == old(self).vfs.dirs(),
                self.vfs.resources() == res,
                res == merge_all(Map::empty(), builtin_workflow_entries() + eviews(scanned@)),
                self.workflow_sources.view() == Map::<Seq<char>, FileSource>::empty(),
                *storage == *old(storage),
                i <= files.len(),
                parsed.len() == i,
                forall|j: int| 0 <= j < i ==> parses(#[trigger] fv[j].content) && parsed_from(parsed[j], fv[j].content),
            decreases files.len() - i,
        {
            assert(fv[i as int] == files[i as int]@);
            match parse_workflow(files[i].content.as_str()) {
                Ok(d) => {
                    parsed.push(d);
                },
                Err(e) => {
                    proof {
                        lemma_as_map_index(fv, i as int);
                        let t = fv[i as int].content;
                        match &e {
                            ParseError::AmbiguousTransition { state, .. } => {
                                assert(ambiguous(body_statements(t), state@));
                            },
                            _ => {},
                        }
                        assert(!parses(t));
                    }
                    return Err(ResolveError::Parse {
                        name: clone_string(&files[i].name),
                        source: files[i].source,
                        error: e,
                    });
                },
            }
            i = i + 1;
        }
        assert(self.workflow_sources.view() =~= Map::<Seq<char>, FileSource>::empty());
        record_sources(&mut self.workflow_sources, &files);
        let ghost st0 = storage.view();
        let mut i: usize = 0;
        let mut rest = parsed;
        let ghost all = rest@;
        let n = files.len();
        while i < n
            invariant
                fv == eviews(files@),
                unique_names(fv),
                as_map(fv) == res,
                self.wf(),
                self.vfs.dirs() == old(self).vfs.dirs(),
                self.vfs.resources() == res,
                res == merge_all(Map::empty(), builtin_workflow_entries() + eviews(scanned@)),
                forall|x: Seq<char>| #[trigger] self.workflow_sources.view().contains_key(x) <==> as_map(fv).contains_key(x),
                forall|x: Seq<char>|
                    #[trigger] as_map(fv).contains_key(x) ==> self.workflow_sources.view()[x] == as_map(fv)[x].source,
                st0 == old(storage).view(),
                n == files.len(),
                i <= n,
                rest.len() + i == n,
                forall|j: int| 0 <= j < rest.len() ==> rest[j] == all[j + i],
                forall|j: int| 0 <= j < n ==> parses(#[trigger] fv[j].content) && parsed_from(all[j], fv[j].content),
                forall|j: int| 0 <= j < i ==> storage.view().contains_key(#[trigger] fv[j].name) && storage.view()[fv[j].name] == all[j],
                forall|x: Seq<char>| #[trigger] storage.view().contains_key(x) <==> st0.contains_key(x) || named_before(fv, i as int, x),
                forall|x: Seq<char>| !named_before(fv, i as int, x) && st0.contains_key(x) ==> #[trigger] storage.view()[x] == st0[x],
            decreases n - i,
        {
            let d = rest.remove(0);
            assert(fv[i as int] == files[i as int]@);
            let ghost sb = storage.view();
            storage.store(clone_string(&files[i].name), d);
            assert forall|x: Seq<char>| #[trigger] storage.view().contains_key(x) <==> st0.contains_key(x) || named_before(fv, i + 1, x) by {
                assert(sb.contains_key(x) <==> st0.contains_key(x) || named_before(fv, i as int, x));
                if named_before(fv, i + 1, x) && !named_before(fv, i as int, x) {
                    let j = choose|j: int| 0 <= j < i + 1 && #[trigger] fv[j].name == x;
                    assert(j == i);
                }
                if named_before(fv, i as int, x) {
                    let j = choose|j: int| 0 <= j < i && #[trigger] fv[j].name == x;
                    assert(fv[j].name == x);
                }
            }
            assert forall|x: Seq<char>| !named_before(fv, i + 1, x) && st0.contains_key(x) implies #[trigger] storage.view()[x] == st0[x] by {
                assert(!named_before(fv, i as int, x) ==> sb[x] == st0[x]);
                if named_before(fv, i as int, x) {
                    let j = choose|j: int| 0 <= j < i && #[trigger] fv[j].name == x;
                    assert(named_before(fv, i + 1, x));
                }
                assert(fv[i as int].name != x);
            }
            i = i + 1;
        }
        proof {
            assert forall|x: Seq<char>| #[trigger] res.contains_key(x) implies storage.view().contains_key(x)
                && parsed_from(storage.view()[x], res[x].content) && parses(res[x].content) by {
                lemma_as_map_keys(fv, x);
                let j = choose|j: int| 0 <= j < fv.len() && #[trigger] fv[j].name == x;
                lemma_as_map_index(fv, j);
            }
            assert forall|x: Seq<char>| #[trigger] storage.view().contains_key(x) <==> st0.contains_key(x) || res.contains_key(x) by {
                lemma_named_all(fv, x);
            }
            assert forall|x: Seq<char>| !res.contains_key(x) && st0.contains_key(x) implies #[trigger] storage.view()[x] == st0[x] by {
                lemma_named_all(fv, x);
            }
        }
        Ok(())
    }
}

/// The outcome of checking one workflow resource.
#[derive(Debug)]
pub struct WorkflowReport {
    pub name: String,
    pub source: FileSource,
    /// The definition, or why the text does not parse.
    pub parsed: Result<WorkflowDefinition, ParseError>,
    /// The validator's findings on the definition; none if it did not parse.
    pub findings: Vec<Finding>,
}

impl WorkflowReport {
    /// What checking the resource `e` reports.
    pub open spec fn reports_on(&self, e: EntryView) -> bool {
        &&& self.name@ == e.name
        &&& self.source == e.source
        &&& match self.parsed {
            Ok(d) => parses(e.content) && parsed_from(d, e.content) && fviews(self.findings@)
                == findings_of(d),
            Err(err) => !parses(e.content) && fails_with(e.content, err) && self.findings.len() == 0,
        }
    }
}

/// Parses and validates one resource.
pub fn check_resource(e: &FileEntry) -> (r: WorkflowReport)
    ensures
        r.reports_on(e@),
{
    match parse_workflow(e.content.as_str()) {
        Ok(d) => {
            let v = validate(&d);
            WorkflowReport {
                name: clone_string(&e.name),
                source: e.source,
                parsed: Ok(d),
                findings: v.findings,
            }
        },
        Err(err) => {
            proof {
                match &err {
                    ParseError::AmbiguousTransition { state, .. } => {
                        assert(ambiguous(body_statements(e.content@), state@));
                    },
                    _ => {},
                }
            }
            WorkflowReport {
                name: clone_string(&e.name),
                source: e.source,
                parsed: Err(err),
                findings: Vec::new(),
            }
        },
    }
}

impl WorkflowResolver {
    /// Rebuilds the merged set like `load_all_workflows`, but reports on
    /// every merged resource instead of stopping at the first that does not
    /// parse.
    pub fn validate_all(&mut self, scanned: &Vec<FileEntry>) -> (r: Vec<WorkflowReport>)
        requires
            old(self).wf(),
        ensures
            final(self).wf(),
            final(self).vfs.dirs() == old(self).vfs.dirs(),
            final(self).vfs.resources() == merge_all(
                Map::empty(),
                builtin_workflow_entries() + eviews(scanned@),
            ),
            forall|i: int| 0 <= i < r.len() ==> final(self).vfs.resources().contains_key(#[trigger] r[i].name@)
                && r[i].reports_on(final(self).vfs.resources()[r[i].name@]),
            forall|n: Seq<char>| #[trigger] final(self).vfs.resources().contains_key(n) ==> exists|i: int|
                0 <= i < r.len() && #[trigger] r[i].name@ == n,
    {
        self.vfs.clear();
        let ghost start = self.vfs.resources();
        let b = builtin_workflows();
        self.vfs.load_all(&b);
        self.vfs.load_all(scanned);
        proof {
            crate::vfs::lemma_merge_all_concat(start, builtin_workflow_entries(), eviews(scanned@));
        }
        let files = self.vfs.list();
        let ghost fv = eviews(files@);
        let ghost res = self.vfs.resources();
        let mut out: Vec<WorkflowReport> = Vec::new();
        let mut i: usize = 0;
        while i < files.len()
            invariant
                fv == eviews(files@),
                unique_names(fv),
                as_map(fv) == res,
                i <= files.len(),
                out.len() == i,
                forall|j: int| 0 <= j < i ==> (#[trigger] out[j]).reports_on(fv[j]),
            decreases files.len() - i,
        {
            assert(fv[i as int] == files[i as int]@);
            out.push(check_resource(&files[i]));
            i = i + 1;
        }
        proof {
            assert forall|j: int| 0 <= j < out.len() implies res.contains_key(#[trigger] out[j].name@)
                && out[j].reports_on(res[out[j].name@]) by {
                lemma_as_map_index(fv, j);
            }
            assert forall|n: Seq<char>| #[trigger] res.contains_key(n) implies exists|i: int|
                0 <= i < out.len() && #[trigger] out[i].name@ == n by {
                lemma_as_map_keys(fv, n);
                let j = choose|j: int| 0 <= j < fv.len() && #[trigger] fv[j].name == n;
                assert(out[j].name@ == n);
            }
        }
        out
    }
}

} // verus!
