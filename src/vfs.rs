//! A virtual file system that merges named resources from several tiers.

use crate::definition::opt_view;
use crate::parser::clone_string;
use vstd::prelude::*;

verus! {

/// The tier a resource came from, lowest precedence first.
#[derive(Debug, Clone, Copy, PartialEq, Eq, Structural)]
pub enum FileSource {
    /// Embedded in the binary.
    Builtin,
    /// The per-user directory.
    User,
    /// A project-local directory.
    Local,
}

pub open spec fn rank(s: FileSource) -> int {
    match s {
        FileSource::Builtin => 0,
        FileSource::User => 1,
        FileSource::Local => 2,
    }
}

/// One resource: its hierarchical name, its text and its tier.
#[derive(Debug)]
pub struct FileEntry {
    pub name: String,
    pub content: String,
    pub source: FileSource,
}

pub ghost struct EntryView {
    pub name: Seq<char>,
    pub content: Seq<char>,
    pub source: FileSource,
}

impl View for FileEntry {
    type V = EntryView;

    open spec fn view(&self) -> EntryView {
        EntryView { name: self.name@, content: self.content@, source: self.source }
    }
}

impl FileEntry {
    pub fn new(name: String, content: String, source: FileSource) -> (e: FileEntry)
        ensures
            e@ == (EntryView { name: name@, content: content@, source }),
    {
        FileEntry { name, content, source }
    }

    pub fn duplicate(&self) -> (e: FileEntry)
        ensures
            e@ == self@,
    {
        FileEntry {
            name: clone_string(&self.name),
            content: clone_string(&self.content),
            source: self.source,
        }
    }
}

/// Merges one entry: it replaces an entry of the same name unless that one
/// comes from a higher tier.
pub open spec fn merge_one(m: Map<Seq<char>, EntryView>, e: EntryView) -> Map<Seq<char>, EntryView> {
    if m.contains_key(e.name) && rank(m[e.name].source) > rank(e.source) {
        m
    } else {
        m.insert(e.name, e)
    }
}

/// Merges entries in order.
pub open spec fn merge_all(m: Map<Seq<char>, EntryView>, es: Seq<EntryView>) -> Map<Seq<char>, EntryView>
    decreases es.len(),
{
    if es.len() == 0 {
        m
    } else {
        merge_one(merge_all(m, es.drop_last()), es.last())
    }
}

/// The map that a sequence of entries with distinct names stands for.
pub open spec fn as_map(v: Seq<EntryView>) -> Map<Seq<char>, EntryView>
    decreases v.len(),
{
    if v.len() == 0 {
        Map::empty()
    } else {
        as_map(v.drop_last()).insert(v.last().name, v.last())
    }
}

pub open spec fn eviews(v: Seq<FileEntry>) -> Seq<EntryView> {
    v.map_values(|e: FileEntry| e@)
}

pub open spec fn unique_names(v: Seq<EntryView>) -> bool {
    forall|a: int, b: int| 0 <= a < b < v.len() ==> v[a].name != v[b].name
}

pub proof fn lemma_as_map_index(v: Seq<EntryView>, i: int)
    requires
        unique_names(v),
        0 <= i < v.len(),
    ensures
        as_map(v).contains_key(v[i].name),
        as_map(v)[v[i].name] == v[i],
    decreases v.len(),
{
    if i < v.len() - 1 {
        lemma_as_map_index(v.drop_last(), i);
    }
}

pub proof fn lemma_as_map_keys(v: Seq<EntryView>, n: Seq<char>)
    ensures
        as_map(v).contains_key(n) <==> exists|i: int| 0 <= i < v.len() && #[trigger] v[i].name == n,
    decreases v.len(),
{
    if v.len() > 0 {
        lemma_as_map_keys(v.drop_last(), n);
        if exists|i: int| 0 <= i < v.len() - 1 && #[trigger] v.drop_last()[i].name == n {
            let i = choose|i: int| 0 <= i < v.len() - 1 && #[trigger] v.drop_last()[i].name == n;
            assert(v[i].name == n);
        }
        if exists|i: int| 0 <= i < v.len() && #[trigger] v[i].name == n {
            let i = choose|i: int| 0 <= i < v.len() && #[trigger] v[i].name == n;
            if i < v.len() - 1 {
                assert(v.drop_last()[i].name == n);
            }
        }
    }
}

proof fn lemma_as_map_update(v: Seq<EntryView>, i: int, e: EntryView)
    requires
        unique_names(v),
        0 <= i < v.len(),
        e.name == v[i].name,
    ensures
        as_map(v.update(i, e)) == as_map(v).insert(e.name, e),
        unique_names(v.update(i, e)),
    decreases v.len(),
{
    let w = v.update(i, e);
    if i == v.len() - 1 {
        assert(w.drop_last() =~= v.drop_last());
        lemma_as_map_keys(v.drop_last(), e.name);
        assert(as_map(w) =~= as_map(v).insert(e.name, e));
    } else {
        assert(w.drop_last() =~= v.drop_last().update(i, e));
        lemma_as_map_update(v.drop_last(), i, e);
        assert(as_map(w) =~= as_map(v).insert(e.name, e));
    }
}

/// The resource name of a file, given its path relative to its root with
/// `/` between components: the path without its `.md` extension; other
/// files are not resources.
pub open spec fn resource_name_of(rel: Seq<char>) -> Option<Seq<char>> {
    if rel.len() > 3 && rel.subrange(rel.len() - 3, rel.len() as int) == ".md"@ {
        Some(rel.subrange(0, rel.len() - 3))
    } else {
        None
    }
}

pub fn resource_name(rel: &str) -> (r: Option<String>)
    ensures
        opt_view(r) == resource_name_of(rel@),
{
    let n = rel.unicode_len();
    if n > 3 && String::from_str(rel.substring_char(n - 3, n)) == String::from_str(".md") {
        Some(String::from_str(rel.substring_char(0, n - 3)))
    } else {
        None
    }
}

/// Resources merged from the tiers, plus the directories they were read from.
pub struct VirtualFileSystem {
    /// What the resources are: "prompts" or "workflows".
    pub kind: String,
    pub files: Vec<FileEntry>,
    pub directories: Vec<String>,
}

impl VirtualFileSystem {
    pub open spec fn entries(&self) -> Seq<EntryView> {
        eviews(self.files@)
    }

    /// The merged resources, by name.
    pub open spec fn resources(&self) -> Map<Seq<char>, EntryView> {
        as_map(self.entries())
    }

    pub open spec fn dirs(&self) -> Seq<Seq<char>> {
        self.directories.deep_view()
    }

    pub open spec fn wf(&self) -> bool {
        &&& unique_names(self.entries())
        &&& forall|a: int, b: int| 0 <= a < b < self.dirs().len() ==> self.dirs()[a] != self.dirs()[b]
        &&& forall|i: int| 0 <= i < self.entries().len() ==> (#[trigger] self.entries()[i]).name == self.files[i].name@
    }

    pub fn new(kind: &str) -> (v: VirtualFileSystem)
        ensures
            v.wf(),
            v.resources() == Map::<Seq<char>, EntryView>::empty(),
            v.dirs() == Seq::<Seq<char>>::empty(),
            v.kind@ == kind@,
    {
        let v = VirtualFileSystem { kind: String::from_str(kind), files: Vec::new(), directories: Vec::new() };
        assert(v.dirs() =~= Seq::<Seq<char>>::empty());
        v
    }

    fn find(&self, name: &String) -> (r: Option<usize>)
        requires
            self.wf(),
        ensures
            match r {
                Some(i) => i < self.files.len() && self.entries()[i as int].name == name@,
                None => !self.resources().contains_key(name@),
            },
    {
        let mut i: usize = 0;
        while i < self.files.len()
            invariant
                self.wf(),
                i <= self.files.len(),
                forall|k: int| 0 <= k < i ==> self.entries()[k].name != name@,
            decreases self.files.len() - i,
        {
            assert(self.entries()[i as int] == self.files[i as int]@);
            if self.files[i].name == *name {
                return Some(i);
            }
            i = i + 1;
        }
        proof {
            lemma_as_map_keys(self.entries(), name@);
        }
        None
    }

    /// Merges `e`: it replaces an entry of the same name unless that one comes
    /// from a higher tier.
    pub fn merge(&mut self, e: FileEntry)
        requires
            old(self).wf(),
        ensures
            final(self).wf(),
            final(self).resources() == merge_one(old(self).resources(), e@),
            final(self).dirs() == old(self).dirs(),
            final(self).kind == old(self).kind,
    {
        let ghost ev = e@;
        let ghost before = self.entries();
        match self.find(&e.name) {
            Some(i) => {
                proof {
                    lemma_as_map_index(before, i as int);
                }
                assert(self.entries()[i as int] == self.files[i as int]@);
                let replace = match (self.files[i].source, e.source) {
                    (FileSource::Local, FileSource::User) => false,
                    (FileSource::Local, FileSource::Builtin) => false,
                    (FileSource::User, FileSource::Builtin) => false,
                    _ => true,
                };
                if replace {
                    self.files.set(i, e);
                    proof {
                        lemma_as_map_update(before, i as int, ev);
                        assert(self.entries() =~= before.update(i as int, ev));
                    }
                }
            },
            None => {
                self.files.push(e);
                proof {
                    assert(self.entries() =~= before.push(ev));
                    assert(self.entries().drop_last() =~= before);
                    lemma_as_map_keys(before, ev.name);
                }
            },
        }
        assert(self.dirs() == old(self).dirs());
    }

    /// Forgets every resource; the directories stay.
    pub fn clear(&mut self)
        requires
            old(self).wf(),
        ensures
            final(self).wf(),
            final(self).resources() == Map::<Seq<char>, EntryView>::empty(),
            final(self).dirs() == old(self).dirs(),
            final(self).kind == old(self).kind,
    {
        self.files = Vec::new();
        assert(self.entries() =~= Seq::<EntryView>::empty());
        assert(self.dirs() == old(self).dirs());
    }

    /// Registers a resource at the `Builtin` tier.
    pub fn add_builtin(&mut self, name: String, content: String)
        requires
            old(self).wf(),
        ensures
            final(self).wf(),
            final(self).resources() == merge_one(
                old(self).resources(),
                EntryView { name: name@, content: content@, source: FileSource::Builtin },
            ),
            final(self).dirs() == old(self).dirs(),
    {
        self.merge(FileEntry::new(name, content, FileSource::Builtin));
    }

    /// Merges the scanned resources in order.
    pub fn load_all(&mut self, scanned: &Vec<FileEntry>)
        requires
            old(self).wf(),
        ensures
            final(self).wf(),
            final(self).resources() == merge_all(old(self).resources(), eviews(scanned@)),
            final(self).dirs() == old(self).dirs(),
    {
        let ghost sv = eviews(scanned@);
        let ghost start = self.resources();
        let mut i: usize = 0;
        while i < scanned.len()
            invariant
                self.wf(),
                sv == eviews(scanned@),
                i <= scanned.len(),
                self.resources() == merge_all(start, sv.subrange(0, i as int)),
                self.dirs() == old(self).dirs(),
            decreases scanned.len() - i,
        {
            let e = scanned[i].duplicate();
            assert(e@ == sv[i as int]);
            self.merge(e);
            assert(sv.subrange(0, i + 1).drop_last() =~= sv.subrange(0, i as int));
            i = i + 1;
        }
        assert(sv.subrange(0, sv.len() as int) =~= sv);
    }

    /// Registers a directory that was found to exist; repeats are ignored.
    pub fn add_directory(&mut self, path: String)
        requires
            old(self).wf(),
        ensures
            final(self).wf(),
            final(self).dirs() == (if old(self).dirs().contains(path@) {
                old(self).dirs()
            } else {
                old(self).dirs().push(path@)
            }),
            final(self).files == old(self).files,
            final(self).kind == old(self).kind,
    {
        match crate::parser::find_id(&self.directories, &path) {
            Some(j) => {
                assert(self.dirs()[j as int] == path@);
            },
            None => {
                let ghost before = self.dirs();
                let ghost pv = path@;
                self.directories.push(path);
                assert(self.dirs() =~= before.push(pv));
                assert(self.entries() == eviews(self.files@));
            },
        }
    }

    /// The registered directories, in order of registration.
    pub fn get_directories(&self) -> (r: Vec<String>)
        requires
            self.wf(),
        ensures
            r.deep_view() == self.dirs(),
            forall|a: int, b: int| 0 <= a < b < r.len() ==> r.deep_view()[a] != r.deep_view()[b],
    {
        let mut out: Vec<String> = Vec::new();
        let mut i: usize = 0;
        while i < self.directories.len()
            invariant
                i <= self.directories.len(),
                out.len() == i,
                out.deep_view() == self.dirs().subrange(0, i as int),
            decreases self.directories.len() - i,
        {
            let ghost before = out.deep_view();
            let c = clone_string(&self.directories[i]);
            out.push(c);
            assert(out.deep_view() =~= before.push(c@));
            assert(self.dirs()[i as int] == self.directories[i as int]@);
            i = i + 1;
        }
        assert(self.dirs().subrange(0, self.dirs().len() as int) =~= self.dirs());
        out
    }

    /// Every merged resource, each name once.
    pub fn list(&self) -> (r: Vec<FileEntry>)
        requires
            self.wf(),
        ensures
            unique_names(eviews(r@)),
            as_map(eviews(r@)) == self.resources(),
    {
        let mut out: Vec<FileEntry> = Vec::new();
        let mut i: usize = 0;
        while i < self.files.len()
            invariant
                i <= self.files.len(),
                out.len() == i,
                eviews(out@) == self.entries().subrange(0, i as int),
            decreases self.files.len() - i,
        {
            let ghost before = eviews(out@);
            let e = self.files[i].duplicate();
            let ghost evv = e@;
            out.push(e);
            assert(eviews(out@) =~= before.push(evv));
            i = i + 1;
        }
        assert(self.entries().subrange(0, self.entries().len() as int) =~= self.entries());
        out
    }
}

/// The index of the entry that wins for `n`: the last one of the highest tier
/// among the entries named `n`; -1 if there is none.
pub open spec fn winner(es: Seq<EntryView>, n: Seq<char>) -> int
    decreases es.len(),
{
    if es.len() == 0 {
        -1
    } else {
        let w = winner(es.drop_last(), n);
        let e = es.last();
        if e.name == n && (w < 0 || rank(es[w].source) <= rank(e.source)) {
            es.len() - 1
        } else {
            w
        }
    }
}

/// The index of the last entry named `n` from tier `src`; -1 if none.
pub open spec fn last_with(es: Seq<EntryView>, n: Seq<char>, src: FileSource) -> int
    decreases es.len(),
{
    if es.len() == 0 {
        -1
    } else if es.last().name == n && es.last().source == src {
        es.len() - 1
    } else {
        last_with(es.drop_last(), n, src)
    }
}

proof fn lemma_winner(es: Seq<EntryView>, n: Seq<char>)
    ensures
        -1 <= winner(es, n) < es.len(),
        winner(es, n) >= 0 ==> es[winner(es, n)].name == n,
        winner(es, n) < 0 <==> forall|i: int| 0 <= i < es.len() ==> #[trigger] es[i].name != n,
        forall|i: int|
            0 <= i < es.len() && #[trigger] es[i].name == n ==> rank(es[i].source) <= rank(
                es[winner(es, n)].source,
            ),
        forall|i: int|
            winner(es, n) < i < es.len() && #[trigger] es[i].name == n ==> rank(es[i].source)
                < rank(es[winner(es, n)].source),
        merge_all(Map::empty(), es).contains_key(n) <==> winner(es, n) >= 0,
        winner(es, n) >= 0 ==> merge_all(Map::empty(), es)[n] == es[winner(es, n)],
    decreases es.len(),
{
    if es.len() > 0 {
        let p = es.drop_last();
        lemma_winner(p, n);
        assert forall|i: int| 0 <= i < p.len() implies p[i] == es[i] by {}
    }
}

/// A resource from the local tier always wins, content together with tier:
/// the merged entry for `n` is the last local entry named `n`.
pub proof fn lemma_local_wins(es: Seq<EntryView>, n: Seq<char>)
    requires
        last_with(es, n, FileSource::Local) >= 0,
    ensures
        merge_all(Map::empty(), es).contains_key(n),
        merge_all(Map::empty(), es)[n] == es[last_with(es, n, FileSource::Local)],
        merge_all(Map::empty(), es)[n].source == FileSource::Local,
{
    lemma_last_with(es, n, FileSource::Local);
    lemma_winner(es, n);
    let w = winner(es, n);
    let l = last_with(es, n, FileSource::Local);
    assert(rank(es[l].source) <= rank(es[w].source));
    if w != l {
        if w < l {
            assert(rank(es[l].source) < rank(es[w].source));
        } else {
            assert(es[w].source == FileSource::Local);
        }
    }
}

proof fn lemma_last_with(es: Seq<EntryView>, n: Seq<char>, src: FileSource)
    ensures
        -1 <= last_with(es, n, src) < es.len(),
        last_with(es, n, src) >= 0 ==> es[last_with(es, n, src)].name == n && es[last_with(
            es,
            n,
            src,
        )].source == src,
        forall|i: int|
            last_with(es, n, src) < i < es.len() && #[trigger] es[i].name == n ==> es[i].source
                != src,
        last_with(es, n, src) < 0 <==> forall|i: int|
            0 <= i < es.len() && #[trigger] es[i].name == n ==> es[i].source != src,
    decreases es.len(),
{
    if es.len() > 0 {
        let p = es.drop_last();
        lemma_last_with(p, n, src);
        assert forall|i: int| 0 <= i < p.len() implies p[i] == es[i] by {}
    }
}

/// With only built-in entries, every merged resource is built in.
pub proof fn lemma_builtin_only(es: Seq<EntryView>)
    requires
        forall|i: int| 0 <= i < es.len() ==> (#[trigger] es[i]).source == FileSource::Builtin,
    ensures
        forall|n: Seq<char>|
            #[trigger] merge_all(Map::empty(), es).contains_key(n) ==> merge_all(Map::empty(), es)[n].source
                == FileSource::Builtin,
{
    assert forall|n: Seq<char>| #[trigger] merge_all(Map::empty(), es).contains_key(n) implies merge_all(
        Map::empty(),
        es,
    )[n].source == FileSource::Builtin by {
        lemma_winner(es, n);
    }
}

/// Once no local entry for `n` is left, the merged entry for `n` falls back
/// to the last user entry, else to the last built-in one, and is absent when
/// no tier has `n`.
pub proof fn lemma_fallback(es: Seq<EntryView>, n: Seq<char>)
    requires
        last_with(es, n, FileSource::Local) < 0,
    ensures
        !merge_all(Map::empty(), es).contains_key(n) <==> forall|i: int|
            0 <= i < es.len() ==> #[trigger] es[i].name != n,
        last_with(es, n, FileSource::User) >= 0 ==> merge_all(Map::empty(), es)[n] == es[last_with(
            es,
            n,
            FileSource::User,
        )],
        last_with(es, n, FileSource::User) < 0 && last_with(es, n, FileSource::Builtin) >= 0
            ==> merge_all(Map::empty(), es)[n] == es[last_with(es, n, FileSource::Builtin)],
        merge_all(Map::empty(), es).contains_key(n) ==> merge_all(Map::empty(), es)[n].source
            != FileSource::Local,
{
    lemma_winner(es, n);
    lemma_last_with(es, n, FileSource::Local);
    lemma_last_with(es, n, FileSource::User);
    lemma_last_with(es, n, FileSource::Builtin);
    let w = winner(es, n);
    if w >= 0 {
        assert(es[w].source != FileSource::Local);
        let u = last_with(es, n, FileSource::User);
        let b = last_with(es, n, FileSource::Builtin);
        if u >= 0 {
            assert(rank(es[u].source) <= rank(es[w].source));
            if w != u {
                if w < u {
                    assert(rank(es[u].source) < rank(es[w].source));
                } else {
                    assert(es[w].source == FileSource::User);
                }
            }
        } else if b >= 0 {
            if w != b {
                if w < b {
                    assert(rank(es[b].source) < rank(es[w].source));
                } else {
                    assert(es[w].source == FileSource::Builtin);
                }
            }
        }
    }
}

/// Merging in two rounds is merging the concatenation.
pub proof fn lemma_merge_all_concat(m: Map<Seq<char>, EntryView>, a: Seq<EntryView>, b: Seq<EntryView>)
    ensures
        merge_all(merge_all(m, a), b) == merge_all(m, a + b),
    decreases b.len(),
{
    if b.len() > 0 {
        lemma_merge_all_concat(m, a, b.drop_last());
        assert((a + b).drop_last() =~= a + b.drop_last());
    } else {
        assert(a + b =~= a);
    }
}

} // verus!
