//! The decisions of directory indexing and of watching: which files to take, when a
//! cached record may stand in for a parse, what to forget, and how edits coalesce.
use vstd::prelude::*;
use vstd::string::*;
use crate::builder::{resolved_edges, GraphBuilder};
use crate::graph::ArborGraph;
use crate::node::CodeNode;
use crate::parser::{is_supported, language_of};
use crate::text::lower_of;

verus! {

/// Some string of `s` reads `p`.
pub open spec fn holds_path(s: Seq<String>, p: Seq<char>) -> bool {
    exists|i: int| 0 <= i < s.len() && s[i]@ == p
}

/// Some entry of `s` is the change `c`.
pub open spec fn holds_change(s: Seq<(FileChange, u64)>, c: FileChange) -> bool {
    exists|i: int| 0 <= i < s.len() && s[i].0 == c
}

/// Options for indexing a directory.
#[derive(Clone, Debug, Default)]
pub struct IndexOptions {
    /// Follow symbolic links while walking.
    pub follow_symlinks: bool,
    /// Where the cache lives; no caching when `None`.
    pub cache_path: Option<String>,
}

/// What indexing produced.
pub struct IndexResult {
    pub graph: ArborGraph,
    /// Files parsed afresh.
    pub files_indexed: usize,
    /// Files taken from the cache.
    pub cache_hits: usize,
    pub nodes_extracted: usize,
    pub duration_ms: u64,
    /// `(path, message)` for each file that failed to parse.
    pub errors: Vec<(String, String)>,
}

/// Whether a file's cached records may be used.
#[derive(Clone, Copy, Debug, PartialEq, Eq, Structural)]
pub enum CacheDecision {
    UseCache,
    Parse,
}

/// The cache stands in for a parse exactly when it holds the file's current mtime.
pub fn cache_decision(cached_mtime: Option<u64>, current_mtime: u64) -> (r: CacheDecision)
    ensures
        (r == CacheDecision::UseCache) == (cached_mtime == Some(current_mtime)),
{
    match cached_mtime {
        Some(t) => {
            if t == current_mtime {
                CacheDecision::UseCache
            } else {
                CacheDecision::Parse
            }
        },
        None => CacheDecision::Parse,
    }
}

pub open spec fn bump(x: usize, by: nat) -> usize {
    if x + by > usize::MAX { usize::MAX } else { (x + by) as usize }
}

/// The state of one indexing pass.
pub struct IndexSession {
    builder: GraphBuilder,
    files_indexed: usize,
    cache_hits: usize,
    nodes_extracted: usize,
    errors: Vec<(String, String)>,
    seen: Vec<String>,
}

impl IndexSession {
    pub closed spec fn wf(&self) -> bool {
        self.builder.wf()
    }

    pub closed spec fn counts(&self) -> (usize, usize, usize) {
        (self.files_indexed, self.cache_hits, self.nodes_extracted)
    }

    pub closed spec fn seen_view(&self) -> Seq<Seq<char>> {
        self.seen@.map_values(|s: String| s@)
    }

    /// The `(path, message)` pairs recorded so far, in order.
    pub closed spec fn errors_view(&self) -> Seq<(Seq<char>, Seq<char>)> {
        self.errors@.map_values(|e: (String, String)| (e.0@, e.1@))
    }

    pub closed spec fn builder_view(&self) -> GraphBuilder {
        self.builder
    }

    pub fn new() -> (r: IndexSession)
        ensures
            r.wf(),
            r.counts() == (0usize, 0usize, 0usize),
            r.seen_view().len() == 0,
            r.errors_view().len() == 0,
    {
        let r = IndexSession {
            builder: GraphBuilder::new(),
            files_indexed: 0,
            cache_hits: 0,
            nodes_extracted: 0,
            errors: Vec::new(),
            seen: Vec::new(),
        };
        assert(r.seen_view() =~= Seq::<Seq<char>>::empty());
        assert(r.errors_view() =~= Seq::<(Seq<char>, Seq<char>)>::empty());
        r
    }

    /// Takes a walked file when its extension is supported, remembering its path.
    pub fn accept_file(&mut self, path: &str, extension: Option<&str>) -> (r: bool)
        requires
            old(self).wf(),
        ensures
            final(self).wf(),
            r == (extension.is_some() && language_of(lower_of(extension.unwrap()@)).is_some()),
            r ==> final(self).seen_view() == old(self).seen_view().push(path@),
            !r ==> final(self).seen_view() == old(self).seen_view(),
            final(self).counts() == old(self).counts(),
            final(self).errors_view() == old(self).errors_view(),
            final(self).builder_view() == old(self).builder_view(),
    {
        let ok = match extension {
            Some(e) => is_supported(e),
            None => false,
        };
        if ok {
            self.seen.push(String::from_str(path));
            assert(self.seen_view() =~= old(self).seen_view().push(path@));
        }
        ok
    }

    /// Adds the records of a file whose cache entry was current.
    pub fn record_cache_hit(&mut self, nodes: Vec<CodeNode>)
        requires
            old(self).wf(),
        ensures
            final(self).wf(),
            final(self).counts() == (old(self).counts().0, bump(old(self).counts().1, 1), bump(old(self).counts().2, nodes@.len())),
            final(self).seen_view() == old(self).seen_view(),
            final(self).errors_view() == old(self).errors_view(),
            GraphBuilder::ingested(old(self).builder_view(), final(self).builder_view(), nodes@),
    {
        self.cache_hits = self.cache_hits.saturating_add(1);
        self.nodes_extracted = self.nodes_extracted.saturating_add(nodes.len());
        self.builder.add_nodes(nodes);
    }

    /// Adds the records of a freshly parsed file.
    pub fn record_parsed(&mut self, nodes: Vec<CodeNode>)
        requires
            old(self).wf(),
        ensures
            final(self).wf(),
            final(self).counts() == (bump(old(self).counts().0, 1), old(self).counts().1, bump(old(self).counts().2, nodes@.len())),
            final(self).seen_view() == old(self).seen_view(),
            final(self).errors_view() == old(self).errors_view(),
            GraphBuilder::ingested(old(self).builder_view(), final(self).builder_view(), nodes@),
    {
        self.files_indexed = self.files_indexed.saturating_add(1);
        self.nodes_extracted = self.nodes_extracted.saturating_add(nodes.len());
        self.builder.add_nodes(nodes);
    }

    /// Records that a file failed to parse; indexing goes on.
    pub fn record_error(&mut self, path: String, message: String)
        requires
            old(self).wf(),
        ensures
            final(self).wf(),
            final(self).counts() == old(self).counts(),
            final(self).seen_view() == old(self).seen_view(),
            final(self).errors_view() == old(self).errors_view().push((path@, message@)),
            final(self).builder_view() == old(self).builder_view(),
    {
        self.errors.push((path, message));
        assert(self.errors_view() =~= old(self).errors_view().push((path@, message@)));
    }

    /// The cached paths that this pass did not see: files deleted since.
    pub fn stale_files(&self, cached: &Vec<String>) -> (r: Vec<String>)
        ensures
            forall|j: int| 0 <= j < r@.len() ==> !self.seen_view().contains(#[trigger] r@[j]@)
                && holds_path(cached@, r@[j]@),
            forall|i: int| 0 <= i < cached@.len() && !self.seen_view().contains(#[trigger] cached@[i]@)
                ==> holds_path(r@, cached@[i]@),
    {
        let mut out: Vec<String> = Vec::new();
        let mut i: usize = 0;
        while i < cached.len()
            invariant
                i <= cached@.len(),
                forall|j: int| 0 <= j < out@.len() ==> !self.seen_view().contains(#[trigger] out@[j]@)
                    && holds_path(cached@, out@[j]@),
                forall|k: int| 0 <= k < i && !self.seen_view().contains(#[trigger] cached@[k]@)
                    ==> holds_path(out@, cached@[k]@),
            decreases cached@.len() - i,
        {
            let ghost before = out@;
            if !self.was_seen(&cached[i]) {
                out.push(cached[i].clone());
                proof {
                    assert(out@[out@.len() - 1]@ == cached@[i as int]@);
                    assert forall|k: int| 0 <= k < i + 1 && !self.seen_view().contains(#[trigger] cached@[k]@)
                        implies holds_path(out@, cached@[k]@) by {
                        if k < i {
                            let w = choose|w: int| 0 <= w < before.len() && before[w]@ == cached@[k]@;
                            assert(out@[w] == before[w]);
                        } else {
                            assert(out@[out@.len() - 1]@ == cached@[k]@);
                        }
                    }
                    assert forall|j: int| 0 <= j < out@.len() implies !self.seen_view().contains(#[trigger] out@[j]@)
                        && holds_path(cached@, out@[j]@) by {
                        if j < before.len() {
                            assert(out@[j] == before[j]);
                        } else {
                            assert(cached@[i as int]@ == out@[j]@);
                        }
                    }
                }
            }
            i = i + 1;
        }
        out
    }

    fn was_seen(&self, path: &String) -> (r: bool)
        ensures
            r == self.seen_view().contains(path@),
    {
        let mut i: usize = 0;
        while i < self.seen.len()
            invariant
                i <= self.seen@.len(),
                forall|j: int| 0 <= j < i ==> (#[trigger] self.seen@[j])@ != path@,
            decreases self.seen@.len() - i,
        {
            if self.seen[i] == *path {
                assert(self.seen_view()[i as int] == path@);
                return true;
            }
            i = i + 1;
        }
        proof {
            if self.seen_view().contains(path@) {
                let j = choose|j: int| 0 <= j < self.seen_view().len() && self.seen_view()[j] == path@;
                assert(self.seen@[j]@ == path@);
            }
        }
        false
    }

    /// Resolves the edges and hands over the result.
    pub fn finish(self, duration_ms: u64) -> (r: IndexResult)
        requires
            self.wf(),
        ensures
            r.graph.wf(),
            r.graph.no_self_edges(),
            r.graph.nodes_view() == self.builder_view().graph_view().nodes_view(),
            (r.files_indexed, r.cache_hits, r.nodes_extracted) == self.counts(),
            r.duration_ms == duration_ms,
            r.graph.edges_view() == resolved_edges(
                self.builder_view().graph_view().nodes_view(),
                self.builder_view().symbols_view(),
                self.builder_view().graph_view().nodes_view().len() as int,
            ),
            r.errors@.map_values(|e: (String, String)| (e.0@, e.1@)) == self.errors_view(),
    {
        let graph = self.builder.build();
        IndexResult {
            graph,
            files_indexed: self.files_indexed,
            cache_hits: self.cache_hits,
            nodes_extracted: self.nodes_extracted,
            duration_ms,
            errors: self.errors,
        }
    }
}

/// A change to a watched file.
#[derive(Clone, Debug, PartialEq, Eq)]
pub enum FileChange {
    Created(String),
    Modified(String),
    Deleted(String),
}

impl FileChange {
    pub open spec fn path_view(&self) -> Seq<char> {
        match self {
            FileChange::Created(p) => p@,
            FileChange::Modified(p) => p@,
            FileChange::Deleted(p) => p@,
        }
    }

    /// A copy of this change.
    pub fn copy(&self) -> (r: FileChange)
        ensures
            r == *self,
    {
        match self {
            FileChange::Created(p) => FileChange::Created(p.clone()),
            FileChange::Modified(p) => FileChange::Modified(p.clone()),
            FileChange::Deleted(p) => FileChange::Deleted(p.clone()),
        }
    }

    pub fn path(&self) -> (r: &String)
        ensures
            r@ == self.path_view(),
    {
        match self {
            FileChange::Created(p) => p,
            FileChange::Modified(p) => p,
            FileChange::Deleted(p) => p,
        }
    }
}

/// Pending changes, at most one per path (the latest), each with the time of its last event.
pub struct Debouncer {
    interval_ms: u64,
    pending: Vec<(FileChange, u64)>,
}

impl Debouncer {
    pub closed spec fn view(&self) -> Seq<(FileChange, u64)> {
        self.pending@
    }

    pub closed spec fn interval(&self) -> u64 {
        self.interval_ms
    }

    pub open spec fn one_per_path(s: Seq<(FileChange, u64)>) -> bool {
        forall|i: int, j: int| 0 <= i < j < s.len() ==> (#[trigger] s[i]).0.path_view() != (#[trigger] s[j]).0.path_view()
    }

    pub fn new(interval_ms: u64) -> (r: Debouncer)
        ensures
            r.view().len() == 0,
            r.interval() == interval_ms,
    {
        Debouncer { interval_ms, pending: Vec::new() }
    }

    /// Records an event at `now_ms`; it replaces any pending change to the same path.
    pub fn record(&mut self, change: FileChange, now_ms: u64)
        requires
            Self::one_per_path(old(self).view()),
        ensures
            Self::one_per_path(final(self).view()),
            final(self).interval() == old(self).interval(),
            final(self).view().contains((change, now_ms)),
            forall|i: int| 0 <= i < final(self).view().len() && (#[trigger] final(self).view()[i]).0.path_view() != change.path_view()
                ==> old(self).view().contains(final(self).view()[i]),
            forall|i: int| 0 <= i < old(self).view().len() && (#[trigger] old(self).view()[i]).0.path_view() != change.path_view()
                ==> final(self).view().contains(old(self).view()[i]),
    {
        let key = change.path().clone();
        let mut kept: Vec<(FileChange, u64)> = Vec::new();
        let ghost old_p = self.pending@;
        let mut i: usize = 0;
        while i < self.pending.len()
            invariant
                self.pending@ == old_p,
                Self::one_per_path(old_p),
                i <= old_p.len(),
                key@ == change.path_view(),
                forall|j: int| 0 <= j < kept@.len() ==> (#[trigger] kept@[j]).0.path_view() != key@
                    && old_p.contains(kept@[j]),
                forall|j: int| 0 <= j < i && (#[trigger] old_p[j]).0.path_view() != key@ ==> kept@.contains(old_p[j]),
                Self::one_per_path(kept@),
                forall|j: int, k: int| 0 <= j < kept@.len() && i <= k < old_p.len() ==> (#[trigger] kept@[j]).0.path_view() != (#[trigger] old_p[k]).0.path_view(),
            decreases old_p.len() - i,
        {
            let entry = &self.pending[i];
            if *entry.0.path() != key {
                let copy = (entry.0.copy(), entry.1);
                let ghost before = kept@;
                kept.push(copy);
                proof {
                    assert forall|j: int| 0 <= j < i + 1 && (#[trigger] old_p[j]).0.path_view() != key@ implies kept@.contains(old_p[j]) by {
                        if j < i {
                            let w = choose|w: int| 0 <= w < before.len() && before[w] == old_p[j];
                            assert(kept@[w] == before[w]);
                        } else {
                            assert(kept@[kept@.len() - 1] == old_p[j]);
                        }
                    }
                }
            }
            i = i + 1;
        }
        let ghost before = kept@;
        kept.push((change, now_ms));
        proof {
            assert(kept@[kept@.len() - 1] == (change, now_ms));
            assert forall|a: int, b: int| 0 <= a < b < kept@.len() implies (#[trigger] kept@[a]).0.path_view() != (#[trigger] kept@[b]).0.path_view() by {
                if b < before.len() {
                    assert(kept@[a] == before[a] && kept@[b] == before[b]);
                } else {
                    assert(kept@[a] == before[a]);
                }
            }
            assert forall|j: int| 0 <= j < kept@.len() && (#[trigger] kept@[j]).0.path_view() != change.path_view()
                implies old_p.contains(kept@[j]) by {
                assert(kept@[j] == before[j]);
            }
            assert forall|j: int| 0 <= j < old_p.len() && (#[trigger] old_p[j]).0.path_view() != change.path_view()
                implies kept@.contains(old_p[j]) by {
                assert(before.contains(old_p[j]));
                let w = choose|w: int| 0 <= w < before.len() && before[w] == old_p[j];
                assert(kept@[w] == before[w]);
            }
        }
        self.pending = kept;
    }

    /// Hands over, in recording order, the changes whose last event is at least the
    /// interval old at `now_ms`, and keeps the rest pending.
    pub fn due(&mut self, now_ms: u64) -> (r: Vec<FileChange>)
        requires
            Self::one_per_path(old(self).view()),
        ensures
            Self::one_per_path(final(self).view()),
            final(self).interval() == old(self).interval(),
            forall|i: int| 0 <= i < final(self).view().len() ==> old(self).view().contains(#[trigger] final(self).view()[i])
                && now_ms < final(self).view()[i].1 + final(self).interval(),
            forall|i: int| 0 <= i < old(self).view().len() && now_ms < (#[trigger] old(self).view()[i]).1 + old(self).interval()
                ==> final(self).view().contains(old(self).view()[i]),
            forall|i: int| 0 <= i < old(self).view().len() && now_ms >= (#[trigger] old(self).view()[i]).1 + old(self).interval()
                ==> r@.contains(old(self).view()[i].0),
            forall|j: int| 0 <= j < r@.len() ==> holds_change(old(self).view(), #[trigger] r@[j]),
    {
        let ghost old_p = self.pending@;
        let interval = self.interval_ms;
        let mut ready: Vec<FileChange> = Vec::new();
        let mut kept: Vec<(FileChange, u64)> = Vec::new();
        let ghost mut idx: Seq<int> = Seq::empty();
        let mut i: usize = 0;
        while i < self.pending.len()
            invariant
                self.pending@ == old_p,
                interval == self.interval_ms,
                Self::one_per_path(old_p),
                i <= old_p.len(),
                idx.len() == kept@.len(),
                forall|j: int| 0 <= j < idx.len() ==> 0 <= #[trigger] idx[j] < i && kept@[j] == old_p[idx[j]],
                forall|a: int, b: int| 0 <= a < b < idx.len() ==> #[trigger] idx[a] < #[trigger] idx[b],
                forall|j: int| 0 <= j < kept@.len() ==> now_ms < (#[trigger] kept@[j]).1 + interval,
                forall|j: int| 0 <= j < i && now_ms < (#[trigger] old_p[j]).1 + interval ==> kept@.contains(old_p[j]),
                forall|j: int| 0 <= j < i && now_ms >= (#[trigger] old_p[j]).1 + interval ==> ready@.contains(old_p[j].0),
                forall|j: int| 0 <= j < ready@.len() ==> holds_change(old_p, #[trigger] ready@[j]),
            decreases old_p.len() - i,
        {
            let entry = &self.pending[i];
            let ghost kb = kept@;
            let ghost rb = ready@;
            if (now_ms as u128) >= (entry.1 as u128) + (interval as u128) {
                ready.push(entry.0.copy());
                proof {
                    assert(ready@[ready@.len() - 1] == old_p[i as int].0);
                    assert forall|j: int| 0 <= j < i + 1 && now_ms >= (#[trigger] old_p[j]).1 + interval implies ready@.contains(old_p[j].0) by {
                        if j < i {
                            let w = choose|w: int| 0 <= w < rb.len() && rb[w] == old_p[j].0;
                            assert(ready@[w] == rb[w]);
                        }
                    }
                    assert forall|j: int| 0 <= j < ready@.len() implies holds_change(old_p, #[trigger] ready@[j]) by {
                        if j < rb.len() {
                            assert(ready@[j] == rb[j]);
                        } else {
                            assert(old_p[i as int].0 == ready@[j]);
                        }
                    }
                }
            } else {
                kept.push((entry.0.copy(), entry.1));
                proof {
                    idx = idx.push(i as int);
                    assert(kept@[kept@.len() - 1] == old_p[i as int]);
                    assert forall|j: int| 0 <= j < i + 1 && now_ms < (#[trigger] old_p[j]).1 + interval implies kept@.contains(old_p[j]) by {
                        if j < i {
                            let w = choose|w: int| 0 <= w < kb.len() && kb[w] == old_p[j];
                            assert(kept@[w] == kb[w]);
                        }
                    }
                    assert forall|j: int| 0 <= j < idx.len() implies 0 <= #[trigger] idx[j] < i + 1 && kept@[j] == old_p[idx[j]] by {
                        if j < kb.len() {
                            assert(kept@[j] == kb[j]);
                        }
                    }
                    assert forall|j: int| 0 <= j < kept@.len() implies now_ms < (#[trigger] kept@[j]).1 + interval by {
                        if j < kb.len() {
                            assert(kept@[j] == kb[j]);
                        }
                    }
                }
            }
            i = i + 1;
        }
        proof {
            assert forall|a: int, b: int| 0 <= a < b < kept@.len() implies (#[trigger] kept@[a]).0.path_view() != (#[trigger] kept@[b]).0.path_view() by {
                assert(idx[a] < idx[b]);
                assert(old_p[idx[a]].0.path_view() != old_p[idx[b]].0.path_view());
            }
            assert forall|j: int| 0 <= j < kept@.len() implies old_p.contains(#[trigger] kept@[j]) by {
                assert(old_p[idx[j]] == kept@[j]);
            }
        }
        self.pending = kept;
        ready
    }
}

} // verus!
