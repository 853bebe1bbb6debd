//! Name resolution: qualified names and short names to vertex positions, with
//! directory locality to break ties.
use vstd::prelude::*;
use vstd::string::*;
use crate::graph::NodeId;
use crate::text::{chars_eq, chars_of, is_qualified_suffix, parent_dir, parent_dir_of, qualified_suffix};

verus! {

/// One registration: a name, the vertex it names, and the file defining it.
struct SymbolEntry {
    fqn: String,
    fqn_chars: Vec<char>,
    id: NodeId,
    file: String,
    dir_chars: Vec<char>,
}

/// The abstract content of a registration.
pub struct Symbol {
    pub fqn: Seq<char>,
    pub id: NodeId,
    pub file: Seq<char>,
}

/// Every registration made since the table was created or cleared, in order.
pub struct SymbolTable {
    entries: Vec<SymbolEntry>,
}

impl SymbolEntry {
    spec fn inv(&self) -> bool {
        self.fqn_chars@ == self.fqn@ && self.dir_chars@ == parent_dir(self.file@)
    }
}

/// The entries that answer `name`: those registered under exactly `name` when
/// there are any, else those whose name ends in `name` after a `.` or `:`.
pub open spec fn has_exact(s: Seq<Symbol>, name: Seq<char>) -> bool {
    exists|i: int| 0 <= i < s.len() && (#[trigger] s[i]).fqn == name
}

pub open spec fn is_candidate(s: Seq<Symbol>, name: Seq<char>, i: int) -> bool {
    if has_exact(s, name) {
        s[i].fqn == name
    } else {
        is_qualified_suffix(s[i].fqn, name)
    }
}

/// Entry `i` is a candidate, and (when `local`) defined in directory `dir`.
pub open spec fn selected(s: Seq<Symbol>, name: Seq<char>, dir: Seq<char>, local: bool, i: int) -> bool {
    0 <= i < s.len() && is_candidate(s, name, i) && (local ==> parent_dir(s[i].file) == dir)
}

/// The selected entries all name the one vertex `id`, and there is at least one.
pub open spec fn unique_choice(s: Seq<Symbol>, name: Seq<char>, dir: Seq<char>, local: bool, id: NodeId) -> bool {
    &&& exists|i: int| #[trigger] selected(s, name, dir, local, i) && s[i].id == id
    &&& forall|i: int| #[trigger] selected(s, name, dir, local, i) ==> s[i].id == id
}

/// Resolution of `name` from a caller in file `ctx`: the single candidate vertex;
/// else the single one among candidates in the caller's directory; else none.
pub open spec fn resolves_to(s: Seq<Symbol>, name: Seq<char>, ctx: Seq<char>, r: Option<NodeId>) -> bool {
    let dir = parent_dir(ctx);
    if exists|id: NodeId| unique_choice(s, name, dir, false, id) {
        r.is_some() && unique_choice(s, name, dir, false, r.unwrap())
    } else if exists|id: NodeId| unique_choice(s, name, dir, true, id) {
        r.is_some() && unique_choice(s, name, dir, true, r.unwrap())
    } else {
        r.is_none()
    }
}

/// The answer `resolve_with_context` gives for `name` from file `ctx`.
pub open spec fn resolution(s: Seq<Symbol>, name: Seq<char>, ctx: Seq<char>) -> Option<NodeId> {
    choose|r: Option<NodeId>| resolves_to(s, name, ctx, r)
}

proof fn lemma_unique_choice_same(s: Seq<Symbol>, name: Seq<char>, dir: Seq<char>, local: bool, a: NodeId, b: NodeId)
    requires
        unique_choice(s, name, dir, local, a),
        unique_choice(s, name, dir, local, b),
    ensures
        a == b,
{
    let i = choose|i: int| #[trigger] selected(s, name, dir, local, i) && s[i].id == a;
    assert(s[i].id == b);
}

/// At most one answer meets `resolves_to`, so it is `resolution`.
pub proof fn lemma_resolution(s: Seq<Symbol>, name: Seq<char>, ctx: Seq<char>, r: Option<NodeId>)
    requires
        resolves_to(s, name, ctx, r),
    ensures
        resolution(s, name, ctx) == r,
{
    let q = resolution(s, name, ctx);
    assert(resolves_to(s, name, ctx, q));
    let dir = parent_dir(ctx);
    if exists|id: NodeId| unique_choice(s, name, dir, false, id) {
        lemma_unique_choice_same(s, name, dir, false, r.unwrap(), q.unwrap());
    } else if exists|id: NodeId| unique_choice(s, name, dir, true, id) {
        lemma_unique_choice_same(s, name, dir, true, r.unwrap(), q.unwrap());
    }
}

/// A resolved name names a vertex of some registration.
pub proof fn lemma_resolution_registered(s: Seq<Symbol>, name: Seq<char>, ctx: Seq<char>, r: Option<NodeId>)
    requires
        resolves_to(s, name, ctx, r),
        r.is_some(),
    ensures
        exists|q: int| 0 <= q < s.len() && (#[trigger] s[q]).id == r.unwrap(),
{
    let dir = parent_dir(ctx);
    let local = !exists|id: NodeId| unique_choice(s, name, dir, false, id);
    assert(unique_choice(s, name, dir, local, r.unwrap()));
    let q = choose|q: int| #[trigger] selected(s, name, dir, local, q) && s[q].id == r.unwrap();
    assert(0 <= q < s.len() && s[q].id == r.unwrap());
}

/// The vertex most recently registered under exactly `fqn`.
pub open spec fn last_exact(s: Seq<Symbol>, fqn: Seq<char>) -> Option<NodeId>
    decreases s.len(),
{
    if s.len() == 0 {
        None
    } else if s.last().fqn == fqn {
        Some(s.last().id)
    } else {
        last_exact(s.drop_last(), fqn)
    }
}

/// The names registered by `file`, in order.
pub open spec fn exports_of(s: Seq<Symbol>, file: Seq<char>) -> Seq<Seq<char>>
    decreases s.len(),
{
    if s.len() == 0 {
        Seq::empty()
    } else if s.last().file == file {
        exports_of(s.drop_last(), file).push(s.last().fqn)
    } else {
        exports_of(s.drop_last(), file)
    }
}

impl SymbolTable {
    pub closed spec fn view(&self) -> Seq<Symbol> {
        Seq::new(
            self.entries@.len(),
            |i: int| Symbol { fqn: self.entries@[i].fqn@, id: self.entries@[i].id, file: self.entries@[i].file@ },
        )
    }

    pub closed spec fn wf(&self) -> bool {
        forall|i: int| 0 <= i < self.entries@.len() ==> (#[trigger] self.entries@[i]).inv()
    }

    pub fn new() -> (r: SymbolTable)
        ensures
            r.wf(),
            r.view() == Seq::<Symbol>::empty(),
    {
        let r = SymbolTable { entries: Vec::new() };
        assert(r.view() =~= Seq::<Symbol>::empty());
        r
    }

    /// Registers `fqn` as naming `id`, defined in `file`.
    pub fn insert(&mut self, fqn: String, id: NodeId, file: String)
        requires
            old(self).wf(),
        ensures
            final(self).wf(),
            final(self).view() == old(self).view().push(Symbol { fqn: fqn@, id, file: file@ }),
    {
        let fqn_chars = chars_of(fqn.as_str());
        let file_chars = chars_of(file.as_str());
        let dir_chars = parent_dir_of(&file_chars);
        self.entries.push(SymbolEntry { fqn, fqn_chars, id, file, dir_chars });
        assert(self.view() =~= old(self).view().push(Symbol { fqn: fqn@, id, file: file@ }));
    }

    /// Exact lookup: the vertex most recently registered under `fqn`.
    pub fn resolve(&self, fqn: &str) -> (r: Option<NodeId>)
        ensures
            r == last_exact(self.view(), fqn@),
    {
        let key = String::from_str(fqn);
        let mut i: usize = self.entries.len();
        assert(self.view().subrange(0, i as int) =~= self.view());
        while i > 0
            invariant
                i <= self.entries@.len(),
                key@ == fqn@,
                last_exact(self.view(), fqn@) == last_exact(self.view().subrange(0, i as int), fqn@),
            decreases i,
        {
            let ghost pre = self.view().subrange(0, i as int);
            assert(pre.drop_last() =~= self.view().subrange(0, i - 1));
            if self.entries[i - 1].fqn == key {
                return Some(self.entries[i - 1].id);
            }
            i = i - 1;
        }
        None
    }

    /// The names registered by `file`, in order; `None` when it registered none.
    pub fn get_file_exports(&self, file: &str) -> (r: Option<Vec<String>>)
        ensures
            exports_of(self.view(), file@).len() == 0 ==> r.is_none(),
            exports_of(self.view(), file@).len() > 0 ==> r.is_some() && r.unwrap()@.len()
                == exports_of(self.view(), file@).len() && forall|j: int|
                0 <= j < r.unwrap()@.len() ==> (#[trigger] r.unwrap()@[j])@ == exports_of(self.view(), file@)[j],
    {
        let key = String::from_str(file);
        let mut out: Vec<String> = Vec::new();
        let mut i: usize = 0;
        while i < self.entries.len()
            invariant
                i <= self.entries@.len(),
                key@ == file@,
                out@.len() == exports_of(self.view().subrange(0, i as int), file@).len(),
                forall|j: int| 0 <= j < out@.len() ==> (#[trigger] out@[j])@ == exports_of(self.view().subrange(0, i as int), file@)[j],
            decreases self.entries@.len() - i,
        {
            assert(self.view().subrange(0, i + 1).drop_last() =~= self.view().subrange(0, i as int));
            if self.entries[i].file == key {
                out.push(self.entries[i].fqn.clone());
            }
            i = i + 1;
        }
        assert(self.view().subrange(0, i as int) =~= self.view());
        if out.len() == 0 {
            None
        } else {
            Some(out)
        }
    }

    /// Forgets every registration.
    pub fn clear(&mut self)
        ensures
            final(self).wf(),
            final(self).view() == Seq::<Symbol>::empty(),
    {
        self.entries = Vec::new();
        assert(self.view() =~= Seq::<Symbol>::empty());
    }

    /// Resolves `name` as seen from `context_file`: an exact registration when there is
    /// one, else a suffix match after `.` or `:`. One candidate vertex is the answer;
    /// among several, the one candidate defined in the caller's directory, if it is the
    /// only one there; otherwise nothing (ambiguous).
    pub fn resolve_with_context(&self, name: &str, context_file: &str) -> (r: Option<NodeId>)
        requires
            self.wf(),
        ensures
            resolves_to(self.view(), name@, context_file@, r),
    {
        let ghost s = self.view();
        let name_chars = chars_of(name);
        let ctx_chars = chars_of(context_file);
        let dir = parent_dir_of(&ctx_chars);
        let n = self.entries.len();

        // Is there an exact registration?
        let mut exact = false;
        let mut i: usize = 0;
        while i < n
            invariant
                n == self.entries@.len(),
                s == self.view(),
                name_chars@ == name@,
                i <= n,
                exact == exists|j: int| 0 <= j < i && (#[trigger] s[j]).fqn == name@,
                forall|j: int| 0 <= j < n ==> (#[trigger] self.entries@[j]).inv(),
            decreases n - i,
        {
            proof {
                assert(self.entries@[i as int].inv());
                assert(s[i as int].fqn == self.entries@[i as int].fqn_chars@);
            }
            if chars_eq(&self.entries[i].fqn_chars, &name_chars) {
                exact = true;
            }
            i = i + 1;
        }
        assert(exact == has_exact(s, name@));

        // Scan the candidates, keeping the first id seen and whether another differs,
        // over all candidates and over those in the caller's directory.
        let mut first: Option<NodeId> = None;
        let mut mixed = false;
        let mut first_local: Option<NodeId> = None;
        let mut mixed_local = false;
        i = 0;
        while i < n
            invariant
                n == self.entries@.len(),
                s == self.view(),
                name_chars@ == name@,
                i <= n,
                exact == has_exact(s, name@),
                dir@ == parent_dir(context_file@),
                forall|j: int| 0 <= j < n ==> (#[trigger] self.entries@[j]).inv(),
                first.is_none() <==> forall|j: int| 0 <= j < i ==> !#[trigger] selected(s, name@, dir@, false, j),
                first.is_some() ==> exists|j: int| 0 <= j < i && #[trigger] selected(s, name@, dir@, false, j) && s[j].id == first.unwrap(),
                first.is_some() ==> (mixed <==> exists|j: int| 0 <= j < i && #[trigger] selected(s, name@, dir@, false, j) && s[j].id != first.unwrap()),
                first.is_none() ==> !mixed,
                first_local.is_none() <==> forall|j: int| 0 <= j < i ==> !#[trigger] selected(s, name@, dir@, true, j),
                first_local.is_some() ==> exists|j: int| 0 <= j < i && #[trigger] selected(s, name@, dir@, true, j) && s[j].id == first_local.unwrap(),
                first_local.is_some() ==> (mixed_local <==> exists|j: int| 0 <= j < i && #[trigger] selected(s, name@, dir@, true, j) && s[j].id != first_local.unwrap()),
                first_local.is_none() ==> !mixed_local,
            decreases n - i,
        {
            let e = &self.entries[i];
            proof {
                assert(s[i as int].fqn == e.fqn@);
                assert(s[i as int].id == e.id);
                assert(s[i as int].file == e.file@);
                assert(self.entries@[i as int].inv());
                assert(e.fqn_chars@ == s[i as int].fqn);
                assert(e.dir_chars@ == parent_dir(s[i as int].file));
            }
            let cand = if exact {
                chars_eq(&e.fqn_chars, &name_chars)
            } else {
                qualified_suffix(&e.fqn_chars, &name_chars)
            };
            assert(cand == selected(s, name@, dir@, false, i as int));
            if cand {
                match first {
                    None => {
                        first = Some(e.id);
                    },
                    Some(f) => {
                        if f != e.id {
                            mixed = true;
                        }
                    },
                }
                let local = chars_eq(&e.dir_chars, &dir);
                assert(local == selected(s, name@, dir@, true, i as int));
                if local {
                    match first_local {
                        None => {
                            first_local = Some(e.id);
                        },
                        Some(f) => {
                            if f != e.id {
                                mixed_local = true;
                            }
                        },
                    }
                }
            } else {
                assert(!selected(s, name@, dir@, true, i as int));
            }
            i = i + 1;
        }
        proof {
            self.lemma_choice_outcome(s, name@, dir@, false, first, mixed);
            self.lemma_choice_outcome(s, name@, dir@, true, first_local, mixed_local);
        }
        match first {
            Some(f) => {
                if !mixed {
                    return Some(f);
                }
            },
            None => {},
        }
        match first_local {
            Some(f) => {
                if !mixed_local {
                    return Some(f);
                }
            },
            None => {},
        }
        None
    }

    proof fn lemma_choice_outcome(
        &self,
        s: Seq<Symbol>,
        name: Seq<char>,
        dir: Seq<char>,
        local: bool,
        first: Option<NodeId>,
        mixed: bool,
    )
        requires
            first.is_none() <==> forall|j: int| 0 <= j < s.len() ==> !#[trigger] selected(s, name, dir, local, j),
            first.is_some() ==> exists|j: int| 0 <= j < s.len() && #[trigger] selected(s, name, dir, local, j) && s[j].id == first.unwrap(),
            first.is_some() ==> (mixed <==> exists|j: int| 0 <= j < s.len() && #[trigger] selected(s, name, dir, local, j) && s[j].id != first.unwrap()),
        ensures
            (first.is_some() && !mixed) ==> unique_choice(s, name, dir, local, first.unwrap()),
            !(first.is_some() && !mixed) ==> !exists|id: NodeId| unique_choice(s, name, dir, local, id),
    {
        if first.is_some() && !mixed {
            assert forall|i: int| #[trigger] selected(s, name, dir, local, i) implies s[i].id == first.unwrap() by {
                assert(0 <= i < s.len());
            }
        } else {
            assert forall|id: NodeId| !unique_choice(s, name, dir, local, id) by {
                if first.is_some() {
                    let j = choose|j: int| 0 <= j < s.len() && #[trigger] selected(s, name, dir, local, j) && s[j].id != first.unwrap();
                    let k = choose|k: int| 0 <= k < s.len() && #[trigger] selected(s, name, dir, local, k) && s[k].id == first.unwrap();
                    if unique_choice(s, name, dir, local, id) {
                        assert(s[j].id == id);
                        assert(s[k].id == id);
                    }
                } else {
                    if unique_choice(s, name, dir, local, id) {
                        let i = choose|i: int| #[trigger] selected(s, name, dir, local, i) && s[i].id == id;
                        assert(0 <= i < s.len());
                    }
                }
            }
        }
    }
}

} // verus!
