//! The layout of the persistent cache and the batches that change it, over a model of
//! the key-value store.
use vstd::prelude::*;
use vstd::string::*;
use crate::node::CodeNode;

verus! {

/// The key that stamps the cache format.
pub const VERSION_KEY: &'static str = "meta:version";

/// The current cache format.
pub const CACHE_VERSION: &'static str = "arbor-1.3";

/// Whether a stamp read from the store is the current format: `Ok` when it is, else the
/// mismatch, as (expected, found).
pub fn check_version(found: &str) -> (r: Result<(), (String, String)>)
    ensures
        r is Ok <==> found@ == CACHE_VERSION@,
        r is Err ==> r->Err_0.0@ == CACHE_VERSION@ && r->Err_0.1@ == found@,
{
    let f = String::from_str(found);
    let expected = String::from_str(CACHE_VERSION);
    if f == expected {
        Ok(())
    } else {
        Err((expected, f))
    }
}

pub open spec fn node_key_of(id: Seq<char>) -> Seq<char> {
    "n:"@ + id
}

pub open spec fn file_key_of(path: Seq<char>) -> Seq<char> {
    "f:"@ + path
}

pub open spec fn mtime_key_of(path: Seq<char>) -> Seq<char> {
    "m:"@ + path
}

/// The key of a vertex record.
pub fn node_key(id: &str) -> (r: String)
    ensures
        r@ == node_key_of(id@),
{
    String::from_str("n:").concat(id)
}

/// The key of a file's list of vertex identities.
pub fn file_key(path: &str) -> (r: String)
    ensures
        r@ == file_key_of(path@),
{
    String::from_str("f:").concat(path)
}

/// The key of a file's mtime.
pub fn mtime_key(path: &str) -> (r: String)
    ensures
        r@ == mtime_key_of(path@),
{
    String::from_str("m:").concat(path)
}

/// One write of a batch.
#[derive(Clone, Debug, PartialEq, Eq)]
pub enum StoreOp {
    /// Delete a key.
    Remove(String),
    /// Store vertex `nodes[i]` of the batch under its key.
    PutNode(String, usize),
    /// Store a file's list of vertex identities.
    PutIds(String, Vec<String>),
    /// Store a file's mtime.
    PutMtime(String, u64),
}

/// What a key holds, in the model of the store.
pub enum Stored {
    /// A vertex record, by identity.
    Node(Seq<char>),
    Ids(Seq<Seq<char>>),
    Mtime(u64),
}

pub open spec fn ids_of(v: Seq<String>) -> Seq<Seq<char>> {
    v.map_values(|s: String| s@)
}

/// The model after one write; `nodes` are the vertices the batch refers to.
pub open spec fn apply_op(m: Map<Seq<char>, Stored>, op: StoreOp, nodes: Seq<CodeNode>) -> Map<Seq<char>, Stored> {
    match op {
        StoreOp::Remove(k) => m.remove(k@),
        StoreOp::PutNode(k, i) => m.insert(k@, Stored::Node(nodes[i as int].id@)),
        StoreOp::PutIds(k, ids) => m.insert(k@, Stored::Ids(ids_of(ids@))),
        StoreOp::PutMtime(k, t) => m.insert(k@, Stored::Mtime(t)),
    }
}

/// The model after a whole batch, applied in order.
pub open spec fn apply_batch(m: Map<Seq<char>, Stored>, ops: Seq<StoreOp>, nodes: Seq<CodeNode>) -> Map<Seq<char>, Stored>
    decreases ops.len(),
{
    if ops.len() == 0 {
        m
    } else {
        apply_op(apply_batch(m, ops.drop_last(), nodes), ops.last(), nodes)
    }
}

proof fn lemma_apply_batch_push(m: Map<Seq<char>, Stored>, ops: Seq<StoreOp>, op: StoreOp, nodes: Seq<CodeNode>)
    ensures
        apply_batch(m, ops.push(op), nodes) == apply_op(apply_batch(m, ops, nodes), op, nodes),
{
    assert(ops.push(op).drop_last() =~= ops);
}

proof fn lemma_keys_differ(a: Seq<char>, b: Seq<char>)
    ensures
        node_key_of(a) != file_key_of(b),
        node_key_of(a) != mtime_key_of(b),
        file_key_of(a) != mtime_key_of(b),
{
    reveal_strlit("n:");
    reveal_strlit("f:");
    reveal_strlit("m:");
    assert(node_key_of(a)[0] == 'n');
    assert(file_key_of(b)[0] == 'f');
    assert(mtime_key_of(b)[0] == 'm');
    assert(file_key_of(a)[0] == 'f');
}

proof fn lemma_node_key_injective(a: Seq<char>, b: Seq<char>)
    requires
        node_key_of(a) == node_key_of(b),
    ensures
        a == b,
{
    reveal_strlit("n:");
    assert(a =~= node_key_of(a).subrange(2, node_key_of(a).len() as int));
    assert(b =~= node_key_of(b).subrange(2, node_key_of(b).len() as int));
}

/// The batch that replaces `path`'s records with `nodes` and its mtime with `mtime`:
/// first the removal of every old record (`old_ids`, the file's stored list), then a
/// record per new vertex, the new list, and the mtime.
pub fn plan_update_file(path: &str, old_ids: &Vec<String>, nodes: &Vec<CodeNode>, mtime: u64) -> (r: Vec<StoreOp>)
    ensures
        r@.len() == old_ids@.len() + nodes@.len() + 2,
        forall|i: int| 0 <= i < old_ids@.len() ==> r@[i] is Remove && (#[trigger] r@[i])->Remove_0@ == node_key_of(old_ids@[i]@),
        forall|k: int| 0 <= k < nodes@.len() ==> #[trigger] r@[old_ids@.len() as int + k] is PutNode
            && r@[old_ids@.len() as int + k]->PutNode_0@ == node_key_of(nodes@[k].id@) && r@[old_ids@.len() as int + k]->PutNode_1 == k,
        r@[old_ids@.len() as int + nodes@.len()] is PutIds,
        r@[old_ids@.len() as int + nodes@.len()]->PutIds_0@ == file_key_of(path@),
        ids_of(r@[old_ids@.len() as int + nodes@.len()]->PutIds_1@) == nodes@.map_values(|n: CodeNode| n.id@),
        r@[old_ids@.len() as int + nodes@.len() + 1] is PutMtime,
        r@[old_ids@.len() as int + nodes@.len() + 1]->PutMtime_0@ == mtime_key_of(path@),
        r@[old_ids@.len() as int + nodes@.len() + 1]->PutMtime_1 == mtime,
{
    let mut ops: Vec<StoreOp> = Vec::new();
    let mut i: usize = 0;
    while i < old_ids.len()
        invariant
            i <= old_ids@.len(),
            ops@.len() == i,
            forall|j: int| 0 <= j < i ==> ops@[j] is Remove && (#[trigger] ops@[j])->Remove_0@ == node_key_of(old_ids@[j]@),
        decreases old_ids@.len() - i,
    {
        ops.push(StoreOp::Remove(node_key(old_ids[i].as_str())));
        i = i + 1;
    }
    let mut ids: Vec<String> = Vec::new();
    let mut k: usize = 0;
    while k < nodes.len()
        invariant
            k <= nodes@.len(),
            ops@.len() == old_ids@.len() + k,
            forall|j: int| 0 <= j < old_ids@.len() ==> ops@[j] is Remove && (#[trigger] ops@[j])->Remove_0@ == node_key_of(old_ids@[j]@),
            forall|j: int| 0 <= j < k ==> #[trigger] ops@[old_ids@.len() as int + j] is PutNode
                && ops@[old_ids@.len() as int + j]->PutNode_0@ == node_key_of(nodes@[j].id@) && ops@[old_ids@.len() as int + j]->PutNode_1 == j,
            ids@.len() == k,
            ids_of(ids@) == nodes@.subrange(0, k as int).map_values(|n: CodeNode| n.id@),
        decreases nodes@.len() - k,
    {
        ops.push(StoreOp::PutNode(node_key(nodes[k].id.as_str()), k));
        let ghost prev = ids@;
        let c = nodes[k].id.clone();
        assert(c@ == nodes@[k as int].id@);
        ids.push(c);
        proof {
            let want = nodes@.subrange(0, k + 1).map_values(|n: CodeNode| n.id@);
            let was = nodes@.subrange(0, k as int).map_values(|n: CodeNode| n.id@);
            assert forall|j: int| 0 <= j < k + 1 implies ids_of(ids@)[j] == want[j] by {
                if j < k {
                    assert(ids@[j] == prev[j]);
                    assert(ids_of(prev)[j] == was[j]);
                }
            }
            assert(ids_of(ids@) =~= want);
        }
        k = k + 1;
    }
    assert(nodes@.subrange(0, k as int) =~= nodes@);
    ops.push(StoreOp::PutIds(file_key(path), ids));
    ops.push(StoreOp::PutMtime(mtime_key(path), mtime));
    ops
}

/// The batch that forgets `path`: every old record (`old_ids`), its list and its mtime.
pub fn plan_remove_file(path: &str, old_ids: &Vec<String>) -> (r: Vec<StoreOp>)
    ensures
        r@.len() == old_ids@.len() + 2,
        forall|i: int| 0 <= i < old_ids@.len() ==> r@[i] is Remove && (#[trigger] r@[i])->Remove_0@ == node_key_of(old_ids@[i]@),
        r@[old_ids@.len() as int] is Remove && r@[old_ids@.len() as int]->Remove_0@ == file_key_of(path@),
        r@[old_ids@.len() as int + 1] is Remove && r@[old_ids@.len() as int + 1]->Remove_0@ == mtime_key_of(path@),
{
    let mut ops: Vec<StoreOp> = Vec::new();
    let mut i: usize = 0;
    while i < old_ids.len()
        invariant
            i <= old_ids@.len(),
            ops@.len() == i,
            forall|j: int| 0 <= j < i ==> ops@[j] is Remove && (#[trigger] ops@[j])->Remove_0@ == node_key_of(old_ids@[j]@),
        decreases old_ids@.len() - i,
    {
        ops.push(StoreOp::Remove(node_key(old_ids[i].as_str())));
        i = i + 1;
    }
    ops.push(StoreOp::Remove(file_key(path)));
    ops.push(StoreOp::Remove(mtime_key(path)));
    ops
}

/// Round trip: after the update batch of `path` with vertices `nodes`, the file's list
/// holds exactly their identities and every one of them has a record; after the removal
/// batch, neither the list, the mtime, nor any record it listed remains.
pub proof fn lemma_store_round_trip(
    m: Map<Seq<char>, Stored>,
    path: Seq<char>,
    old_ids: Seq<String>,
    nodes: Seq<CodeNode>,
    update: Seq<StoreOp>,
    remove: Seq<StoreOp>,
)
    requires
        update.len() == old_ids.len() + nodes.len() + 2,
        forall|i: int| 0 <= i < old_ids.len() ==> update[i] is Remove && (#[trigger] update[i])->Remove_0@ == node_key_of(old_ids[i]@),
        forall|k: int| 0 <= k < nodes.len() ==> #[trigger] update[old_ids.len() as int + k] is PutNode
            && update[old_ids.len() as int + k]->PutNode_0@ == node_key_of(nodes[k].id@) && update[old_ids.len() as int + k]->PutNode_1 == k,
        update[old_ids.len() as int + nodes.len()] is PutIds,
        update[old_ids.len() as int + nodes.len()]->PutIds_0@ == file_key_of(path),
        ids_of(update[old_ids.len() as int + nodes.len()]->PutIds_1@) == nodes.map_values(|n: CodeNode| n.id@),
        update[old_ids.len() as int + nodes.len() + 1] is PutMtime,
        update[old_ids.len() as int + nodes.len() + 1]->PutMtime_0@ == mtime_key_of(path),
        remove.len() == nodes.len() + 2,
        forall|i: int| 0 <= i < nodes.len() ==> remove[i] is Remove && (#[trigger] remove[i])->Remove_0@ == node_key_of(nodes[i].id@),
        remove[nodes.len() as int] is Remove && remove[nodes.len() as int]->Remove_0@ == file_key_of(path),
        remove[nodes.len() as int + 1] is Remove && remove[nodes.len() as int + 1]->Remove_0@ == mtime_key_of(path),
    ensures
        ({
            let after = apply_batch(m, update, nodes);
            &&& after.contains_key(file_key_of(path))
            &&& after[file_key_of(path)] == Stored::Ids(nodes.map_values(|n: CodeNode| n.id@))
            &&& forall|k: int| 0 <= k < nodes.len() ==> #[trigger] after.contains_key(node_key_of(nodes[k].id@))
                && after[node_key_of(nodes[k].id@)] == Stored::Node(nodes[k].id@)
        }),
        ({
            let gone = apply_batch(apply_batch(m, update, nodes), remove, nodes);
            &&& !gone.contains_key(file_key_of(path))
            &&& !gone.contains_key(mtime_key_of(path))
            &&& forall|k: int| 0 <= k < nodes.len() ==> !(#[trigger] gone.contains_key(node_key_of(nodes[k].id@)))
        }),
{
    let o = old_ids.len() as int;
    let n = nodes.len() as int;
    lemma_puts(m, update, nodes, o, n);
    let a = update.subrange(0, o + n);
    let b = a.push(update[o + n]);
    let c = b.push(update[o + n + 1]);
    assert(c =~= update);
    lemma_apply_batch_push(m, a, update[o + n], nodes);
    lemma_apply_batch_push(m, b, update[o + n + 1], nodes);
    let after = apply_batch(m, update, nodes);
    assert forall|k: int| 0 <= k < n implies #[trigger] after.contains_key(node_key_of(nodes[k].id@))
        && after[node_key_of(nodes[k].id@)] == Stored::Node(nodes[k].id@) by {
        lemma_keys_differ(nodes[k].id@, path);
        assert(apply_batch(m, a, nodes).contains_key(node_key_of(nodes[k].id@)));
    }
    lemma_keys_differ(path, path);
    lemma_removes(after, remove, nodes, n);
    let ra = remove.subrange(0, n);
    let rb = ra.push(remove[n]);
    let rc = rb.push(remove[n + 1]);
    assert(rc =~= remove);
    lemma_apply_batch_push(after, ra, remove[n], nodes);
    lemma_apply_batch_push(after, rb, remove[n + 1], nodes);
    let gone = apply_batch(after, remove, nodes);
    assert forall|k: int| 0 <= k < n implies !(#[trigger] gone.contains_key(node_key_of(nodes[k].id@))) by {
        assert(!apply_batch(after, ra, nodes).contains_key(node_key_of(nodes[k].id@)));
    }
}

/// After the first `o + j` writes of an update batch, each of the first `j` vertices
/// has its record.
proof fn lemma_puts(m: Map<Seq<char>, Stored>, update: Seq<StoreOp>, nodes: Seq<CodeNode>, o: int, j: int)
    requires
        0 <= o,
        0 <= j <= nodes.len(),
        o + nodes.len() <= update.len(),
        forall|k: int| 0 <= k < nodes.len() ==> #[trigger] update[o + k] is PutNode
            && update[o + k]->PutNode_0@ == node_key_of(nodes[k].id@) && update[o + k]->PutNode_1 == k,
    ensures
        forall|k: int| 0 <= k < j ==> #[trigger] apply_batch(m, update.subrange(0, o + j), nodes).contains_key(node_key_of(nodes[k].id@))
            && apply_batch(m, update.subrange(0, o + j), nodes)[node_key_of(nodes[k].id@)] == Stored::Node(nodes[k].id@),
    decreases j,
{
    if j > 0 {
        lemma_puts(m, update, nodes, o, j - 1);
        let pre = update.subrange(0, o + j - 1);
        assert(update.subrange(0, o + j) =~= pre.push(update[o + j - 1]));
        lemma_apply_batch_push(m, pre, update[o + j - 1], nodes);
        let op = update[o + (j - 1)];
        assert(op is PutNode && op->PutNode_0@ == node_key_of(nodes[j - 1].id@) && op->PutNode_1 == j - 1);
        assert forall|k: int| 0 <= k < j implies #[trigger] apply_batch(m, update.subrange(0, o + j), nodes).contains_key(node_key_of(nodes[k].id@))
            && apply_batch(m, update.subrange(0, o + j), nodes)[node_key_of(nodes[k].id@)] == Stored::Node(nodes[k].id@) by {
            if k < j - 1 {
                if node_key_of(nodes[k].id@) == node_key_of(nodes[j - 1].id@) {
                    lemma_node_key_injective(nodes[k].id@, nodes[j - 1].id@);
                }
            }
        }
    }
}

/// After the first `i` removals, none of the first `i` records remains.
proof fn lemma_removes(m: Map<Seq<char>, Stored>, remove: Seq<StoreOp>, nodes: Seq<CodeNode>, i: int)
    requires
        0 <= i <= nodes.len(),
        nodes.len() <= remove.len(),
        forall|k: int| 0 <= k < nodes.len() ==> remove[k] is Remove && (#[trigger] remove[k])->Remove_0@ == node_key_of(nodes[k].id@),
    ensures
        forall|k: int| 0 <= k < i ==> !(#[trigger] apply_batch(m, remove.subrange(0, i), nodes).contains_key(node_key_of(nodes[k].id@))),
    decreases i,
{
    if i > 0 {
        lemma_removes(m, remove, nodes, i - 1);
        let pre = remove.subrange(0, i - 1);
        assert(remove.subrange(0, i) =~= pre.push(remove[i - 1]));
        lemma_apply_batch_push(m, pre, remove[i - 1], nodes);
    }
}

} // verus!
