//! Reviewed batches of memory maintenance operations, validated before any change.
use vstd::prelude::*;

use crate::error::{MagGraphError, Result};
use crate::index::{
    as_written, entry_of, find_id, has_id, lemma_has_id, lemma_has_id_update, merged_node, node_of,
    suppressed_extra, unsuppressed_extra, with_extra, EntryView, GraphIndex,
};
use crate::node::NodeView;
use crate::text::{push_str, string_of};

verus! {

#[derive(Debug, Clone, PartialEq, Eq)]
pub enum MemoryBatchOperation {
    UpdateBody { id: String, body: String },
    Suppress { id: String, reason: Option<String> },
    Unsuppress { id: String },
    Merge { target_id: String, source_id: String },
}

#[derive(Debug, Clone, PartialEq, Eq)]
pub struct MemoryBatchResult {
    pub applied: Vec<String>,
}

/// Why a batch is refused.
pub enum BatchFault {
    /// A node the batch names is missing, or was merged away earlier in the batch.
    Missing(Seq<char>),
    /// A merge names the same node twice.
    SelfMerge,
}

/// The entries after one operation (the node it names exists).
pub open spec fn op_effect(es: Seq<EntryView>, op: MemoryBatchOperation) -> Seq<EntryView> {
    match op {
        MemoryBatchOperation::UpdateBody { id, body } => {
            let i = find_id(es, id@)->0;
            es.update(i, entry_of(as_written(NodeView { body: body@, ..node_of(es[i]) })))
        },
        MemoryBatchOperation::Suppress { id, reason } => {
            let i = find_id(es, id@)->0;
            es.update(
                i,
                entry_of(as_written(with_extra(
                    node_of(es[i]),
                    suppressed_extra(es[i].metadata.extra, match reason {
                        Some(t) => Some(t@),
                        None => None,
                    }),
                ))),
            )
        },
        MemoryBatchOperation::Unsuppress { id } => {
            let i = find_id(es, id@)->0;
            es.update(i, entry_of(as_written(with_extra(node_of(es[i]), unsuppressed_extra(es[i].metadata.extra)))))
        },
        MemoryBatchOperation::Merge { target_id, source_id } => {
            let it = find_id(es, target_id@)->0;
            let js = find_id(es, source_id@)->0;
            es.update(it, entry_of(as_written(merged_node(node_of(es[it]), target_id@, es[js].metadata.links)))).remove(
                js,
            )
        },
    }
}

/// The entries after the operations, applied in order.
pub open spec fn ops_effect(es: Seq<EntryView>, ops: Seq<MemoryBatchOperation>) -> Seq<EntryView>
    decreases ops.len(),
{
    if ops.len() == 0 {
        es
    } else {
        op_effect(ops_effect(es, ops.drop_last()), ops.last())
    }
}

/// `id` cannot be operated on: it is not indexed, or an earlier merge removed it.
pub open spec fn unavailable(es: Seq<EntryView>, removed: Seq<Seq<char>>, id: Seq<char>) -> bool {
    removed.contains(id) || !has_id(es, id)
}

/// First fault of the batch `ops` against entries `es`, given the nodes earlier merges
/// removed.
pub open spec fn batch_fault(es: Seq<EntryView>, ops: Seq<MemoryBatchOperation>, removed: Seq<Seq<char>>) -> Option<BatchFault>
    decreases ops.len(),
{
    if ops.len() == 0 {
        None
    } else {
        match ops[0] {
            MemoryBatchOperation::Merge { target_id, source_id } => if target_id@ == source_id@ {
                Some(BatchFault::SelfMerge)
            } else if unavailable(es, removed, target_id@) {
                Some(BatchFault::Missing(target_id@))
            } else if unavailable(es, removed, source_id@) {
                Some(BatchFault::Missing(source_id@))
            } else {
                batch_fault(es, ops.drop_first(), removed.push(source_id@))
            },
            MemoryBatchOperation::UpdateBody { id, .. } => if unavailable(es, removed, id@) {
                Some(BatchFault::Missing(id@))
            } else {
                batch_fault(es, ops.drop_first(), removed)
            },
            MemoryBatchOperation::Suppress { id, .. } => if unavailable(es, removed, id@) {
                Some(BatchFault::Missing(id@))
            } else {
                batch_fault(es, ops.drop_first(), removed)
            },
            MemoryBatchOperation::Unsuppress { id } => if unavailable(es, removed, id@) {
                Some(BatchFault::Missing(id@))
            } else {
                batch_fault(es, ops.drop_first(), removed)
            },
        }
    }
}

/// `e` is the error reported for fault `f`.
pub open spec fn fault_error(e: MagGraphError, f: BatchFault) -> bool {
    match f {
        BatchFault::Missing(id) => e matches MagGraphError::NodeNotFound { id: i } && i@ == id,
        BatchFault::SelfMerge => e matches MagGraphError::Index(m) && m@ == "cannot merge a node into itself"@,
    }
}

/// Label recorded for an applied operation.
pub open spec fn op_label(op: MemoryBatchOperation) -> Seq<char> {
    match op {
        MemoryBatchOperation::UpdateBody { id, .. } => "update:"@ + id@,
        MemoryBatchOperation::Suppress { id, .. } => "suppress:"@ + id@,
        MemoryBatchOperation::Unsuppress { id } => "unsuppress:"@ + id@,
        MemoryBatchOperation::Merge { target_id, source_id } => "merge:"@ + source_id@ + "->"@
            + target_id@,
    }
}

/// Labels of the operations, in order.
pub open spec fn op_labels(ops: Seq<MemoryBatchOperation>) -> Seq<Seq<char>> {
    ops.map_values(|op: MemoryBatchOperation| op_label(op))
}

/// Nodes the first `n` operations merge away.
pub open spec fn merged_away(ops: Seq<MemoryBatchOperation>, n: int) -> Seq<Seq<char>>
    decreases n,
{
    if n <= 0 || n > ops.len() {
        seq![]
    } else {
        let prev = merged_away(ops, n - 1);
        match ops[n - 1] {
            MemoryBatchOperation::Merge { source_id, .. } => prev.push(source_id@),
            _ => prev,
        }
    }
}

fn contains_str(v: &Vec<String>, s: &String) -> (b: bool)
    ensures
        b == v@.map_values(|x: String| x@).contains(s@),
{
    crate::wikilink::contains_string(v, s)
}

fn require_available(index: &GraphIndex, id: &String, removed: &Vec<String>) -> (r: Result<()>)
    ensures
        unavailable(index@.entries, removed@.map_values(|x: String| x@), id@) ==> (r matches Err(
            MagGraphError::NodeNotFound { id: i },
        ) && i@ == id@),
        !unavailable(index@.entries, removed@.map_values(|x: String| x@), id@) ==> r is Ok,
{
    proof {
        lemma_has_id(index@.entries, id@);
    }
    if contains_str(removed, id) || !index.contains(id.as_str()) {
        return Err(MagGraphError::NodeNotFound { id: id.clone() });
    }
    Ok(())
}

/// Check a batch against the index before applying it: every named node must exist and
/// not have been merged away by an earlier operation, and no merge may name one node
/// twice.
pub fn validate_memory_batch(index: &GraphIndex, operations: &[MemoryBatchOperation]) -> (r: Result<()>)
    ensures
        match batch_fault(index@.entries, operations@, seq![]) {
            None => r is Ok,
            Some(f) => r matches Err(e) && fault_error(e, f),
        },
{
    let ghost es = index@.entries;
    let ghost ops = operations@;
    let mut removed: Vec<String> = Vec::new();
    let mut i: usize = 0;
    assert(ops.subrange(0, ops.len() as int) =~= ops);
    assert(removed@.map_values(|x: String| x@) =~= Seq::<Seq<char>>::empty());
    while i < operations.len()
        invariant
            i <= operations.len(),
            es == index@.entries,
            ops == operations@,
            batch_fault(es, ops, seq![]) == batch_fault(
                es,
                ops.subrange(i as int, ops.len() as int),
                removed@.map_values(|x: String| x@),
            ),
        decreases operations.len() - i,
    {
        let ghost rest = ops.subrange(i as int, ops.len() as int);
        assert(rest[0] == operations@[i as int]);
        assert(rest.drop_first() =~= ops.subrange(i + 1, ops.len() as int));
        let ghost rv = removed@.map_values(|x: String| x@);
        match &operations[i] {
            MemoryBatchOperation::UpdateBody { id, .. } => {
                if let Err(e) = require_available(index, id, &removed) {
                    return Err(e);
                }
            },
            MemoryBatchOperation::Suppress { id, .. } => {
                if let Err(e) = require_available(index, id, &removed) {
                    return Err(e);
                }
            },
            MemoryBatchOperation::Unsuppress { id } => {
                if let Err(e) = require_available(index, id, &removed) {
                    return Err(e);
                }
            },
            MemoryBatchOperation::Merge { target_id, source_id } => {
                if *target_id == *source_id {
                    return Err(MagGraphError::Index("cannot merge a node into itself".to_owned()));
                }
                if let Err(e) = require_available(index, target_id, &removed) {
                    return Err(e);
                }
                if let Err(e) = require_available(index, source_id, &removed) {
                    return Err(e);
                }
                removed.push(source_id.clone());
                assert(removed@.map_values(|x: String| x@) =~= rv.push(source_id@));
            },
        }
        i = i + 1;
    }
    Ok(())
}


fn push_label(applied: &mut Vec<String>, label: String)
    ensures
        final(applied)@.map_values(|x: String| x@) == old(applied)@.map_values(|x: String| x@).push(label@),
{
    let ghost before = applied@.map_values(|x: String| x@);
    let ghost lv = label@;
    applied.push(label);
    assert(applied@.map_values(|x: String| x@) =~= before.push(lv));
}

/// A reviewed batch is all or nothing: a batch that fails validation changes nothing,
/// and a valid batch applies every operation in order.
pub fn apply_memory_batch(index: &mut GraphIndex, operations: &[MemoryBatchOperation]) -> (r: Result<MemoryBatchResult>)
    ensures
        final(index)@.root == old(index)@.root,
        match batch_fault(old(index)@.entries, operations@, seq![]) {
            Some(f) => r matches Err(e) && fault_error(e, f) && final(index)@ == old(index)@,
            None => r matches Ok(res) && res.applied@.map_values(|x: String| x@) == op_labels(
                operations@,
            ) && forall|x: Seq<char>| #[trigger] has_id(final(index)@.entries, x) == (has_id(
                old(index)@.entries,
                x,
            ) && !merged_away(operations@, operations@.len() as int).contains(x))
                && final(index)@.entries == ops_effect(old(index)@.entries, operations@),
        },
{
    if let Err(e) = validate_memory_batch(index, operations) {
        return Err(e);
    }
    let ghost e0 = index@.entries;
    let ghost ops = operations@;
    let mut applied: Vec<String> = Vec::new();
    let mut i: usize = 0;
    assert(ops.subrange(0, ops.len() as int) =~= ops);
    assert(applied@.map_values(|x: String| x@) =~= op_labels(ops.take(0)));
    while i < operations.len()
        invariant
            i <= operations.len(),
            ops == operations@,
            index@.root == old(index)@.root,
            e0 == old(index)@.entries,
            batch_fault(e0, ops.subrange(i as int, ops.len() as int), merged_away(ops, i as int)) is None,
            forall|x: Seq<char>| #[trigger] has_id(index@.entries, x) == (has_id(e0, x) && !merged_away(
                ops,
                i as int,
            ).contains(x)),
            applied@.map_values(|x: String| x@) == op_labels(ops.take(i as int)),
            index@.entries == ops_effect(e0, ops.take(i as int)),
        decreases operations.len() - i,
    {
        let ghost ei = index@.entries;
        let ghost rm = merged_away(ops, i as int);
        let ghost rest = ops.subrange(i as int, ops.len() as int);
        assert(rest[0] == ops[i as int]);
        assert(rest.drop_first() =~= ops.subrange(i + 1, ops.len() as int));
        assert(op_labels(ops.take(i + 1)) =~= op_labels(ops.take(i as int)).push(op_label(ops[i as int])));
        assert(ops.take(i + 1).drop_last() =~= ops.take(i as int));
        assert(ops.take(i + 1).last() == ops[i as int]);
        match &operations[i] {
            MemoryBatchOperation::UpdateBody { id, body } => {
                proof {
                    lemma_has_id(ei, id@);
                    crate::index::lemma_find_id_from(ei, id@, 0);
                }
                let mut node = match index.read_node(id.as_str()) {
                    Ok(n) => n,
                    Err(e) => {
                        return Err(e);
                    },
                };
                node.body = body.clone();
                let _ = index.update_node(node);
                proof {
                    let j = find_id(ei, id@)->0;
                    assert forall|x: Seq<char>| #[trigger] has_id(index@.entries, x) == has_id(ei, x) by {
                        lemma_has_id_update(ei, j, index@.entries[j], x);
                        assert(index@.entries == ei.update(j, index@.entries[j]));
                    }
                }
                push_label(&mut applied, crate::text::concat2("update:", id.as_str()));
            },
            MemoryBatchOperation::Suppress { id, reason } => {
                proof {
                    lemma_has_id(ei, id@);
                    crate::index::lemma_find_id_from(ei, id@, 0);
                }
                let why = match reason {
                    Some(t) => Some(t.as_str()),
                    None => None,
                };
                let _ = index.suppress_node(id.as_str(), why);
                proof {
                    let j = find_id(ei, id@)->0;
                    assert forall|x: Seq<char>| #[trigger] has_id(index@.entries, x) == has_id(ei, x) by {
                        lemma_has_id_update(ei, j, index@.entries[j], x);
                        assert(index@.entries == ei.update(j, index@.entries[j]));
                    }
                }
                push_label(&mut applied, crate::text::concat2("suppress:", id.as_str()));
            },
            MemoryBatchOperation::Unsuppress { id } => {
                proof {
                    lemma_has_id(ei, id@);
                    crate::index::lemma_find_id_from(ei, id@, 0);
                }
                let _ = index.unsuppress_node(id.as_str());
                proof {
                    let j = find_id(ei, id@)->0;
                    assert forall|x: Seq<char>| #[trigger] has_id(index@.entries, x) == has_id(ei, x) by {
                        lemma_has_id_update(ei, j, index@.entries[j], x);
                        assert(index@.entries == ei.update(j, index@.entries[j]));
                    }
                }
                push_label(&mut applied, crate::text::concat2("unsuppress:", id.as_str()));
            },
            MemoryBatchOperation::Merge { target_id, source_id } => {
                proof {
                    lemma_has_id(ei, target_id@);
                    lemma_has_id(ei, source_id@);
                }
                let _ = index.merge_nodes(target_id.as_str(), source_id.as_str());
                proof {
                    assert(merged_away(ops, i + 1) == rm.push(source_id@));
                    assert forall|x: Seq<char>| #[trigger] has_id(index@.entries, x) == (has_id(e0, x)
                        && !rm.push(source_id@).contains(x)) by {
                        assert(rm.push(source_id@).contains(x) == (rm.contains(x) || x == source_id@)) by {
                            if rm.push(source_id@).contains(x) {
                                let k = choose|k: int| 0 <= k < rm.push(source_id@).len() && rm.push(source_id@)[k] == x;
                                if k < rm.len() {
                                    assert(rm[k] == x);
                                }
                            }
                            if rm.contains(x) {
                                let k = choose|k: int| 0 <= k < rm.len() && rm[k] == x;
                                assert(rm.push(source_id@)[k] == x);
                            }
                            if x == source_id@ {
                                assert(rm.push(source_id@)[rm.len() as int] == x);
                            }
                        }
                    }
                }
                push_label(
                    &mut applied,
                    crate::text::concat4("merge:", source_id.as_str(), "->", target_id.as_str()),
                );
            },
        }
        i = i + 1;
    }
    assert(ops.take(operations.len() as int) =~= ops);
    Ok(MemoryBatchResult { applied })
}

} // verus!
