//! The document orchestration layer: interval re-splitting, delta rebuilding,
//! undo/redo bookkeeping, and the two-party convergence procedure.
//!
//! Design decisions pinned down here:
//! - an out-of-range edit position is rejected by precondition, never silently
//!   clamped;
//! - a fresh edit that changes the state clears the redo stack (the common
//!   editor convention);
//! - replacing the state wholesale clears the history, since stale history
//!   entries no longer apply to the imported state;
//! - composition and transformation length mismatches are ruled out by
//!   precondition: the rebuild step always produces a length-matching delta,
//!   so no internal length error can arise.

use vstd::prelude::*;

use crate::attributes::{Attribute, Attributes, AttributesData};
use crate::delta::{
    apply_one, apply_ops, attrs_at, cells_of, export_of, insert_cells, lemma_ops_nonneg,
    lemma_ops_push, lemma_ops_split, lemma_state_cells_len, ops_base, retain_cells, Cell, Delta,
    Operation,
};
use crate::history::History;
use crate::interval::{iclamp, Interval};

verus! {

/// A recoverable history error: the corresponding stack was empty.
#[derive(Clone, Copy, PartialEq, Eq, Structural, Debug)]
pub enum OTError {
    UndoFail,
    RedoFail,
}

/// A revision identifier, exposed for a synchronization layer.
#[derive(Clone, Copy, PartialEq, Eq, Structural, Debug)]
pub struct RevId(pub u64);

/// The outcome of a successful undo or redo: the resulting document length.
#[derive(Clone, Copy, PartialEq, Eq, Structural, Debug)]
pub struct UndoResult {
    pub len: u64,
}

impl UndoResult {
    pub fn success(len: u64) -> (r: UndoResult)
        ensures
            r.len == len,
    {
        UndoResult { len }
    }
}

/// The authoritative document: its current state, its history and a
/// monotonically increasing revision counter.
#[derive(Debug)]
pub struct Document {
    pub data: Delta,
    pub history: History,
    pub rev_id_counter: u64,
}

/// A history stack chains away from the current state: the top entry applies
/// to the current state and genuinely changes it, and the rest of the stack
/// chains from the state the top entry produces.
pub open spec fn undo_chain(cells: Seq<Cell>, stack: Seq<Delta>) -> bool
    decreases stack.len(),
{
    stack.len() == 0 || {
        let top = stack.last();
        &&& top.wf()
        &&& top.base_len as int == cells.len()
        &&& apply_ops(cells, top.ops@) != cells
        &&& undo_chain(apply_ops(cells, top.ops@), stack.drop_last())
    }
}

/// What an edit operation demands of the interval it addresses: an insert is
/// zero-width, a retain or delete consumes exactly the interval.
pub open spec fn op_fits(op: Operation, interval: Interval) -> bool {
    match op {
        Operation::Insert(_, _) => interval.start == interval.end,
        Operation::Retain(n, _) => n as int == interval.spec_size(),
        Operation::Delete(n) => n as int == interval.spec_size(),
    }
}

/// What an edit operation does to the cells of the interval it addresses.
pub open spec fn op_effect(op: Operation, seg: Seq<Cell>) -> Seq<Cell> {
    match op {
        Operation::Insert(cs, a) => insert_cells(cs@, a),
        Operation::Retain(_, a) => retain_cells(seg, a),
        Operation::Delete(_) => Seq::empty(),
    }
}

/// The attributes stamped on content inserted at `index`: the formatting
/// found at the single-position probe interval, defaulting to
/// inherit-surrounding when no formatting is found there.
pub open spec fn edit_attributes(cells: Seq<Cell>, index: int) -> Attributes {
    if attrs_at(cells, index, index + 1) == Attributes::Empty {
        Attributes::Follow
    } else {
        attrs_at(cells, index, index + 1)
    }
}

/// The merge policy of the attribute-update step: inherit-surrounding is
/// replaced wholesale by the looked-up attributes; an explicit set keeps its
/// own entries and fills absent ones from the looked-up attributes; no
/// formatting stays no formatting.
pub open spec fn merged_attributes(requested: Attributes, looked: Attributes) -> Attributes {
    match requested {
        Attributes::Follow => looked,
        Attributes::Empty => Attributes::Empty,
        Attributes::Custom(d) => Attributes::Custom(d.spec_merge(looked.spec_data())),
    }
}

/// How one mutating edit advances the history: an edit that changes the
/// state pushes its inverse onto the undo stack and clears the redo stack; a
/// no-op edit leaves the history untouched.
pub open spec fn history_advanced(pre: Document, post: Document) -> bool {
    if post.cells() == pre.cells() {
        post.history.undo_stack@ == pre.history.undo_stack@ && post.history.redo_stack@
            == pre.history.redo_stack@
    } else {
        &&& post.history.undo_stack@.len() == pre.history.undo_stack@.len() + 1
        &&& post.history.undo_stack@.drop_last() == pre.history.undo_stack@
        &&& apply_ops(post.cells(), post.history.undo_stack@.last().ops@) == pre.cells()
        &&& post.history.redo_stack@.len() == 0
    }
}

/// What one successful undo does: it pops the top undo entry, applies it, and
/// pushes onto the redo stack the delta that maps the restored state back to
/// the state before the undo.
pub open spec fn undo_rel(pre: Document, post: Document) -> bool {
    &&& pre.history.undo_stack@.len() > 0
    &&& post.cells() == apply_ops(pre.cells(), pre.history.undo_stack@.last().ops@)
    &&& post.history.undo_stack@ == pre.history.undo_stack@.drop_last()
    &&& post.history.redo_stack@.len() == pre.history.redo_stack@.len() + 1
    &&& post.history.redo_stack@.drop_last() == pre.history.redo_stack@
    &&& apply_ops(post.cells(), post.history.redo_stack@.last().ops@) == pre.cells()
    &&& post.rev_id_counter == pre.rev_id_counter
}

/// What one successful redo does: the mirror image of [`undo_rel`].
pub open spec fn redo_rel(pre: Document, post: Document) -> bool {
    &&& pre.history.redo_stack@.len() > 0
    &&& post.cells() == apply_ops(pre.cells(), pre.history.redo_stack@.last().ops@)
    &&& post.history.redo_stack@ == pre.history.redo_stack@.drop_last()
    &&& post.history.undo_stack@.len() == pre.history.undo_stack@.len() + 1
    &&& post.history.undo_stack@.drop_last() == pre.history.undo_stack@
    &&& apply_ops(post.cells(), post.history.undo_stack@.last().ops@) == pre.cells()
    &&& post.rev_id_counter == pre.rev_id_counter
}

impl Document {
    pub open spec fn cells(self) -> Seq<Cell> {
        self.data.cells()
    }

    /// The document invariant: the state is well formed and both history
    /// stacks chain away from the current state.
    pub open spec fn wf(self) -> bool {
        &&& self.data.is_state()
        &&& self.data.target_len as int == self.cells().len()
        &&& undo_chain(self.cells(), self.history.undo_stack@)
        &&& undo_chain(self.cells(), self.history.redo_stack@)
        &&& self.rev_id_counter >= 1
    }

    /// A document is created empty: zero-length state, empty history,
    /// revision counter 1.
    pub fn new() -> (r: Document)
        ensures
            r.wf(),
            r.cells() == Seq::<Cell>::empty(),
            r.data.target_len == 0,
            r.history.undo_stack@.len() == 0,
            r.history.redo_stack@.len() == 0,
            r.rev_id_counter == 1,
    {
        Document { data: Delta::new(), history: History::new(), rev_id_counter: 1 }
    }

    /// Insert `text` at `index`, stamping it with the formatting found at the
    /// probe interval `[index, index + 1)` (inherit-surrounding when nothing
    /// is found there).  A position beyond the current length is a caller
    /// error, rejected by precondition rather than silently accepted.
    pub fn edit(&mut self, index: usize, text: &str)
        requires
            old(self).wf(),
            index <= old(self).data.target_len,
            old(self).data.target_len + text@.len() <= usize::MAX,
            old(self).rev_id_counter < u64::MAX,
        ensures
            final(self).wf(),
            final(self).cells() == old(self).cells().take(index as int) + insert_cells(
                text@,
                edit_attributes(old(self).cells(), index as int),
            ) + old(self).cells().skip(index as int),
            final(self).rev_id_counter == old(self).rev_id_counter + 1,
            history_advanced(*old(self), *final(self)),
    {
        let attributes: Attributes = if index < self.data.target_len {
            let probe = Interval::new(index, index + 1);
            let found = self.data.get_attributes(probe);
            match found {
                Attributes::Empty => Attributes::Follow,
                other => other,
            }
        } else {
            proof {
                assert(attrs_at(self.cells(), index as int, index + 1) == Attributes::Empty);
            }
            Attributes::Follow
        };
        proof {
            assert(attributes == edit_attributes(self.cells(), index as int));
        }
        let content = str_to_chars(text);
        let insert = Operation::Insert(content, attributes);
        let interval = Interval::new(index, index);
        self.update_with_op(insert, interval);
        proof {
            assert(old(self).cells().subrange(index as int, index as int)
                =~= Seq::<Cell>::empty());
        }
    }

    /// Remove the content of `interval`.
    pub fn delete(&mut self, interval: Interval)
        requires
            old(self).wf(),
            interval.start <= interval.end,
            interval.end <= old(self).data.target_len,
            old(self).rev_id_counter < u64::MAX,
        ensures
            final(self).wf(),
            final(self).cells() == old(self).cells().take(interval.start as int) + old(
                self,
            ).cells().skip(interval.end as int),
            final(self).rev_id_counter == old(self).rev_id_counter + 1,
            history_advanced(*old(self), *final(self)),
    {
        let delete = Operation::Delete(interval.size());
        self.update_with_op(delete, interval);
        proof {
            assert(old(self).cells().take(interval.start as int) + Seq::<Cell>::empty() + old(
                self,
            ).cells().skip(interval.end as int) =~= old(self).cells().take(interval.start as int)
                + old(self).cells().skip(interval.end as int));
        }
    }

    /// Add (`enable == true`) or remove (`enable == false`) one attribute
    /// over `interval`.
    pub fn format(&mut self, interval: Interval, attribute: Attribute, enable: bool)
        requires
            old(self).wf(),
            interval.start <= interval.end,
            interval.end <= old(self).data.target_len,
            old(self).rev_id_counter < u64::MAX,
        ensures
            final(self).wf(),
            final(self).cells() == old(self).cells().take(interval.start as int) + retain_cells(
                old(self).cells().subrange(interval.start as int, interval.end as int),
                merged_attributes(
                    Attributes::Custom(AttributesData::empty_data().spec_set(attribute, enable)),
                    attrs_at(old(self).cells(), interval.start as int, interval.end as int),
                ),
            ) + old(self).cells().skip(interval.end as int),
            final(self).rev_id_counter == old(self).rev_id_counter + 1,
            history_advanced(*old(self), *final(self)),
    {
        let mut data = AttributesData::new();
        data.insert(attribute, enable);
        let attributes = Attributes::Custom(data);
        self.update_with_attribute(attributes, interval);
    }

    /// The attribute-update step: look up the attributes covering `interval`,
    /// merge them under the requested set (explicit requested changes win),
    /// and rebuild with a retain carrying the merged attributes.
    pub fn update_with_attribute(&mut self, attributes: Attributes, interval: Interval)
        requires
            old(self).wf(),
            interval.start <= interval.end,
            interval.end <= old(self).data.target_len,
            old(self).rev_id_counter < u64::MAX,
        ensures
            final(self).wf(),
            final(self).cells() == old(self).cells().take(interval.start as int) + retain_cells(
                old(self).cells().subrange(interval.start as int, interval.end as int),
                merged_attributes(
                    attributes,
                    attrs_at(old(self).cells(), interval.start as int, interval.end as int),
                ),
            ) + old(self).cells().skip(interval.end as int),
            final(self).rev_id_counter == old(self).rev_id_counter + 1,
            history_advanced(*old(self), *final(self)),
    {
        let old_attributes = self.data.get_attributes(interval);
        let new_attributes: Attributes = match attributes {
            Attributes::Follow => old_attributes,
            Attributes::Custom(d) => {
                let mut merged = d;
                merged.merge(&old_attributes.data());
                Attributes::Custom(merged)
            },
            Attributes::Empty => Attributes::Empty,
        };
        proof {
            assert(new_attributes == merged_attributes(
                attributes,
                attrs_at(self.cells(), interval.start as int, interval.end as int),
            ));
        }
        let retain = Operation::Retain(interval.size(), new_attributes);
        self.update_with_op(retain, interval);
    }

    /// The rebuild step: turn one operation addressed at `interval` into a
    /// full-length delta (prefix retains, the operation, suffix retains),
    /// compose it into the state, record the inverse for undo, and advance
    /// the revision counter.
    pub fn update_with_op(&mut self, op: Operation, interval: Interval)
        requires
            old(self).wf(),
            interval.start <= interval.end,
            interval.end <= old(self).data.target_len,
            op_fits(op, interval),
            old(self).data.target_len - interval.spec_size() + op.target_size() <= usize::MAX,
            old(self).rev_id_counter < u64::MAX,
        ensures
            final(self).wf(),
            final(self).cells() == old(self).cells().take(interval.start as int) + op_effect(
                op,
                old(self).cells().subrange(interval.start as int, interval.end as int),
            ) + old(self).cells().skip(interval.end as int),
            final(self).rev_id_counter == old(self).rev_id_counter + 1,
            history_advanced(*old(self), *final(self)),
    {
        let new_delta = rebuild_delta(&self.data, op, interval);
        let new_data = self.data.compose(&new_delta);
        let undo_delta = new_data.invert_delta(&self.data);
        self.rev_id_counter = self.rev_id_counter + 1;
        if !undo_delta.is_empty() {
            self.history.add_undo(undo_delta);
            self.history.clear_redo();
            proof {
                assert(self.history.undo_stack@.drop_last() =~= old(self).history.undo_stack@);
            }
        }
        proof {
            if undo_delta.ops@.len() == 0 {
                assert(new_data.cells() == old(self).cells());
            } else {
                assert(new_data.cells() != old(self).cells());
            }
        }
        self.data = new_data;
    }

    pub fn can_undo(&self) -> (r: bool)
        ensures
            r == (self.history.undo_stack@.len() > 0),
    {
        self.history.can_undo()
    }

    pub fn can_redo(&self) -> (r: bool)
        ensures
            r == (self.history.redo_stack@.len() > 0),
    {
        self.history.can_redo()
    }

    /// Undo the most recent recorded edit.  Fails exactly when the undo stack
    /// is empty; otherwise restores the previous state and manufactures the
    /// redo entry that reverses this undo.
    pub fn undo(&mut self) -> (r: Result<UndoResult, OTError>)
        requires
            old(self).wf(),
        ensures
            final(self).wf(),
            old(self).history.undo_stack@.len() == 0 ==> {
                &&& r == Err::<UndoResult, OTError>(OTError::UndoFail)
                &&& final(self).data == old(self).data
                &&& final(self).history.undo_stack@ == old(self).history.undo_stack@
                &&& final(self).history.redo_stack@ == old(self).history.redo_stack@
                &&& final(self).rev_id_counter == old(self).rev_id_counter
            },
            old(self).history.undo_stack@.len() > 0 ==> {
                &&& undo_rel(*old(self), *final(self))
                &&& r == Ok::<UndoResult, OTError>(
                    UndoResult { len: final(self).data.target_len as u64 },
                )
            },
    {
        match self.history.undo() {
            Option::None => Err(OTError::UndoFail),
            Option::Some(undo_delta) => {
                let new_delta = self.data.compose(&undo_delta);
                let result = UndoResult::success(new_delta.target_len as u64);
                let redo_delta = new_delta.invert_delta(&self.data);
                self.data = new_delta;
                self.history.add_redo(redo_delta);
                proof {
                    assert(self.history.redo_stack@.drop_last()
                        =~= old(self).history.redo_stack@);
                }
                Ok(result)
            },
        }
    }

    /// Redo the most recent undo: the mirror image of [`Document::undo`].
    pub fn redo(&mut self) -> (r: Result<UndoResult, OTError>)
        requires
            old(self).wf(),
        ensures
            final(self).wf(),
            old(self).history.redo_stack@.len() == 0 ==> {
                &&& r == Err::<UndoResult, OTError>(OTError::RedoFail)
                &&& final(self).data == old(self).data
                &&& final(self).history.undo_stack@ == old(self).history.undo_stack@
                &&& final(self).history.redo_stack@ == old(self).history.redo_stack@
                &&& final(self).rev_id_counter == old(self).rev_id_counter
            },
            old(self).history.redo_stack@.len() > 0 ==> {
                &&& redo_rel(*old(self), *final(self))
                &&& r == Ok::<UndoResult, OTError>(
                    UndoResult { len: final(self).data.target_len as u64 },
                )
            },
    {
        match self.history.redo() {
            Option::None => Err(OTError::RedoFail),
            Option::Some(redo_delta) => {
                let new_delta = self.data.compose(&redo_delta);
                let result = UndoResult::success(new_delta.target_len as u64);
                let undo_delta = new_delta.invert_delta(&self.data);
                self.data = new_delta;
                self.history.add_undo(undo_delta);
                proof {
                    assert(self.history.undo_stack@.drop_last()
                        =~= old(self).history.undo_stack@);
                }
                Ok(result)
            },
        }
    }

    /// Canonical export of the current state.
    pub fn to_json(&self) -> (r: String)
        ensures
            r@ == export_of(self.data.cells()),
    {
        self.data.to_json()
    }

    /// The current state.
    pub fn data(&self) -> (r: &Delta)
        ensures
            *r == self.data,
    {
        &self.data
    }

    /// Replace the current state wholesale (state import).  The history is
    /// cleared: its entries no longer apply to the imported state.
    pub fn set_data(&mut self, data: Delta)
        requires
            old(self).wf(),
            data.is_state(),
        ensures
            final(self).wf(),
            final(self).data == data,
            final(self).history.undo_stack@.len() == 0,
            final(self).history.redo_stack@.len() == 0,
            final(self).rev_id_counter == old(self).rev_id_counter,
    {
        proof {
            lemma_state_cells_len(data.ops@);
        }
        self.data = data;
        self.history = History::new();
    }

    /// The revision identifier the next outgoing change would carry.
    pub fn next_rev_id(&self) -> (r: RevId)
        ensures
            r.0 == self.rev_id_counter,
    {
        RevId(self.rev_id_counter)
    }
}

/// The convergence procedure: reconcile two documents that diverged from the
/// common empty ancestor.  Both sides end in the identical state — left's
/// content followed by right's — so their exports are textually identical.
pub fn transform(left: &mut Document, right: &mut Document)
    requires
        old(left).wf(),
        old(right).wf(),
        old(left).data.target_len + old(right).data.target_len <= usize::MAX,
    ensures
        final(left).wf(),
        final(right).wf(),
        final(left).cells() == old(left).cells() + old(right).cells(),
        final(right).cells() == final(left).cells(),
        export_of(final(left).data.cells()) == export_of(final(right).data.cells()),
        final(left).rev_id_counter == old(left).rev_id_counter,
        final(right).rev_id_counter == old(right).rev_id_counter,
{
    let (a_prime, b_prime) = left.data.transform(&right.data);
    let data_left = left.data.compose(&b_prime);
    let data_right = right.data.compose(&a_prime);
    left.set_data(data_left);
    right.set_data(data_right);
}

/// Split a document length into the ranges before, at and after `interval`.
fn split_length_with_interval(length: usize, interval: Interval) -> (r: (
    Interval,
    Interval,
    Interval,
))
    requires
        interval.start <= interval.end,
        interval.end <= length,
    ensures
        r.0 == (Interval { start: 0, end: interval.start }),
        r.1 == interval,
        r.2 == (Interval { start: interval.end, end: length }),
{
    let original_interval = Interval::new(0, length);
    let prefix = original_interval.prefix(interval);
    let suffix = original_interval.suffix(interval);
    (prefix, interval, suffix)
}

/// The returned sub-ranges tile `interval` exactly: non-empty, consecutive,
/// starting at its start and ending at its end.
pub open spec fn split_covers(ivs: Seq<Interval>, interval: Interval) -> bool {
    &&& ivs.len() > 0
    &&& ivs[0].start == interval.start
    &&& ivs[ivs.len() - 1].end == interval.end
    &&& forall|k: int| 0 <= k < ivs.len() ==> (#[trigger] ivs[k]).start < ivs[k].end
    &&& forall|k: int| 0 <= k < ivs.len() - 1 ==> (#[trigger] ivs[k]).end == ivs[k + 1].start
    &&& forall|k: int|
        0 <= k < ivs.len() ==> interval.start <= (#[trigger] ivs[k]).start && ivs[k].end
            <= interval.end
}

/// Each returned sub-range lies within one insert run of the state, so its
/// cells all carry the same attributes.
pub open spec fn split_uniform(ivs: Seq<Interval>, cells: Seq<Cell>) -> bool {
    forall|k: int, j: int|
        0 <= k < ivs.len() && (#[trigger] ivs[k]).start <= j < ivs[k].end ==> 0 <= j < cells.len()
            && (#[trigger] cells[j]).attrs == cells[ivs[k].start as int].attrs
}

/// Re-partition `interval` into the maximal sub-ranges aligned to the
/// insertion boundaries of the state: only insert operations define
/// addressable output positions, and each sub-range stays within one insert
/// run, so its formatting is uniform.
fn split_interval_with_delta(delta: &Delta, interval: &Interval) -> (r: Vec<Interval>)
    requires
        delta.is_state(),
        interval.start < interval.end,
        interval.end <= delta.target_len,
    ensures
        split_covers(r@, *interval),
        split_uniform(r@, delta.cells()),
{
    let ghost cellsg = delta.cells();
    proof {
        lemma_state_cells_len(delta.ops@);
    }
    let mut start: usize = 0;
    let mut new_intervals: Vec<Interval> = Vec::new();
    let mut i: usize = 0;
    while i < delta.ops.len()
        invariant
            delta.is_state(),
            interval.start < interval.end,
            interval.end <= delta.target_len,
            cellsg == delta.cells(),
            cellsg.len() == delta.target_len,
            i <= delta.ops@.len(),
            start as int == cells_of(delta.ops@.take(i as int)).len(),
            start <= delta.target_len,
            ({
                let x = iclamp(start as int, interval.start as int, interval.end as int);
                if new_intervals@.len() == 0 {
                    x == interval.start as int
                } else {
                    &&& new_intervals@[0].start == interval.start
                    &&& new_intervals@[new_intervals@.len() - 1].end as int == x
                    &&& forall|k: int|
                        0 <= k < new_intervals@.len() ==> (#[trigger] new_intervals@[k]).start
                            < new_intervals@[k].end
                    &&& forall|k: int|
                        0 <= k < new_intervals@.len() - 1 ==> (#[trigger] new_intervals@[k]).end
                            == new_intervals@[k + 1].start
                    &&& forall|k: int|
                        0 <= k < new_intervals@.len() ==> interval.start <= (
                        #[trigger] new_intervals@[k]).start && new_intervals@[k].end
                            <= interval.end
                }
            }),
            split_uniform(new_intervals@, cellsg),
        decreases delta.ops@.len() - i,
    {
        let ghost pre = delta.ops@.take(i as int);
        let ghost opg = delta.ops@[i as int];
        proof {
            assert(delta.ops@.take(i + 1) =~= pre.push(opg));
            lemma_ops_push(pre, opg);
            lemma_ops_split(delta.ops@, i + 1);
            lemma_ops_split(delta.ops@, i as int);
            lemma_ops_nonneg(delta.ops@.skip(i as int).drop_first());
            assert(delta.ops@.skip(i as int)[0] == opg);
            assert(ops_base(delta.ops@.skip(i as int)) == opg.base_size() + ops_base(
                delta.ops@.skip(i as int).drop_first(),
            ));
            lemma_ops_nonneg(delta.ops@.take(i as int));
            lemma_ops_nonneg(delta.ops@.skip(i as int));
            assert(opg.base_size() == 0);
            assert(opg.wf());
        }
        match &delta.ops[i] {
            Operation::Insert(cs, a) => {
                proof {
                    assert(opg.cells() == insert_cells(cs@, *a));
                    assert(opg.cells().len() == cs@.len());
                    assert(cells_of(delta.ops@.take(i + 1)).len() == start + cs@.len());
                    assert(cellsg =~= cells_of(delta.ops@.take(i + 1)) + cells_of(
                        delta.ops@.skip(i + 1),
                    ));
                    assert(start + cs@.len() <= cellsg.len());
                }
                let len = cs.len();
                let end = start + len;
                proof {
                    assert(forall|j: int|
                        start <= j < end ==> (#[trigger] cellsg[j]) == opg.cells()[j - start]);
                    assert(forall|j: int|
                        start <= j < end ==> (#[trigger] cellsg[j]).attrs == *a);
                }
                let insert_interval = Interval::new(start, end);
                let new_interval = interval.intersect(insert_interval);
                if !new_interval.is_empty() {
                    proof {
                        let x_old = iclamp(
                            start as int,
                            interval.start as int,
                            interval.end as int,
                        );
                        if new_intervals@.len() > 0 {
                            let last = new_intervals@[new_intervals@.len() - 1];
                            assert(last.start < last.end);
                            assert(interval.start <= last.start);
                            assert(x_old > interval.start);
                        }
                    }
                    new_intervals.push(new_interval);
                    proof {
                        assert(forall|j: int|
                            new_interval.start <= j < new_interval.end ==> (
                            #[trigger] cellsg[j]).attrs == cellsg[new_interval.start as int].attrs);
                    }
                } else {
                }
                start = end;
            },
            Operation::Retain(_, _) => {
                proof {
                    assert(false);
                }
            },
            Operation::Delete(_) => {
                proof {
                    assert(false);
                }
            },
        }
        i = i + 1;
    }
    proof {
        assert(delta.ops@.take(delta.ops@.len() as int) =~= delta.ops@);
        assert(start as int == cellsg.len());
        assert(iclamp(start as int, interval.start as int, interval.end as int)
            == interval.end as int);
        assert(new_intervals@.len() > 0);
    }
    new_intervals
}

/// Appending a retain that restamps a uniformly formatted sub-range with its
/// own attributes extends the rebuilt delta's output by exactly that
/// sub-range, unchanged.
pub proof fn lemma_push_uniform_retain(
    cells: Seq<Cell>,
    ops: Seq<Operation>,
    front: Seq<Cell>,
    base0: int,
    s: int,
    e: int,
    a: Attributes,
)
    requires
        0 <= base0 <= s < e <= cells.len(),
        e - s <= usize::MAX,
        ops_base(ops) == s,
        forall|j: int| s <= j < e ==> (#[trigger] cells[j]).attrs == a,
        apply_ops(cells, ops) == front + cells.subrange(base0, s),
    ensures
        apply_ops(cells, ops.push(Operation::Retain((e - s) as usize, a))) == front
            + cells.subrange(base0, e),
{
    crate::delta::lemma_apply_push(cells, ops, Operation::Retain((e - s) as usize, a));
    assert(cells.skip(s).take(e - s) =~= cells.subrange(s, e));
    assert(forall|j: int|
        0 <= j < e - s ==> retain_cells(cells.subrange(s, e), a)[j] == cells.subrange(s, e)[j]);
    assert(retain_cells(cells.subrange(s, e), a) =~= cells.subrange(s, e));
    assert(apply_one(cells.skip(s), Operation::Retain((e - s) as usize, a)) == cells.subrange(
        s,
        e,
    ));
    assert((front + cells.subrange(base0, s)) + cells.subrange(s, e) =~= front + cells.subrange(
        base0,
        e,
    ));
}

/// The rebuild step's delta construction.  The produced delta's input length
/// always equals the current document length — the length invariant: the
/// prefix retains, the operation and the suffix retains partition the
/// document with no gap or overlap — and retaining each uniformly formatted
/// sub-range with its own looked-up attributes leaves unaffected text
/// untouched.
#[verifier::rlimit(60)]
pub fn rebuild_delta(data: &Delta, op: Operation, interval: Interval) -> (r: Delta)
    requires
        data.is_state(),
        data.target_len as int == data.cells().len(),
        interval.start <= interval.end,
        interval.end <= data.target_len,
        op_fits(op, interval),
        data.target_len - interval.spec_size() + op.target_size() <= usize::MAX,
    ensures
        r.wf(),
        r.base_len == data.target_len,
        r.target_len as int == data.target_len - interval.spec_size() + op.target_size(),
        apply_ops(data.cells(), r.ops@) == data.cells().take(interval.start as int) + op_effect(
            op,
            data.cells().subrange(interval.start as int, interval.end as int),
        ) + data.cells().skip(interval.end as int),
{
    let ghost cellsg = data.cells();
    let mut new_delta = Delta::new();
    let (prefix, target, suffix) = split_length_with_interval(data.target_len, interval);
    if !prefix.is_empty() && !(prefix.start == target.start && prefix.end == target.end) {
        let intervals = split_interval_with_delta(data, &prefix);
        let mut k: usize = 0;
        while k < intervals.len()
            invariant
                data.is_state(),
                cellsg == data.cells(),
                cellsg.len() == data.target_len,
                split_covers(intervals@, prefix),
                split_uniform(intervals@, cellsg),
                prefix.start == 0,
                prefix.end == interval.start,
                interval.end <= data.target_len,
                k <= intervals@.len(),
                new_delta.wf(),
                new_delta.base_len as int == (if k == 0 {
                    0int
                } else {
                    intervals@[k - 1].end as int
                }),
                new_delta.target_len == new_delta.base_len,
                apply_ops(cellsg, new_delta.ops@) == cellsg.take(new_delta.base_len as int),
            decreases intervals@.len() - k,
        {
            let iv = intervals[k];
            let attributes = data.get_attributes(iv);
            proof {
                let s = iv.start as int;
                let e = iv.end as int;
                assert(intervals@[k as int] == iv);
                assert(iv.start < iv.end);
                assert(forall|j: int|
                    s <= j < e ==> 0 <= j < cellsg.len() && (#[trigger] cellsg[j]).attrs
                        == cellsg[s].attrs);
                assert(0 <= e - 1 < cellsg.len() && cellsg[e - 1].attrs == cellsg[s].attrs);
                assert(attributes == attrs_at(cellsg, s, e));
                assert(attributes == cellsg[s].attrs);
                assert(apply_ops(cellsg, new_delta.ops@) == Seq::<Cell>::empty()
                    + cellsg.subrange(0, s)) by {
                    assert(Seq::<Cell>::empty() + cellsg.subrange(0, s) =~= cellsg.take(s));
                }
                lemma_push_uniform_retain(
                    cellsg,
                    new_delta.ops@,
                    Seq::<Cell>::empty(),
                    0,
                    s,
                    e,
                    attributes,
                );
            }
            new_delta.retain(iv.size(), attributes);
            proof {
                let e = iv.end as int;
                assert(Seq::<Cell>::empty() + cellsg.subrange(0, e) =~= cellsg.take(e));
            }
            k = k + 1;
        }
    } else {
        proof {
            assert(interval.start == 0);
            assert(apply_ops(cellsg, new_delta.ops@) =~= cellsg.take(0));
        }
    }
    proof {
        assert(new_delta.base_len == interval.start);
        assert(apply_ops(cellsg, new_delta.ops@) == cellsg.take(interval.start as int));
        crate::delta::lemma_apply_push(cellsg, new_delta.ops@, op);
    }
    let ghost effect = op_effect(
        op,
        cellsg.subrange(interval.start as int, interval.end as int),
    );
    let ghost opg = op;
    new_delta.add(op);
    proof {
        let s = interval.start as int;
        let e = interval.end as int;
        match opg {
            Operation::Insert(cs, a) => {
                if cs@.len() == 0 {
                    assert(effect =~= Seq::<Cell>::empty());
                    assert(cellsg.take(s) + effect =~= cellsg.take(s));
                } else {
                    assert(apply_ops(cellsg, new_delta.ops@) == cellsg.take(s) + effect);
                }
            },
            Operation::Retain(n, a) => {
                if n == 0 {
                    assert(cellsg.subrange(s, e) =~= Seq::<Cell>::empty());
                    assert(effect =~= Seq::<Cell>::empty());
                    assert(cellsg.take(s) + effect =~= cellsg.take(s));
                } else {
                    assert(cellsg.skip(s).take(n as int) =~= cellsg.subrange(s, e));
                    assert(apply_ops(cellsg, new_delta.ops@) == cellsg.take(s) + effect);
                }
            },
            Operation::Delete(n) => {
                assert(effect =~= Seq::<Cell>::empty());
                if n == 0 {
                    assert(cellsg.take(s) + effect =~= cellsg.take(s));
                } else {
                    assert(cellsg.take(s) + effect =~= cellsg.take(s));
                }
            },
        }
        assert(new_delta.base_len == interval.end);
        assert(apply_ops(cellsg, new_delta.ops@) == cellsg.take(s) + effect);
    }
    if !suffix.is_empty() {
        let intervals = split_interval_with_delta(data, &suffix);
        let mut k: usize = 0;
        while k < intervals.len()
            invariant
                data.is_state(),
                cellsg == data.cells(),
                cellsg.len() == data.target_len,
                split_covers(intervals@, suffix),
                split_uniform(intervals@, cellsg),
                suffix.start == interval.end,
                suffix.end == data.target_len,
                interval.start <= interval.end <= data.target_len,
                op_fits(op, interval),
                data.target_len - interval.spec_size() + op.target_size() <= usize::MAX,
                effect == op_effect(
                    op,
                    cellsg.subrange(interval.start as int, interval.end as int),
                ),
                effect.len() == op.target_size(),
                k <= intervals@.len(),
                new_delta.wf(),
                new_delta.base_len as int == (if k == 0 {
                    interval.end as int
                } else {
                    intervals@[k - 1].end as int
                }),
                new_delta.target_len as int == interval.start + op.target_size() + (
                new_delta.base_len - interval.end),
                apply_ops(cellsg, new_delta.ops@) == cellsg.take(interval.start as int) + effect
                    + cellsg.subrange(interval.end as int, new_delta.base_len as int),
            decreases intervals@.len() - k,
        {
            let iv = intervals[k];
            let attributes = data.get_attributes(iv);
            proof {
                let s = iv.start as int;
                let e = iv.end as int;
                assert(intervals@[k as int] == iv);
                assert(iv.start < iv.end);
                assert(forall|j: int|
                    s <= j < e ==> 0 <= j < cellsg.len() && (#[trigger] cellsg[j]).attrs
                        == cellsg[s].attrs);
                assert(0 <= e - 1 < cellsg.len() && cellsg[e - 1].attrs == cellsg[s].attrs);
                assert(attributes == attrs_at(cellsg, s, e));
                assert(attributes == cellsg[s].attrs);
                assert((cellsg.take(interval.start as int) + effect) + cellsg.subrange(
                    interval.end as int,
                    s,
                ) =~= cellsg.take(interval.start as int) + effect + cellsg.subrange(
                    interval.end as int,
                    s,
                ));
                lemma_push_uniform_retain(
                    cellsg,
                    new_delta.ops@,
                    cellsg.take(interval.start as int) + effect,
                    interval.end as int,
                    s,
                    e,
                    attributes,
                );
            }
            new_delta.retain(iv.size(), attributes);
            proof {
                let e = iv.end as int;
                assert((cellsg.take(interval.start as int) + effect) + cellsg.subrange(
                    interval.end as int,
                    e,
                ) =~= cellsg.take(interval.start as int) + effect + cellsg.subrange(
                    interval.end as int,
                    e,
                ));
            }
            k = k + 1;
        }
        proof {
            assert(new_delta.base_len == data.target_len);
            assert(cellsg.subrange(interval.end as int, cellsg.len() as int) =~= cellsg.skip(
                interval.end as int,
            ));
        }
    } else {
        proof {
            assert(interval.end == data.target_len);
            assert(cellsg.skip(interval.end as int) =~= Seq::<Cell>::empty());
            assert(cellsg.take(interval.start as int) + effect + cellsg.skip(interval.end as int)
                =~= cellsg.take(interval.start as int) + effect);
        }
    }
    proof {
        assert(effect.len() == op.target_size());
    }
    new_delta
}

/// Read `text` out as its characters.
fn str_to_chars(text: &str) -> (r: Vec<char>)
    ensures
        r@ == text@,
{
    let n = text.unicode_len();
    let mut r: Vec<char> = Vec::new();
    let mut i: usize = 0;
    while i < n
        invariant
            i <= n,
            n as nat == text@.len(),
            r@ == text@.take(i as int),
        decreases n - i,
    {
        let c = text.get_char(i);
        r.push(c);
        proof {
            assert(text@.take(i + 1) =~= text@.take(i as int).push(text@[i as int]));
        }
        i = i + 1;
    }
    proof {
        assert(text@.take(n as int) =~= text@);
    }
    r
}

} // verus!
