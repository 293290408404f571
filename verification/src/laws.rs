//! The library's laws, stated and proved over the contracts of the document
//! operations.

use vstd::prelude::*;

use crate::attributes::{Attributes, AttributesData};
use crate::delta::{apply_ops, attrs_at, export_of, insert_cells, mk_cell};
use crate::document::{edit_attributes, redo_rel, undo_rel, Document};

verus! {

/// `n` successive successful undos, each as [`undo_rel`] describes.
pub open spec fn undo_steps(pre: Document, post: Document, n: nat) -> bool
    decreases n,
{
    if n == 0 {
        post == pre
    } else {
        exists|mid: Document| #[trigger] undo_rel(pre, mid) && undo_steps(mid, post, (n - 1) as nat)
    }
}

/// `n` successive successful redos, each as [`redo_rel`] describes.
pub open spec fn redo_steps(pre: Document, post: Document, n: nat) -> bool
    decreases n,
{
    if n == 0 {
        post == pre
    } else {
        exists|mid: Document| #[trigger] redo_rel(pre, mid) && redo_steps(mid, post, (n - 1) as nat)
    }
}

/// A run of `n > 0` redos decomposes into `n - 1` redos followed by one last
/// redo.
pub proof fn lemma_redo_steps_snoc(pre: Document, post: Document, n: nat)
    requires
        n > 0,
        redo_steps(pre, post, n),
    ensures
        exists|mid: Document|
            redo_steps(pre, mid, (n - 1) as nat) && #[trigger] redo_rel(mid, post),
    decreases n,
{
    let m1 = choose|m: Document| #[trigger] redo_rel(pre, m) && redo_steps(m, post, (n - 1) as nat);
    if n == 1 {
        assert(post == m1);
        assert(redo_steps(pre, pre, (n - 1) as nat));
        assert(redo_rel(pre, post));
    } else {
        lemma_redo_steps_snoc(m1, post, (n - 1) as nat);
        let c = choose|mid: Document|
            redo_steps(m1, mid, (n - 2) as nat) && #[trigger] redo_rel(mid, post);
        assert(redo_steps(pre, c, (n - 1) as nat)) by {
            assert(redo_rel(pre, m1) && redo_steps(m1, c, ((n - 1) - 1) as nat));
        }
        assert(redo_rel(c, post));
    }
}

/// Undo/redo inverse law: for any sequence of `n` successful undos followed
/// by `n` successful redos, the content is restored exactly, and the redo
/// stack returns to what it was.  Each undo manufactures exactly the entry
/// the matching redo replays.
pub proof fn lemma_undo_redo_inverse(pre: Document, mid: Document, post: Document, n: nat)
    requires
        undo_steps(pre, mid, n),
        redo_steps(mid, post, n),
    ensures
        post.cells() == pre.cells(),
        post.history.redo_stack@ == pre.history.redo_stack@,
    decreases n,
{
    if n == 0 {
        assert(post == pre);
    } else {
        let m1 = choose|m: Document| #[trigger] undo_rel(pre, m) && undo_steps(m, mid, (n - 1) as nat);
        lemma_redo_steps_snoc(mid, post, n);
        let c = choose|m: Document|
            redo_steps(mid, m, (n - 1) as nat) && #[trigger] redo_rel(m, post);
        lemma_undo_redo_inverse(m1, mid, c, (n - 1) as nat);
        assert(c.cells() == m1.cells());
        assert(c.history.redo_stack@ == m1.history.redo_stack@);
        assert(post.cells() == apply_ops(m1.cells(), m1.history.redo_stack@.last().ops@));
        assert(post.cells() == pre.cells());
        assert(post.history.redo_stack@ == m1.history.redo_stack@.drop_last());
        assert(post.history.redo_stack@ == pre.history.redo_stack@);
    }
}

/// Round trip: exporting a document's state and replacing the state
/// wholesale with that same state leaves the exported state unchanged.
pub proof fn lemma_export_round_trip(before: Document, after: Document)
    requires
        after.data == before.data,
    ensures
        export_of(after.data.cells()) == export_of(before.data.cells()),
{
}

/// Insertion formatting inheritance: inserting text at a position whose
/// probe interval carries an explicit attribute set stamps exactly that set
/// on every inserted cell.
pub proof fn lemma_insert_inherits_formatting(
    pre: Document,
    post: Document,
    index: int,
    text: Seq<char>,
    d: AttributesData,
)
    requires
        attrs_at(pre.cells(), index, index + 1) == Attributes::Custom(d),
        post.cells() == pre.cells().take(index) + insert_cells(
            text,
            edit_attributes(pre.cells(), index),
        ) + pre.cells().skip(index),
    ensures
        forall|j: int|
            index <= j < index + text.len() ==> (#[trigger] post.cells()[j]).attrs
                == Attributes::Custom(d),
{
    let a = edit_attributes(pre.cells(), index);
    assert(a == Attributes::Custom(d));
    assert(0 <= index < pre.cells().len());
    assert(pre.cells().take(index).len() == index);
    assert forall|j: int|
        index <= j < index + text.len() implies (#[trigger] post.cells()[j]).attrs
        == Attributes::Custom(d) by {
        assert(post.cells()[j] == insert_cells(text, a)[j - index]);
        assert(insert_cells(text, a)[j - index] == mk_cell(text[j - index], a));
    }
}

} // verus!
