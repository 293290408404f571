//! The delta algebra: ordered operation sequences with declared input and
//! output lengths, their mathematical semantics, composition, inversion,
//! pairwise transformation, attribute lookup and canonical export.
//!
//! The semantics of a delta is given by [`apply_ops`]: a document state is a
//! sequence of [`Cell`]s (one character with its formatting), and a delta
//! consumes exactly `base_len` cells and produces its output cells.  A
//! document state itself is represented as a delta with `base_len == 0`
//! (insert operations only), whose cells are [`Delta::cells`].

use vstd::prelude::*;

use crate::attributes::{apply_attr, attributes_equal, spec_apply_attr, Attributes};
use crate::interval::Interval;

verus! {

/// One position of document content: a character together with the formatting
/// it carries.  A document state is a sequence of cells.
#[derive(Clone, Copy, Debug)]
pub struct Cell {
    pub ch: char,
    pub attrs: Attributes,
}

/// An atomic step of a delta: insert new content, retain (keep, optionally
/// restyle) existing content, or delete existing content.  Only insert and
/// retain carry attributes.
#[derive(Clone, Debug)]
pub enum Operation {
    Insert(Vec<char>, Attributes),
    Retain(usize, Attributes),
    Delete(usize),
}

/// An ordered operation sequence transforming one document state into
/// another.  `base_len` is the length of the input it applies to and
/// `target_len` the length of its output.
#[derive(Clone, Debug)]
pub struct Delta {
    pub ops: Vec<Operation>,
    pub base_len: usize,
    pub target_len: usize,
}

impl Operation {
    /// How much input the operation consumes.
    pub open spec fn base_size(self) -> int {
        match self {
            Operation::Insert(_, _) => 0,
            Operation::Retain(n, _) => n as int,
            Operation::Delete(n) => n as int,
        }
    }

    /// How much output the operation produces.
    pub open spec fn target_size(self) -> int {
        match self {
            Operation::Insert(cs, _) => cs@.len() as int,
            Operation::Retain(n, _) => n as int,
            Operation::Delete(_) => 0,
        }
    }

    /// A well-formed operation does something: empty operations are
    /// normalized away when a delta is built.
    pub open spec fn wf(self) -> bool {
        match self {
            Operation::Insert(cs, _) => cs@.len() > 0,
            Operation::Retain(n, _) => n > 0,
            Operation::Delete(n) => n > 0,
        }
    }

    /// The cells an insert operation contributes to a document state.
    pub open spec fn cells(self) -> Seq<Cell> {
        if self is Insert {
            insert_cells(self->Insert_0@, self->Insert_1)
        } else {
            Seq::<Cell>::empty()
        }
    }
}

/// A cell: one character carrying one formatting state.
pub open spec fn mk_cell(c: char, a: Attributes) -> Cell {
    Cell { ch: c, attrs: a }
}

/// The cells of newly inserted content: every character stamped with the
/// insert's attributes.
pub open spec fn insert_cells(cs: Seq<char>, a: Attributes) -> Seq<Cell> {
    Seq::new(cs.len(), |i: int| mk_cell(cs[i], a))
}

/// One retained cell: the character kept, the attributes restyled.
pub open spec fn restyle_cell(cell: Cell, a: Attributes) -> Cell {
    Cell { ch: cell.ch, attrs: spec_apply_attr(cell.attrs, a) }
}

/// Retained cells: characters kept, attributes restyled by the retain's
/// attributes.
pub open spec fn retain_cells(seg: Seq<Cell>, a: Attributes) -> Seq<Cell> {
    Seq::new(seg.len(), |i: int| restyle_cell(seg[i], a))
}

/// Total input length declared by a list of operations.
pub open spec fn ops_base(ops: Seq<Operation>) -> int
    decreases ops.len(),
{
    if ops.len() == 0 {
        0
    } else {
        ops[0].base_size() + ops_base(ops.drop_first())
    }
}

/// Total output length declared by a list of operations.
pub open spec fn ops_target(ops: Seq<Operation>) -> int
    decreases ops.len(),
{
    if ops.len() == 0 {
        0
    } else {
        ops[0].target_size() + ops_target(ops.drop_first())
    }
}

/// The cells of a document state: the concatenation of what its insert
/// operations contribute.
pub open spec fn cells_of(ops: Seq<Operation>) -> Seq<Cell>
    decreases ops.len(),
{
    if ops.len() == 0 {
        Seq::empty()
    } else {
        ops[0].cells() + cells_of(ops.drop_first())
    }
}

/// The output of one operation applied at the front of `cells`.
pub open spec fn apply_one(cells: Seq<Cell>, op: Operation) -> Seq<Cell> {
    match op {
        Operation::Insert(cs, a) => insert_cells(cs@, a),
        Operation::Retain(n, a) => retain_cells(cells.take(n as int), a),
        Operation::Delete(_) => Seq::empty(),
    }
}

/// The semantics of a delta: apply its operations in order to `cells`,
/// consuming `ops_base(ops)` input cells and producing the output cells.
pub open spec fn apply_ops(cells: Seq<Cell>, ops: Seq<Operation>) -> Seq<Cell>
    decreases ops.len(),
{
    if ops.len() == 0 {
        Seq::empty()
    } else {
        apply_one(cells, ops[0]) + apply_ops(cells.skip(ops[0].base_size()), ops.drop_first())
    }
}

/// Attribute lookup over a half-open cell range: the shared attributes when
/// the range is non-empty, in bounds and uniformly formatted, and `Empty`
/// otherwise (in particular when the range spans differently formatted runs).
pub open spec fn attrs_at(cells: Seq<Cell>, start: int, end: int) -> Attributes {
    if 0 <= start && start < end && end <= cells.len() {
        if forall|j: int| start <= j < end ==> (#[trigger] cells[j]).attrs == cells[start].attrs {
            cells[start].attrs
        } else {
            Attributes::Empty
        }
    } else {
        Attributes::Empty
    }
}

impl Delta {
    /// Declared lengths match the operations, and every operation is
    /// normalized (non-empty).
    pub open spec fn wf(self) -> bool {
        &&& self.base_len as int == ops_base(self.ops@)
        &&& self.target_len as int == ops_target(self.ops@)
        &&& forall|i: int| 0 <= i < self.ops@.len() ==> (#[trigger] self.ops@[i]).wf()
    }

    /// A document state: a well-formed delta over the empty input, so made of
    /// insert operations only.
    pub open spec fn is_state(self) -> bool {
        self.wf() && self.base_len == 0
    }

    pub open spec fn cells(self) -> Seq<Cell> {
        cells_of(self.ops@)
    }
}

pub proof fn lemma_ops_nonneg(ops: Seq<Operation>)
    ensures
        ops_base(ops) >= 0,
        ops_target(ops) >= 0,
    decreases ops.len(),
{
    if ops.len() > 0 {
        lemma_ops_nonneg(ops.drop_first());
    }
}

/// `ops_base`, `ops_target` and `cells_of` distribute over concatenation.
pub proof fn lemma_ops_concat(a: Seq<Operation>, b: Seq<Operation>)
    ensures
        ops_base(a + b) == ops_base(a) + ops_base(b),
        ops_target(a + b) == ops_target(a) + ops_target(b),
        cells_of(a + b) == cells_of(a) + cells_of(b),
    decreases a.len(),
{
    if a.len() == 0 {
        assert(a + b =~= b);
        assert(cells_of(a) + cells_of(b) =~= cells_of(b));
    } else {
        assert((a + b).drop_first() =~= a.drop_first() + b);
        assert((a + b)[0] == a[0]);
        lemma_ops_concat(a.drop_first(), b);
        assert(cells_of(a + b) =~= cells_of(a) + cells_of(b));
    }
}

pub proof fn lemma_ops_singleton(op: Operation)
    ensures
        ops_base(seq![op]) == op.base_size(),
        ops_target(seq![op]) == op.target_size(),
        cells_of(seq![op]) == op.cells(),
{
    let s = seq![op];
    assert(s.drop_first() =~= Seq::<Operation>::empty());
    assert(ops_base(s.drop_first()) == 0);
    assert(ops_target(s.drop_first()) == 0);
    assert(cells_of(s.drop_first()) =~= Seq::<Cell>::empty());
    assert(s[0] == op);
    assert(cells_of(s) =~= op.cells());
}

pub proof fn lemma_ops_push(ops: Seq<Operation>, op: Operation)
    ensures
        ops_base(ops.push(op)) == ops_base(ops) + op.base_size(),
        ops_target(ops.push(op)) == ops_target(ops) + op.target_size(),
        cells_of(ops.push(op)) == cells_of(ops) + op.cells(),
{
    assert(ops.push(op) =~= ops + seq![op]);
    lemma_ops_concat(ops, seq![op]);
    lemma_ops_singleton(op);
    assert(cells_of(ops.push(op)) =~= cells_of(ops) + op.cells());
}

/// `apply_ops` splits over concatenation: the second part applies to what is
/// left after the first part consumed its declared input.
pub proof fn lemma_apply_concat(cells: Seq<Cell>, a: Seq<Operation>, b: Seq<Operation>)
    requires
        ops_base(a) <= cells.len(),
    ensures
        apply_ops(cells, a + b) == apply_ops(cells, a) + apply_ops(cells.skip(ops_base(a)), b),
    decreases a.len(),
{
    lemma_ops_nonneg(a);
    if a.len() == 0 {
        assert(a + b =~= b);
        assert(cells.skip(0) =~= cells);
        assert(apply_ops(cells, a) + apply_ops(cells, b) =~= apply_ops(cells, b));
    } else {
        let k0 = a[0].base_size();
        let a1 = a.drop_first();
        lemma_ops_nonneg(a1);
        assert(ops_base(a) == k0 + ops_base(a1));
        assert((a + b).drop_first() =~= a1 + b);
        assert((a + b)[0] == a[0]);
        lemma_apply_concat(cells.skip(k0), a1, b);
        assert(cells.skip(k0).skip(ops_base(a1)) =~= cells.skip(k0 + ops_base(a1)));
        assert(apply_ops(cells, a + b) =~= apply_ops(cells, a) + apply_ops(
            cells.skip(ops_base(a)),
            b,
        ));
    }
}

pub proof fn lemma_apply_push(cells: Seq<Cell>, ops: Seq<Operation>, op: Operation)
    requires
        ops_base(ops) <= cells.len(),
    ensures
        apply_ops(cells, ops.push(op)) == apply_ops(cells, ops) + apply_one(
            cells.skip(ops_base(ops)),
            op,
        ),
{
    assert(ops.push(op) =~= ops + seq![op]);
    lemma_apply_concat(cells, ops, seq![op]);
    let rest = cells.skip(ops_base(ops));
    let s = seq![op];
    assert(s.drop_first() =~= Seq::<Operation>::empty());
    assert(apply_ops(rest.skip(s[0].base_size()), s.drop_first()) =~= Seq::<Cell>::empty());
    assert(s[0] == op);
    assert(apply_ops(rest, s) =~= apply_one(rest, op));
}

/// Splitting a list of operations at `k`.
pub proof fn lemma_ops_split(ops: Seq<Operation>, k: int)
    requires
        0 <= k <= ops.len(),
    ensures
        ops_base(ops) == ops_base(ops.take(k)) + ops_base(ops.skip(k)),
        ops_target(ops) == ops_target(ops.take(k)) + ops_target(ops.skip(k)),
        cells_of(ops) == cells_of(ops.take(k)) + cells_of(ops.skip(k)),
{
    assert(ops =~= ops.take(k) + ops.skip(k));
    lemma_ops_concat(ops.take(k), ops.skip(k));
}

/// Retaining a whole state with `Follow` attributes leaves it unchanged.
pub proof fn lemma_retain_all(cells: Seq<Cell>, n: usize)
    requires
        n as int == cells.len(),
    ensures
        apply_one(cells, Operation::Retain(n, Attributes::Follow)) == cells,
{
    assert(cells.take(n as int) =~= cells);
    assert(forall|i: int|
        0 <= i < cells.len() ==> retain_cells(cells, Attributes::Follow)[i] == cells[i]);
    assert(retain_cells(cells, Attributes::Follow) =~= cells);
}

/// A document state is made of insert operations only, so its cell count is
/// its declared output length.
pub proof fn lemma_state_cells_len(ops: Seq<Operation>)
    requires
        ops_base(ops) == 0,
        forall|i: int| 0 <= i < ops.len() ==> (#[trigger] ops[i]).wf(),
    ensures
        cells_of(ops).len() == ops_target(ops),
    decreases ops.len(),
{
    if ops.len() > 0 {
        let rest = ops.drop_first();
        lemma_ops_nonneg(rest);
        assert(ops[0].base_size() == 0);
        assert(ops[0].wf());
        assert(ops[0] is Insert);
        let cs = ops[0]->Insert_0;
        assert(ops[0].cells().len() == cs@.len());
        assert(ops[0].cells().len() == ops[0].target_size());
        assert(forall|i: int| 0 <= i < rest.len() ==> (#[trigger] rest[i]).wf()) by {
            assert(forall|i: int| 0 <= i < rest.len() ==> rest[i] == ops[i + 1]);
        }
        lemma_state_cells_len(rest);
        assert(cells_of(ops).len() == ops[0].cells().len() + cells_of(rest).len());
    }
}


impl Delta {
    /// The empty delta: input length = output length = 0.
    pub fn new() -> (r: Delta)
        ensures
            r.is_state(),
            r.ops@.len() == 0,
            r.base_len == 0,
            r.target_len == 0,
            r.cells() == Seq::<Cell>::empty(),
    {
        Delta { ops: Vec::new(), base_len: 0, target_len: 0 }
    }

    pub fn is_empty(&self) -> (r: bool)
        ensures
            r == (self.ops@.len() == 0),
    {
        self.ops.len() == 0
    }

    /// Append an operation, normalizing empty operations away.
    pub fn add(&mut self, op: Operation)
        requires
            old(self).wf(),
            old(self).base_len + op.base_size() <= usize::MAX,
            old(self).target_len + op.target_size() <= usize::MAX,
        ensures
            final(self).wf(),
            !op.wf() ==> *final(self) == *old(self),
            op.wf() ==> {
                &&& final(self).ops@ == old(self).ops@.push(op)
                &&& final(self).base_len == old(self).base_len + op.base_size()
                &&& final(self).target_len == old(self).target_len + op.target_size()
            },
    {
        let trivial: bool = match &op {
            Operation::Insert(cs, _) => cs.len() == 0,
            Operation::Retain(n, _) => *n == 0,
            Operation::Delete(n) => *n == 0,
        };
        if trivial {
            return;
        }
        match &op {
            Operation::Insert(cs, _) => {
                self.target_len = self.target_len + cs.len();
            },
            Operation::Retain(n, _) => {
                self.base_len = self.base_len + *n;
                self.target_len = self.target_len + *n;
            },
            Operation::Delete(n) => {
                self.base_len = self.base_len + *n;
            },
        }
        proof {
            lemma_ops_push(self.ops@, op);
        }
        self.ops.push(op);
    }

    /// Append a retain operation.
    pub fn retain(&mut self, n: usize, attributes: Attributes)
        requires
            old(self).wf(),
            old(self).base_len + n <= usize::MAX,
            old(self).target_len + n <= usize::MAX,
        ensures
            final(self).wf(),
            n == 0 ==> *final(self) == *old(self),
            n > 0 ==> {
                &&& final(self).ops@ == old(self).ops@.push(Operation::Retain(n, attributes))
                &&& final(self).base_len == old(self).base_len + n
                &&& final(self).target_len == old(self).target_len + n
            },
    {
        self.add(Operation::Retain(n, attributes));
    }

    /// The state's cells, materialized.
    pub fn to_cells(&self) -> (r: Vec<Cell>)
        ensures
            r@ == self.cells(),
    {
        let mut r: Vec<Cell> = Vec::new();
        let mut i: usize = 0;
        while i < self.ops.len()
            invariant
                i <= self.ops@.len(),
                r@ == cells_of(self.ops@.take(i as int)),
            decreases self.ops@.len() - i,
        {
            match &self.ops[i] {
                Operation::Insert(cs, a) => {
                    let mut j: usize = 0;
                    while j < cs.len()
                        invariant
                            j <= cs@.len(),
                            r@ == cells_of(self.ops@.take(i as int)) + insert_cells(cs@, *a).take(
                                j as int,
                            ),
                        decreases cs@.len() - j,
                    {
                        let c: char = cs[j];
                        r.push(Cell { ch: c, attrs: *a });
                        proof {
                            assert(insert_cells(cs@, *a)[j as int] == mk_cell(cs@[j as int], *a));
                            assert(insert_cells(cs@, *a).take(j + 1) =~= insert_cells(
                                cs@,
                                *a,
                            ).take(j as int).push(mk_cell(cs@[j as int], *a)));
                        }
                        j = j + 1;
                    }
                    proof {
                        assert(insert_cells(cs@, *a).take(cs@.len() as int) =~= insert_cells(
                            cs@,
                            *a,
                        ));
                    }
                },
                Operation::Retain(_, _) => {
                },
                Operation::Delete(_) => {
                },
            }
            proof {
                assert(self.ops@.take(i + 1) =~= self.ops@.take(i as int).push(
                    self.ops@[i as int],
                ));
                lemma_ops_push(self.ops@.take(i as int), self.ops@[i as int]);
                assert(r@ =~= cells_of(self.ops@.take(i + 1)));
            }
            i = i + 1;
        }
        proof {
            assert(self.ops@.take(self.ops@.len() as int) =~= self.ops@);
        }
        r
    }

    /// Attribute lookup over an interval of the state's cells: the shared
    /// attributes of a uniformly formatted, in-bounds, non-empty range, and
    /// `Empty` otherwise.
    pub fn get_attributes(&self, interval: Interval) -> (r: Attributes)
        ensures
            r == attrs_at(self.cells(), interval.start as int, interval.end as int),
    {
        let cells = self.to_cells();
        if interval.start >= interval.end || interval.end > cells.len() {
            return Attributes::Empty;
        }
        let first: Attributes = cells[interval.start].attrs;
        let mut k: usize = interval.start + 1;
        while k < interval.end
            invariant
                interval.start < k <= interval.end,
                interval.end <= cells@.len(),
                cells@ == self.cells(),
                first == cells@[interval.start as int].attrs,
                forall|j: int|
                    interval.start <= j < k ==> (#[trigger] cells@[j]).attrs == first,
            decreases interval.end - k,
        {
            if !attributes_equal(&cells[k].attrs, &first) {
                proof {
                    assert(cells@[k as int].attrs != cells@[interval.start as int].attrs);
                }
                return Attributes::Empty;
            }
            k = k + 1;
        }
        first
    }

    /// Sequential composition: apply `other` to this state, yielding the new
    /// state.  The lengths are required to match, which makes composition
    /// total here; the rebuild step establishes this by construction.
    pub fn compose(&self, other: &Delta) -> (r: Delta)
        requires
            self.is_state(),
            other.wf(),
            other.base_len == self.target_len,
        ensures
            r.is_state(),
            r.cells() == apply_ops(self.cells(), other.ops@),
            r.target_len as int == r.cells().len(),
    {
        let cells = self.to_cells();
        proof {
            lemma_state_cells_len(self.ops@);
        }
        let mut out: Vec<Cell> = Vec::new();
        let mut idx: usize = 0;
        let mut i: usize = 0;
        while i < other.ops.len()
            invariant
                self.is_state(),
                other.wf(),
                other.base_len == self.target_len,
                cells@ == self.cells(),
                cells@.len() == self.target_len,
                i <= other.ops@.len(),
                idx as int == ops_base(other.ops@.take(i as int)),
                idx <= cells@.len(),
                out@ == apply_ops(cells@, other.ops@.take(i as int)),
            decreases other.ops@.len() - i,
        {
            let ghost pre = other.ops@.take(i as int);
            let ghost op = other.ops@[i as int];
            proof {
                assert(other.ops@.take(i + 1) =~= pre.push(op));
                lemma_ops_push(pre, op);
                lemma_ops_split(other.ops@, i + 1);
                lemma_ops_nonneg(other.ops@.skip(i + 1));
                assert(ops_base(other.ops@) == other.base_len);
                assert(idx + op.base_size() <= cells@.len());
                lemma_apply_push(cells@, pre, op);
            }
            match &other.ops[i] {
                Operation::Insert(cs, a) => {
                    let mut j: usize = 0;
                    while j < cs.len()
                        invariant
                            j <= cs@.len(),
                            out@ == apply_ops(cells@, pre) + insert_cells(cs@, *a).take(j as int),
                        decreases cs@.len() - j,
                    {
                        let c: char = cs[j];
                        out.push(Cell { ch: c, attrs: *a });
                        proof {
                            assert(insert_cells(cs@, *a).take(j + 1) =~= insert_cells(
                                cs@,
                                *a,
                            ).take(j as int).push(mk_cell(cs@[j as int], *a)));
                        }
                        j = j + 1;
                    }
                    proof {
                        assert(insert_cells(cs@, *a).take(cs@.len() as int) =~= insert_cells(
                            cs@,
                            *a,
                        ));
                        assert(apply_one(cells@.skip(idx as int), op) == insert_cells(cs@, *a));
                    }
                },
                Operation::Retain(n, a) => {
                    let ghost idx0 = idx as int;
                    let mut j: usize = 0;
                    while j < *n
                        invariant
                            j <= *n,
                            idx as int == idx0,
                            idx + *n <= cells@.len(),
                            cells@.len() <= usize::MAX,
                            cells@ == self.cells(),
                            out@ == apply_ops(cells@, pre) + retain_cells(
                                cells@.subrange(idx0, idx0 + j),
                                *a,
                            ),
                        decreases *n - j,
                    {
                        let cellv: Cell = cells[idx + j];
                        out.push(Cell { ch: cellv.ch, attrs: apply_attr(&cellv.attrs, a) });
                        proof {
                            assert(retain_cells(cells@.subrange(idx0, idx0 + j + 1), *a)
                                =~= retain_cells(cells@.subrange(idx0, idx0 + j), *a).push(
                                restyle_cell(cells@[idx0 + j], *a),
                            ));
                        }
                        j = j + 1;
                    }
                    proof {
                        assert(cells@.skip(idx0).take(*n as int) =~= cells@.subrange(
                            idx0,
                            idx0 + *n,
                        ));
                        assert(apply_one(cells@.skip(idx0), op) == retain_cells(
                            cells@.subrange(idx0, idx0 + *n),
                            *a,
                        ));
                    }
                    idx = idx + *n;
                },
                Operation::Delete(n) => {
                    proof {
                        assert(apply_one(cells@.skip(idx as int), op) =~= Seq::<Cell>::empty());
                        assert(out@ + Seq::<Cell>::empty() =~= out@);
                    }
                    idx = idx + *n;
                },
            }
            i = i + 1;
        }
        proof {
            assert(other.ops@.take(other.ops@.len() as int) =~= other.ops@);
        }
        cells_to_state(out)
    }

    /// The delta that maps this state back to `other`'s state; empty exactly
    /// when the two states are already identical.
    pub fn invert_delta(&self, other: &Delta) -> (r: Delta)
        requires
            self.is_state(),
            other.is_state(),
        ensures
            self.cells() == other.cells() ==> r.ops@.len() == 0 && r.base_len == 0
                && r.target_len == 0,
            self.cells() != other.cells() ==> {
                &&& r.wf()
                &&& r.ops@.len() > 0
                &&& r.base_len == self.target_len
                &&& apply_ops(self.cells(), r.ops@) == other.cells()
            },
    {
        let a = self.to_cells();
        let b = other.to_cells();
        proof {
            lemma_state_cells_len(self.ops@);
            lemma_state_cells_len(other.ops@);
        }
        if cells_equal(&a, &b) {
            return Delta::new();
        }
        let mut r = Delta::new();
        proof {
            lemma_apply_push(a@, r.ops@, Operation::Delete(self.target_len));
        }
        r.add(Operation::Delete(self.target_len));
        proof {
            assert(apply_ops(a@, r.ops@) =~= b@.take(0));
        }
        let mut k: usize = 0;
        while k < b.len()
            invariant
                k <= b@.len(),
                a@ == self.cells(),
                b@ == other.cells(),
                a@.len() == self.target_len,
                r.wf(),
                r.base_len == self.target_len,
                r.target_len == k,
                ops_base(r.ops@) == self.target_len,
                r.ops@.len() == (if self.target_len > 0 { k as int + 1 } else { k as int }),
                apply_ops(a@, r.ops@) == b@.take(k as int),
            decreases b@.len() - k,
        {
            let cellv: Cell = b[k];
            let mut content: Vec<char> = Vec::new();
            content.push(cellv.ch);
            let op = Operation::Insert(content, cellv.attrs);
            proof {
                lemma_apply_push(a@, r.ops@, op);
                assert(apply_one(a@.skip(self.target_len as int), op) =~= seq![cellv]) by {
                    assert(insert_cells(op->Insert_0@, cellv.attrs).len() == 1);
                    assert(insert_cells(op->Insert_0@, cellv.attrs)[0] == mk_cell(
                        op->Insert_0@[0],
                        cellv.attrs,
                    ));
                }
                assert(b@.take(k + 1) =~= b@.take(k as int).push(b@[k as int]));
            }
            r.add(op);
            k = k + 1;
        }
        proof {
            assert(b@.take(b@.len() as int) =~= b@);
        }
        r
    }

    /// Pairwise transformation of two states that diverged from the common
    /// empty ancestor: adjusted deltas (a', b') such that composing the other
    /// side's state with each yields the identical merged state, this state's
    /// content first.
    pub fn transform(&self, other: &Delta) -> (r: (Delta, Delta))
        requires
            self.is_state(),
            other.is_state(),
            self.target_len + other.target_len <= usize::MAX,
        ensures
            r.0.wf(),
            r.1.wf(),
            r.0.base_len == other.target_len,
            r.1.base_len == self.target_len,
            apply_ops(other.cells(), r.0.ops@) == self.cells() + other.cells(),
            apply_ops(self.cells(), r.1.ops@) == self.cells() + other.cells(),
    {
        proof {
            lemma_state_cells_len(self.ops@);
            lemma_state_cells_len(other.ops@);
        }
        let a_cells = self.to_cells();
        let b_cells = other.to_cells();

        let mut a_prime = Delta::new();
        proof {
            assert(apply_ops(b_cells@, a_prime.ops@) =~= b_cells@.take(ops_base(a_prime.ops@)));
        }
        push_cells_as_inserts(&mut a_prime, &a_cells, Ghost(b_cells@));
        proof {
            assert(b_cells@.take(0) + a_cells@ =~= a_cells@);
            lemma_retain_all(b_cells@, other.target_len);
            lemma_apply_push(
                b_cells@,
                a_prime.ops@,
                Operation::Retain(other.target_len, Attributes::Follow),
            );
        }
        a_prime.retain(other.target_len, Attributes::Follow);
        proof {
            assert(b_cells@.skip(0) =~= b_cells@);
            assert(apply_ops(b_cells@, a_prime.ops@) =~= a_cells@ + b_cells@);
        }

        let mut b_prime = Delta::new();
        proof {
            lemma_retain_all(a_cells@, self.target_len);
            lemma_apply_push(
                a_cells@,
                b_prime.ops@,
                Operation::Retain(self.target_len, Attributes::Follow),
            );
        }
        b_prime.retain(self.target_len, Attributes::Follow);
        proof {
            assert(a_cells@.skip(0) =~= a_cells@);
            assert(apply_ops(a_cells@, b_prime.ops@) =~= a_cells@);
            assert(a_cells@.take(ops_base(b_prime.ops@)) =~= a_cells@);
            assert(apply_ops(a_cells@, b_prime.ops@) == a_cells@.take(ops_base(b_prime.ops@)));
        }
        push_cells_as_inserts(&mut b_prime, &b_cells, Ghost(a_cells@));
        proof {
            assert(apply_ops(a_cells@, b_prime.ops@) =~= a_cells@ + b_cells@);
        }
        (a_prime, b_prime)
    }
}

/// Turn materialized cells back into a document state.
pub fn cells_to_state(cells: Vec<Cell>) -> (r: Delta)
    ensures
        r.is_state(),
        r.cells() == cells@,
        r.target_len as int == cells@.len(),
{
    let mut r = Delta::new();
    let mut k: usize = 0;
    while k < cells.len()
        invariant
            k <= cells@.len(),
            r.wf(),
            r.base_len == 0,
            r.target_len == k,
            r.cells() == cells@.take(k as int),
        decreases cells@.len() - k,
    {
        let cellv: Cell = cells[k];
        let mut content: Vec<char> = Vec::new();
        content.push(cellv.ch);
        let op = Operation::Insert(content, cellv.attrs);
        proof {
            lemma_ops_push(r.ops@, op);
            assert(op.cells() =~= seq![cellv]) by {
                assert(insert_cells(op->Insert_0@, cellv.attrs).len() == 1);
                assert(insert_cells(op->Insert_0@, cellv.attrs)[0] == mk_cell(
                    op->Insert_0@[0],
                    cellv.attrs,
                ));
            }
            assert(cells@.take(k + 1) =~= cells@.take(k as int).push(cells@[k as int]));
        }
        r.add(op);
        k = k + 1;
    }
    proof {
        assert(cells@.take(cells@.len() as int) =~= cells@);
    }
    r
}

/// Append one insert operation per cell, leaving the delta's semantics over
/// `base` extended by exactly those cells.
fn push_cells_as_inserts(d: &mut Delta, cells: &Vec<Cell>, Ghost(base): Ghost<Seq<Cell>>)
    requires
        old(d).wf(),
        ops_base(old(d).ops@) <= base.len(),
        old(d).target_len + cells@.len() <= usize::MAX,
        apply_ops(base, old(d).ops@) == base.take(ops_base(old(d).ops@)),
    ensures
        final(d).wf(),
        final(d).base_len == old(d).base_len,
        final(d).target_len == old(d).target_len + cells@.len(),
        ops_base(final(d).ops@) == ops_base(old(d).ops@),
        apply_ops(base, final(d).ops@) == base.take(ops_base(old(d).ops@)) + cells@,
{
    let mut k: usize = 0;
    let ghost consumed = ops_base(old(d).ops@);
    while k < cells.len()
        invariant
            k <= cells@.len(),
            d.wf(),
            d.base_len == old(d).base_len,
            d.target_len == old(d).target_len + k,
            old(d).target_len + cells@.len() <= usize::MAX,
            consumed == ops_base(old(d).ops@),
            consumed <= base.len(),
            ops_base(d.ops@) == consumed,
            apply_ops(base, d.ops@) == base.take(consumed) + cells@.take(k as int),
        decreases cells@.len() - k,
    {
        let cellv: Cell = cells[k];
        let mut content: Vec<char> = Vec::new();
        content.push(cellv.ch);
        let op = Operation::Insert(content, cellv.attrs);
        proof {
            lemma_apply_push(base, d.ops@, op);
            lemma_ops_push(d.ops@, op);
            assert(apply_one(base.skip(consumed), op) =~= seq![cellv]) by {
                assert(insert_cells(op->Insert_0@, cellv.attrs).len() == 1);
                assert(insert_cells(op->Insert_0@, cellv.attrs)[0] == mk_cell(
                    op->Insert_0@[0],
                    cellv.attrs,
                ));
            }
            assert(cells@.take(k + 1) =~= cells@.take(k as int).push(cells@[k as int]));
            assert((base.take(consumed) + cells@.take(k as int)).push(cells@[k as int])
                =~= base.take(consumed) + cells@.take(k + 1));
        }
        d.add(op);
        k = k + 1;
    }
    proof {
        assert(cells@.take(cells@.len() as int) =~= cells@);
    }
}

/// Exact comparison of two materialized states.
pub fn cells_equal(a: &Vec<Cell>, b: &Vec<Cell>) -> (r: bool)
    ensures
        r == (a@ == b@),
{
    if a.len() != b.len() {
        proof {
            assert(a@.len() != b@.len());
        }
        return false;
    }
    let mut k: usize = 0;
    while k < a.len()
        invariant
            k <= a@.len(),
            a@.len() == b@.len(),
            forall|j: int| 0 <= j < k ==> a@[j] == b@[j],
        decreases a@.len() - k,
    {
        let x: Cell = a[k];
        let y: Cell = b[k];
        if x.ch != y.ch || !attributes_equal(&x.attrs, &y.attrs) {
            proof {
                assert(a@[k as int] != b@[k as int]);
            }
            return false;
        }
        k = k + 1;
    }
    proof {
        assert(a@ =~= b@);
    }
    true
}


/// The canonical rendering of one attribute entry: nothing when absent, the
/// attribute's mark with `+` for an add and `-` for a removal.
pub open spec fn flag_repr(mark: char, v: Option<bool>) -> Seq<char> {
    match v {
        None => Seq::empty(),
        Some(true) => seq![mark, '+'],
        Some(false) => seq![mark, '-'],
    }
}

/// The canonical rendering of a formatting state.
pub open spec fn attrs_repr(a: Attributes) -> Seq<char> {
    match a {
        Attributes::Empty => seq!['.'],
        Attributes::Follow => seq!['~'],
        Attributes::Custom(d) => seq!['#'] + flag_repr('b', d.bold) + flag_repr('i', d.italic)
            + flag_repr('u', d.underline),
    }
}

/// The canonical rendering of one cell.
pub open spec fn cell_repr(cell: Cell) -> Seq<char> {
    seq!['['] + attrs_repr(cell.attrs) + seq![':', cell.ch, ']']
}

/// The canonical textual export of a document state: the concatenation of its
/// cells' renderings.  Equal states export to equal text.
pub open spec fn export_of(cells: Seq<Cell>) -> Seq<char>
    decreases cells.len(),
{
    if cells.len() == 0 {
        Seq::empty()
    } else {
        export_of(cells.drop_last()) + cell_repr(cells.last())
    }
}

/// Relies on `String::push`: appends exactly one character at the end.
#[verifier::external_body]
fn push_char(s: &mut String, c: char)
    ensures
        final(s)@ == old(s)@.push(c),
{
    s.push(c);
}

/// Append the canonical rendering of one attribute entry.
fn push_flag(s: &mut String, mark: char, v: &Option<bool>)
    ensures
        final(s)@ == old(s)@ + flag_repr(mark, *v),
{
    match v {
        Option::None => {
            proof {
                assert(old(s)@ + flag_repr(mark, *v) =~= old(s)@);
            }
        },
        Option::Some(true) => {
            push_char(s, mark);
            push_char(s, '+');
            proof {
                assert(old(s)@.push(mark).push('+') =~= old(s)@ + flag_repr(mark, *v));
            }
        },
        Option::Some(false) => {
            push_char(s, mark);
            push_char(s, '-');
            proof {
                assert(old(s)@.push(mark).push('-') =~= old(s)@ + flag_repr(mark, *v));
            }
        },
    }
}

/// Append the canonical rendering of a formatting state.
fn push_attrs(s: &mut String, a: &Attributes)
    ensures
        final(s)@ == old(s)@ + attrs_repr(*a),
{
    match a {
        Attributes::Empty => {
            push_char(s, '.');
            proof {
                assert(old(s)@.push('.') =~= old(s)@ + attrs_repr(*a));
            }
        },
        Attributes::Follow => {
            push_char(s, '~');
            proof {
                assert(old(s)@.push('~') =~= old(s)@ + attrs_repr(*a));
            }
        },
        Attributes::Custom(d) => {
            push_char(s, '#');
            push_flag(s, 'b', &d.bold);
            push_flag(s, 'i', &d.italic);
            push_flag(s, 'u', &d.underline);
            proof {
                assert(old(s)@.push('#') =~= old(s)@ + seq!['#']);
                assert(old(s)@ + seq!['#'] + flag_repr('b', d.bold) + flag_repr('i', d.italic)
                    + flag_repr('u', d.underline) =~= old(s)@ + attrs_repr(*a));
            }
        },
    }
}

impl Delta {
    /// Canonical export of the state to a serialized textual form.  The
    /// result is a function of the state's cells alone, so identical states
    /// always export identically.
    pub fn to_json(&self) -> (r: String)
        ensures
            r@ == export_of(self.cells()),
    {
        let cells = self.to_cells();
        let mut s = String::new();
        let mut i: usize = 0;
        while i < cells.len()
            invariant
                i <= cells@.len(),
                cells@ == self.cells(),
                s@ == export_of(cells@.take(i as int)),
            decreases cells@.len() - i,
        {
            let cellv: Cell = cells[i];
            push_char(&mut s, '[');
            push_attrs(&mut s, &cellv.attrs);
            push_char(&mut s, ':');
            push_char(&mut s, cellv.ch);
            push_char(&mut s, ']');
            proof {
                assert(cells@.take(i + 1).drop_last() =~= cells@.take(i as int));
                assert(cells@.take(i + 1).last() == cells@[i as int]);
                assert(export_of(cells@.take(i + 1)) == export_of(cells@.take(i as int))
                    + cell_repr(cells@[i as int]));
                assert(s@ =~= export_of(cells@.take(i as int)) + cell_repr(cells@[i as int]));
            }
            i = i + 1;
        }
        proof {
            assert(cells@.take(cells@.len() as int) =~= cells@);
        }
        s
    }
}

} // verus!
