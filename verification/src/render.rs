//! The turtle-graphics state machine. A turtle keeps a cursor (position and
//! orientation), a LIFO stack of saved cursors, and the ordered trail of line
//! segments emitted so far; an external rasterizer consumes the trail. The
//! numeric work of motion (trigonometry on distances and angles) is the
//! renderer's: the turtle receives each computed target as an opaque value
//! and guarantees the bookkeeping around it.

use vstd::prelude::*;

use crate::action::Scalar;
use crate::l_system::Error;

verus! {

/// A point of the drawing plane, as two opaque coordinates.
#[derive(Debug, Clone, Copy, PartialEq, Eq, Structural)]
pub struct Point {
    /// Horizontal coordinate.
    pub x: Scalar,
    /// Vertical coordinate.
    pub y: Scalar,
}

/// A line segment from `start` to `end`, in emission order within a trail.
#[derive(Debug, Clone, Copy, PartialEq, Eq, Structural)]
pub struct Segment {
    /// Where the pen started.
    pub start: Point,
    /// Where the pen ended.
    pub end: Point,
}

/// The cursor of a turtle: a position and an orientation.
#[derive(Debug, Clone, Copy, PartialEq, Eq, Structural)]
pub struct TurtleState {
    /// Current position.
    pub position: Point,
    /// Current orientation.
    pub orientation: Scalar,
}

impl Default for TurtleState {
    /// A cursor at the origin payload with a zero orientation payload.
    fn default() -> (s: TurtleState)
        ensures
            s == (TurtleState {
                position: Point { x: Scalar { bits: 0 }, y: Scalar { bits: 0 } },
                orientation: Scalar { bits: 0 },
            }),
    {
        TurtleState {
            position: Point { x: Scalar { bits: 0 }, y: Scalar { bits: 0 } },
            orientation: Scalar { bits: 0 },
        }
    }
}

impl TurtleState {
    /// Create a new `TurtleState`.
    pub fn new(position: Point, orientation: Scalar) -> (s: TurtleState)
        ensures
            s == (TurtleState { position, orientation }),
    {
        TurtleState { position, orientation }
    }

    /// Return the current position.
    pub fn position(&self) -> (p: Point)
        ensures
            p == self.position,
    {
        self.position
    }

    /// Set the position.
    pub fn set_position(&mut self, position: Point)
        ensures
            *final(self) == (TurtleState { position, orientation: old(self).orientation }),
    {
        self.position = position;
    }

    /// Set the orientation.
    pub fn set_orientation(&mut self, orientation: Scalar)
        ensures
            *final(self) == (TurtleState { position: old(self).position, orientation }),
    {
        self.orientation = orientation;
    }
}

/// One resolved turtle operation. Motion targets arrive already computed:
/// `MoveTo` draws a segment from the current position to the target, `TurnTo`
/// replaces the orientation, `Push` saves the cursor, `Pop` restores the most
/// recently saved one.
#[derive(Debug, Clone, Copy, PartialEq, Eq, Structural)]
pub enum TurtleOp {
    /// Move the pen to a point, emitting a segment.
    MoveTo(Point),
    /// Replace the orientation.
    TurnTo(Scalar),
    /// Save the cursor on the stack.
    Push,
    /// Restore the most recently saved cursor.
    Pop,
}

/// A snapshot of a whole turtle: cursor, saved stack, and emitted trail.
pub ghost struct TurtleSnap {
    /// The cursor.
    pub state: TurtleState,
    /// The saved cursors, oldest first.
    pub stack: Seq<TurtleState>,
    /// The segments emitted so far, in emission order.
    pub trail: Seq<Segment>,
}

/// The effect of one operation on a snapshot; `None` exactly when a `Pop`
/// finds the stack empty, which aborts a pass.
pub open spec fn op_step(m: TurtleSnap, op: TurtleOp) -> Option<TurtleSnap> {
    match op {
        TurtleOp::MoveTo(p) => Some(
            TurtleSnap {
                state: TurtleState { position: p, orientation: m.state.orientation },
                stack: m.stack,
                trail: m.trail.push(Segment { start: m.state.position, end: p }),
            },
        ),
        TurtleOp::TurnTo(o) => Some(
            TurtleSnap {
                state: TurtleState { position: m.state.position, orientation: o },
                stack: m.stack,
                trail: m.trail,
            },
        ),
        TurtleOp::Push => Some(
            TurtleSnap { state: m.state, stack: m.stack.push(m.state), trail: m.trail },
        ),
        TurtleOp::Pop => if m.stack.len() == 0 {
            None
        } else {
            Some(TurtleSnap { state: m.stack.last(), stack: m.stack.drop_last(), trail: m.trail })
        },
    }
}

/// The effect of a whole operation sequence, aborting at the first failure.
pub open spec fn run_ops(m: TurtleSnap, ops: Seq<TurtleOp>) -> Option<TurtleSnap>
    decreases ops.len(),
{
    if ops.len() == 0 {
        Some(m)
    } else {
        match op_step(m, ops[0]) {
            Some(m2) => run_ops(m2, ops.skip(1)),
            None => None,
        }
    }
}

/// Running a concatenation runs the two halves in order.
pub proof fn lemma_run_ops_append(m: TurtleSnap, a: Seq<TurtleOp>, b: Seq<TurtleOp>)
    ensures
        run_ops(m, a + b) == (match run_ops(m, a) {
            Some(m2) => run_ops(m2, b),
            None => None,
        }),
    decreases a.len(),
{
    if a.len() == 0 {
        assert(a + b =~= b);
    } else {
        assert((a + b)[0] == a[0]);
        match op_step(m, a[0]) {
            Some(m2) => {
                assert((a + b).skip(1) =~= a.skip(1) + b);
                lemma_run_ops_append(m2, a.skip(1), b);
            },
            None => {
                assert(run_ops(m, a + b) is None);
            },
        }
    }
}

/// How many saved cursors an operation adds or removes.
pub open spec fn op_delta(op: TurtleOp) -> int {
    match op {
        TurtleOp::Push => 1,
        TurtleOp::Pop => -1,
        _ => 0,
    }
}

/// Net number of pushes minus pops over a sequence of operations.
pub open spec fn net_pushes(ops: Seq<TurtleOp>) -> int
    decreases ops.len(),
{
    if ops.len() == 0 {
        0
    } else {
        op_delta(ops[0]) + net_pushes(ops.skip(1))
    }
}

/// `net_pushes` distributes over concatenation.
pub proof fn lemma_net_pushes_append(a: Seq<TurtleOp>, b: Seq<TurtleOp>)
    ensures
        net_pushes(a + b) == net_pushes(a) + net_pushes(b),
    decreases a.len(),
{
    if a.len() == 0 {
        assert(a + b =~= b);
    } else {
        assert((a + b)[0] == a[0]);
        assert((a + b).skip(1) =~= a.skip(1) + b);
        lemma_net_pushes_append(a.skip(1), b);
    }
}

/// A sequence of operations is balanced when its pops never outnumber its
/// pushes, counted over every prefix, and the two counts agree overall.
pub open spec fn balanced(ops: Seq<TurtleOp>) -> bool {
    net_pushes(ops) == 0 && forall|i: int|
        0 <= i <= ops.len() ==> net_pushes(#[trigger] ops.take(i)) >= 0
}

/// While the prefix pops never reach below a base portion of the stack, a run
/// succeeds, never touches that base, and ends at the depth the net count
/// gives.
proof fn lemma_run_above(m: TurtleSnap, ops: Seq<TurtleOp>, base: Seq<TurtleState>)
    requires
        base.is_prefix_of(m.stack),
        forall|i: int|
            0 <= i <= ops.len() ==> (m.stack.len() - base.len()) + net_pushes(
                #[trigger] ops.take(i),
            ) >= 0,
    ensures
        run_ops(m, ops) is Some,
        run_ops(m, ops)->Some_0.stack.len() == m.stack.len() + net_pushes(ops),
        base.is_prefix_of(run_ops(m, ops)->Some_0.stack),
    decreases ops.len(),
{
    if ops.len() == 0 {
        assert(ops.take(0) =~= ops);
    } else {
        let op = ops[0];
        let rest = ops.skip(1);
        assert(net_pushes(ops.take(1)) == op_delta(op)) by {
            reveal_with_fuel(net_pushes, 2);
            assert(ops.take(1).len() == 1);
            assert(ops.take(1)[0] == op);
            assert(ops.take(1).skip(1) =~= Seq::<TurtleOp>::empty());
        }
        assert forall|i: int| 0 <= i <= rest.len() implies op_delta(op) + net_pushes(
            #[trigger] rest.take(i),
        ) == net_pushes(ops.take(i + 1)) by {
            assert(ops.take(i + 1) =~= ops.take(1) + rest.take(i));
            lemma_net_pushes_append(ops.take(1), rest.take(i));
        }
        let d = m.stack.len() - base.len();
        match op {
            TurtleOp::Pop => {
                assert(d + net_pushes(ops.take(1)) >= 0);
                assert(d >= 1);
                let m2 = op_step(m, op)->Some_0;
                assert(base.is_prefix_of(m2.stack)) by {
                    assert(base =~= m2.stack.subrange(0, base.len() as int));
                }
                lemma_run_above(m2, rest, base);
            },
            TurtleOp::Push => {
                let m2 = op_step(m, op)->Some_0;
                assert(base.is_prefix_of(m2.stack)) by {
                    assert(base =~= m2.stack.subrange(0, base.len() as int));
                }
                lemma_run_above(m2, rest, base);
            },
            TurtleOp::MoveTo(_) => {
                let m2 = op_step(m, op)->Some_0;
                lemma_run_above(m2, rest, base);
            },
            TurtleOp::TurnTo(_) => {
                let m2 = op_step(m, op)->Some_0;
                lemma_run_above(m2, rest, base);
            },
        }
        assert(ops.take(ops.len() as int) =~= ops);
    }
}

/// Stack discipline: around a balanced block of operations, a push and its
/// matching pop restore the cursor and the saved stack exactly as they were
/// before the push, whatever moves and turns the block performed.
pub proof fn lemma_stack_discipline(m: TurtleSnap, ops: Seq<TurtleOp>)
    requires
        balanced(ops),
    ensures
        ({
            let r = run_ops(m, seq![TurtleOp::Push] + ops + seq![TurtleOp::Pop]);
            &&& r is Some
            &&& r->Some_0.state == m.state
            &&& r->Some_0.stack == m.stack
        }),
{
    let m1 = op_step(m, TurtleOp::Push)->Some_0;
    assert(run_ops(m, seq![TurtleOp::Push]) == Some(m1)) by {
        reveal_with_fuel(run_ops, 2);
        assert(seq![TurtleOp::Push][0] == TurtleOp::Push);
        assert(seq![TurtleOp::Push].skip(1) =~= Seq::<TurtleOp>::empty());
    }
    lemma_run_above(m1, ops, m1.stack);
    let m2 = run_ops(m1, ops)->Some_0;
    assert(m2.stack =~= m1.stack) by {
        assert(m1.stack =~= m2.stack.subrange(0, m1.stack.len() as int));
    }
    assert(m2.stack.last() == m.state);
    assert(m2.stack.drop_last() =~= m.stack);
    let whole = seq![TurtleOp::Push] + ops + seq![TurtleOp::Pop];
    assert(whole =~= seq![TurtleOp::Push] + (ops + seq![TurtleOp::Pop]));
    lemma_run_ops_append(m, seq![TurtleOp::Push], ops + seq![TurtleOp::Pop]);
    lemma_run_ops_append(m1, ops, seq![TurtleOp::Pop]);
    assert(run_ops(m2, seq![TurtleOp::Pop]) == op_step(m2, TurtleOp::Pop)) by {
        reveal_with_fuel(run_ops, 2);
        assert(seq![TurtleOp::Pop][0] == TurtleOp::Pop);
        assert(seq![TurtleOp::Pop].skip(1) =~= Seq::<TurtleOp>::empty());
    }
}

/// An unbalanced pop always fails: whenever some prefix pops more than was
/// pushed over it plus what the stack held at the start, the run aborts with
/// the empty-stack failure rather than producing a state.
pub proof fn lemma_unbalanced_pop_fails(m: TurtleSnap, ops: Seq<TurtleOp>)
    requires
        exists|i: int|
            0 <= i <= ops.len() && m.stack.len() + net_pushes(#[trigger] ops.take(i)) < 0,
    ensures
        run_ops(m, ops) is None,
    decreases ops.len(),
{
    let i = choose|i: int|
        0 <= i <= ops.len() && m.stack.len() + net_pushes(#[trigger] ops.take(i)) < 0;
    assert(ops.take(0) =~= Seq::<TurtleOp>::empty());
    assert(i >= 1);
    let op = ops[0];
    let rest = ops.skip(1);
    assert(net_pushes(ops.take(1)) == op_delta(op)) by {
        reveal_with_fuel(net_pushes, 2);
        assert(ops.take(1).len() == 1);
        assert(ops.take(1)[0] == op);
        assert(ops.take(1).skip(1) =~= Seq::<TurtleOp>::empty());
    }
    assert(net_pushes(ops.take(i)) == op_delta(op) + net_pushes(rest.take(i - 1))) by {
        assert(ops.take(i) =~= ops.take(1) + rest.take(i - 1));
        lemma_net_pushes_append(ops.take(1), rest.take(i - 1));
    }
    match op_step(m, op) {
        Some(m2) => {
            assert(m2.stack.len() == m.stack.len() + op_delta(op));
            assert(m2.stack.len() + net_pushes(rest.take(i - 1)) < 0);
            lemma_unbalanced_pop_fails(m2, rest);
        },
        None => {
        },
    }
}

/// Moving away and exactly back: a move to `p` followed by a move to the
/// starting position restores the whole cursor, orientation included, and
/// leaves the saved stack unchanged.
pub proof fn lemma_move_and_return(m: TurtleSnap, p: Point)
    ensures
        ({
            let r = run_ops(m, seq![TurtleOp::MoveTo(p), TurtleOp::MoveTo(m.state.position)]);
            &&& r is Some
            &&& r->Some_0.state == m.state
            &&& r->Some_0.stack == m.stack
        }),
{
    let ops = seq![TurtleOp::MoveTo(p), TurtleOp::MoveTo(m.state.position)];
    reveal_with_fuel(run_ops, 3);
    assert(ops.len() == 2);
    assert(ops[0] == TurtleOp::MoveTo(p));
    assert(ops[1] == TurtleOp::MoveTo(m.state.position));
    let m1 = op_step(m, ops[0])->Some_0;
    assert(ops.skip(1) =~= seq![TurtleOp::MoveTo(m.state.position)]);
    assert(ops.skip(1).skip(1) =~= Seq::<TurtleOp>::empty());
    let m2 = op_step(m1, ops.skip(1)[0])->Some_0;
    assert(run_ops(m, ops) == Some(m2));
}

/// The turtle: a cursor, the stack of saved cursors, and the trail of
/// segments emitted so far.
#[derive(Debug)]
pub struct Turtle {
    state: TurtleState,
    stack: Vec<TurtleState>,
    trail: Vec<Segment>,
}

impl Turtle {
    /// The turtle as a snapshot.
    pub closed spec fn model(&self) -> TurtleSnap {
        TurtleSnap { state: self.state, stack: self.stack@, trail: self.trail@ }
    }

    /// Create a new `Turtle` with a default cursor, no saved cursors and an
    /// empty trail.
    pub fn new() -> (t: Turtle)
        ensures
            t.model() == (TurtleSnap {
                state: TurtleState {
                    position: Point { x: Scalar { bits: 0 }, y: Scalar { bits: 0 } },
                    orientation: Scalar { bits: 0 },
                },
                stack: Seq::<TurtleState>::empty(),
                trail: Seq::<Segment>::empty(),
            }),
    {
        let t = Turtle { state: TurtleState::default(), stack: Vec::new(), trail: Vec::new() };
        proof {
            assert(t.model().stack =~= Seq::<TurtleState>::empty());
            assert(t.model().trail =~= Seq::<Segment>::empty());
        }
        t
    }

    /// Return the turtle position.
    pub fn position(&self) -> (p: Point)
        ensures
            p == self.model().state.position,
    {
        self.state.position()
    }

    /// Return the turtle orientation.
    pub fn orientation(&self) -> (o: Scalar)
        ensures
            o == self.model().state.orientation,
    {
        self.state.orientation
    }

    /// Set the turtle position without drawing.
    pub fn set_position(&mut self, position: Point)
        ensures
            final(self).model() == (TurtleSnap {
                state: TurtleState {
                    position,
                    orientation: old(self).model().state.orientation,
                },
                stack: old(self).model().stack,
                trail: old(self).model().trail,
            }),
    {
        self.state.set_position(position);
    }

    /// Set the turtle orientation.
    pub fn set_orientation(&mut self, orientation: Scalar)
        ensures
            op_step(old(self).model(), TurtleOp::TurnTo(orientation)) == Some(
                final(self).model(),
            ),
    {
        self.state.set_orientation(orientation);
    }

    /// Move the pen to `position`, emitting the segment from the previous
    /// position; the orientation and the saved stack are untouched.
    pub fn advance_to(&mut self, position: Point)
        ensures
            op_step(old(self).model(), TurtleOp::MoveTo(position)) == Some(final(self).model()),
    {
        let start = self.state.position();
        self.trail.push(Segment { start, end: position });
        self.state.set_position(position);
    }

    /// Push a copy of the current cursor on the stack; the cursor itself is
    /// left unchanged, so subsequent motion continues from the same point.
    pub fn stack_push(&mut self)
        ensures
            op_step(old(self).model(), TurtleOp::Push) == Some(final(self).model()),
    {
        self.stack.push(self.state);
    }

    /// Pop the most recently saved cursor into the current one; fails with
    /// `PopEmptyStack` if nothing is saved, leaving the turtle unchanged.
    pub fn stack_pop(&mut self) -> (r: Result<(), Error>)
        ensures
            old(self).model().stack.len() == 0 ==> r == Err::<(), Error>(Error::PopEmptyStack)
                && final(self).model() == old(self).model(),
            old(self).model().stack.len() > 0 ==> r == Ok::<(), Error>(()) && op_step(
                old(self).model(),
                TurtleOp::Pop,
            ) == Some(final(self).model()),
    {
        match self.stack.pop() {
            Some(saved) => {
                self.state = saved;
                proof {
                    assert(final(self).model().stack =~= old(self).model().stack.drop_last());
                }
                Ok(())
            },
            None => Err(Error::PopEmptyStack),
        }
    }

    /// Apply one resolved operation: exactly the transition of `op_step`,
    /// with the empty-stack failure surfaced as an error.
    pub fn apply_op(&mut self, op: TurtleOp) -> (r: Result<(), Error>)
        ensures
            match op_step(old(self).model(), op) {
                Some(m) => r == Ok::<(), Error>(()) && final(self).model() == m,
                None => r == Err::<(), Error>(Error::PopEmptyStack) && final(self).model() == old(
                    self,
                ).model(),
            },
    {
        match op {
            TurtleOp::MoveTo(p) => {
                self.advance_to(p);
                Ok(())
            },
            TurtleOp::TurnTo(o) => {
                self.set_orientation(o);
                Ok(())
            },
            TurtleOp::Push => {
                self.stack_push();
                Ok(())
            },
            TurtleOp::Pop => self.stack_pop(),
        }
    }

    /// Replay a whole sequence of resolved operations in order. On the first
    /// failing pop the pass stops there and surfaces the error; the turtle
    /// keeps the cursor, stack and trail it had reached at that point.
    pub fn run(&mut self, ops: &Vec<TurtleOp>) -> (r: Result<(), Error>)
        ensures
            match run_ops(old(self).model(), ops@) {
                Some(m) => r == Ok::<(), Error>(()) && final(self).model() == m,
                None => r == Err::<(), Error>(Error::PopEmptyStack) && exists|i: int|
                    0 <= i < ops@.len() && (#[trigger] run_ops(old(self).model(), ops@.take(i)))
                        == Some(final(self).model()) && op_step(final(self).model(), ops@[i])
                        is None,
            },
    {
        let ghost m0 = self.model();
        let mut i: usize = 0;
        while i < ops.len()
            invariant
                i <= ops.len(),
                m0 == old(self).model(),
                run_ops(m0, ops@.take(i as int)) == Some(self.model()),
            decreases ops.len() - i,
        {
            let op = ops[i];
            let ghost mi = self.model();
            let res = self.apply_op(op);
            proof {
                assert(ops@.take(i + 1) =~= ops@.take(i as int).push(op));
                lemma_run_ops_snoc(m0, ops@.take(i as int), op);
            }
            match res {
                Ok(()) => {},
                Err(e) => {
                    proof {
                        assert(op_step(mi, op) is None);
                        assert(ops@ =~= ops@.take(i as int) + ops@.skip(i as int));
                        lemma_run_ops_append(m0, ops@.take(i as int), ops@.skip(i as int));
                        assert(ops@.skip(i as int)[0] == op);
                        assert(run_ops(mi, ops@.skip(i as int)) is None);
                        assert(run_ops(m0, ops@) is None);
                        assert(self.model() == mi);
                        assert(0 <= i as int && (i as int) < ops@.len());
                        assert(run_ops(m0, ops@.take(i as int)) == Some(self.model()));
                        assert(op_step(self.model(), ops@[i as int]) is None);
                    }
                    return Err(e);
                },
            }
            i += 1;
        }
        proof {
            assert(ops@.take(ops@.len() as int) =~= ops@);
        }
        Ok(())
    }

    /// Return the trail of segments emitted so far, in emission order.
    pub fn segments(&self) -> (v: &Vec<Segment>)
        ensures
            v@ == self.model().trail,
    {
        &self.trail
    }
}

/// Appending one operation to a run applies it after the prefix.
pub proof fn lemma_run_ops_snoc(m: TurtleSnap, ops: Seq<TurtleOp>, op: TurtleOp)
    ensures
        run_ops(m, ops.push(op)) == (match run_ops(m, ops) {
            Some(m2) => op_step(m2, op),
            None => None,
        }),
{
    assert(ops.push(op) =~= ops + seq![op]);
    lemma_run_ops_append(m, ops, seq![op]);
    assert(seq![op].skip(1) =~= Seq::<TurtleOp>::empty());
    match run_ops(m, ops) {
        Some(m2) => {
            assert(run_ops(m2, seq![op]) == op_step(m2, op)) by {
                reveal_with_fuel(run_ops, 2);
                assert(seq![op][0] == op);
                assert(seq![op].skip(1) =~= Seq::<TurtleOp>::empty());
            }
        },
        None => {},
    }
}

} // verus!
