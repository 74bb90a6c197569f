//! Drawing actions and the table that assigns them to symbols. Distances and
//! angles are opaque scalar payloads: the engine routes them to the renderer
//! untouched and never interprets them numerically.

use vstd::prelude::*;

verus! {

/// An opaque numeric payload, for example the bit pattern of an IEEE-754
/// double. The engine and the turtle never interpret it; the renderer that
/// supplies it decides what the bits mean.
#[derive(Debug, Clone, Copy, PartialEq, Eq, Structural)]
pub struct Scalar {
    /// The raw payload.
    pub bits: u64,
}

/// Defines the actions that L-system symbols can correspond to.
#[derive(Debug, Clone, Copy, PartialEq, Eq, Structural)]
pub enum Action {
    /// Draw forward by a certain distance.
    Forward(Scalar),
    /// Draw backwards by a certain distance.
    Backwards(Scalar),
    /// Rotate the drawing head by a certain angle; by convention a positive
    /// angle means counterclockwise rotation.
    Rotate(Scalar),
    /// Push the state of the drawing head on the stack.
    StackPush,
    /// Pop a drawing head state from the stack and resume drawing with it.
    StackPop,
}

/// The mapping described by a sequence of bindings: a later binding for the
/// same symbol shadows an earlier one.
pub open spec fn table_of(entries: Seq<(char, Action)>) -> Map<char, Action>
    decreases entries.len(),
{
    if entries.len() == 0 {
        Map::empty()
    } else {
        table_of(entries.drop_last()).insert(entries.last().0, entries.last().1)
    }
}

/// Mapping from symbol to drawing action; symbols absent from the table are
/// no-ops during turtle interpretation.
#[derive(Debug)]
pub struct ActionTable {
    entries: Vec<(char, Action)>,
}

impl View for ActionTable {
    type V = Map<char, Action>;

    closed spec fn view(&self) -> Map<char, Action> {
        table_of(self.entries@)
    }
}

impl ActionTable {
    /// Create a table from a sequence of bindings; a later binding for the
    /// same symbol shadows an earlier one.
    pub fn new(entries: Vec<(char, Action)>) -> (t: ActionTable)
        ensures
            t@ == table_of(entries@),
    {
        ActionTable { entries }
    }

    /// Look up the action bound to a symbol.
    pub fn get(&self, c: char) -> (r: Option<Action>)
        ensures
            r == (if self@.dom().contains(c) {
                Some(self@[c])
            } else {
                None::<Action>
            }),
    {
        let mut i: usize = self.entries.len();
        while i > 0
            invariant
                i <= self.entries.len(),
                forall|k: int|
                    i <= k < self.entries@.len() ==> (#[trigger] self.entries@[k]).0 != c,
            decreases i,
        {
            i = i - 1;
            let (key, act) = self.entries[i];
            if key == c {
                proof {
                    lemma_table_of_found(self.entries@, i as int, c);
                }
                return Some(act);
            }
        }
        proof {
            lemma_table_of_absent(self.entries@, c);
        }
        None
    }
}

proof fn lemma_table_of_found(entries: Seq<(char, Action)>, i: int, c: char)
    requires
        0 <= i < entries.len(),
        entries[i].0 == c,
        forall|k: int| i < k < entries.len() ==> (#[trigger] entries[k]).0 != c,
    ensures
        table_of(entries).dom().contains(c),
        table_of(entries)[c] == entries[i].1,
    decreases entries.len(),
{
    if i < entries.len() - 1 {
        lemma_table_of_found(entries.drop_last(), i, c);
    }
}

proof fn lemma_table_of_absent(entries: Seq<(char, Action)>, c: char)
    requires
        forall|k: int| 0 <= k < entries.len() ==> (#[trigger] entries[k]).0 != c,
    ensures
        !table_of(entries).dom().contains(c),
    decreases entries.len(),
{
    if entries.len() > 0 {
        lemma_table_of_absent(entries.drop_last(), c);
    }
}

} // verus!
