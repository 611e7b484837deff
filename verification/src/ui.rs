//! The UI surface the demo reads and writes: the button's interaction state
//! with its press-edge test, and the three-fact info text updated in place.

use vstd::prelude::*;

verus! {

/// The state of the reload button's click interaction, read each frame and
/// never written by the demo.
#[derive(Clone, Copy, Debug, PartialEq, Eq, Structural)]
pub enum Interaction {
    Pressed,
    Hovered,
    Idle,
}

/// A press edge: the interaction changed this frame and the new state is
/// "pressed". Holding the button keeps the state at "pressed" without a
/// change, so a held button produces no further edges.
pub open spec fn spec_pressed_edge(prev: Interaction, curr: Interaction) -> bool {
    curr == Interaction::Pressed && prev != Interaction::Pressed
}

/// Decides whether this frame saw a press edge.
pub fn pressed_edge(prev: Interaction, curr: Interaction) -> (r: bool)
    ensures
        r == spec_pressed_edge(prev, curr),
{
    curr == Interaction::Pressed && !(prev == Interaction::Pressed)
}

/// The fixed label opening the entity section of the info text.
pub open spec fn entity_label() -> Seq<char> {
    "Entity: "@
}

/// The fixed label opening the texture-handle section of the info text.
pub open spec fn texture_label() -> Seq<char> {
    "\nTexture: "@
}

/// The fixed label opening the load-status section of the info text.
pub open spec fn status_heading() -> Seq<char> {
    "\nTexture Load Status: "@
}

/// The persistent info text node: six pre-allocated sections, the even ones
/// fixed labels, the odd ones values rewritten each frame.
pub struct InfoText {
    pub sections: Vec<String>,
}

impl InfoText {
    /// The node's shape never changes: six sections with the labels in
    /// place.
    pub open spec fn wf(self) -> bool {
        &&& self.sections@.len() == 6
        &&& self.sections@[0]@ == entity_label()
        &&& self.sections@[2]@ == texture_label()
        &&& self.sections@[4]@ == status_heading()
    }

    /// Rewrites one section's text in place, leaving the others alone.
    pub fn set_section(&mut self, i: usize, v: String)
        requires
            i < old(self).sections@.len(),
        ensures
            final(self).sections@.len() == old(self).sections@.len(),
            final(self).sections@[i as int] == v,
            forall|j: int|
                0 <= j < old(self).sections@.len() && j != i ==> final(self).sections@[j] == old(
                    self,
                ).sections@[j],
    {
        let _prev = self.sections.remove(i);
        self.sections.insert(i, v);
        proof {
            assert forall|j: int|
                0 <= j < old(self).sections@.len() && j != i implies #[trigger] self.sections@[j]
                == old(self).sections@[j] by {
                assert(self.sections@[j] == old(self).sections@.remove(i as int).insert(
                    i as int,
                    self.sections@[i as int],
                )[j]);
            }
        }
    }

    /// The info text as first built: labels in place, value sections empty.
    pub fn new() -> (t: InfoText)
        ensures
            t.wf(),
            t.sections@[1]@ == Seq::<char>::empty(),
            t.sections@[3]@ == Seq::<char>::empty(),
            t.sections@[5]@ == Seq::<char>::empty(),
    {
        let mut sections: Vec<String> = Vec::new();
        sections.push(String::from_str("Entity: "));
        sections.push(String::new());
        sections.push(String::from_str("\nTexture: "));
        sections.push(String::new());
        sections.push(String::from_str("\nTexture Load Status: "));
        sections.push(String::new());
        InfoText { sections }
    }
}

} // verus!
