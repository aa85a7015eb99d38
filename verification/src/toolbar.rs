use vstd::prelude::*;

use crate::food::FoodType;

verus! {

/// The food kind that a click into the world drops.
#[derive(Clone, Copy, PartialEq, Eq, Structural, Debug)]
pub struct SelectedFood {
    pub selected: FoodType,
}

/// The state a toolbar button reports when the pointer interacts with it.
#[derive(Clone, Copy, PartialEq, Eq, Structural, Debug)]
pub enum ButtonInteraction {
    Pressed,
    Hovered,
    Idle,
}

/// A request to drop food of kind `food_type` at `position`.
#[derive(PartialEq, Eq, Debug)]
pub struct DropRequest<P> {
    pub position: P,
    pub food_type: FoodType,
}

/// The selection after a batch of button interactions: the food of the last
/// pressed button, or `current` if no button was pressed.
pub open spec fn selection_after(
    current: FoodType,
    changes: Seq<(ButtonInteraction, FoodType)>,
) -> FoodType
    decreases changes.len(),
{
    if changes.len() == 0 {
        current
    } else {
        let last = changes.last();
        if last.0 is Pressed {
            last.1
        } else {
            selection_after(current, changes.drop_last())
        }
    }
}

impl SelectedFood {
    /// Reacts to one toolbar button: pressing it selects its food, hovering
    /// or leaving it changes nothing.
    pub fn apply_interaction(&mut self, interaction: ButtonInteraction, button: FoodType)
        ensures
            final(self).selected == (if interaction is Pressed {
                button
            } else {
                old(self).selected
            }),
    {
        match interaction {
            ButtonInteraction::Pressed => {
                self.selected = button;
            },
            ButtonInteraction::Hovered => {},
            ButtonInteraction::Idle => {},
        }
    }

    /// Reacts to the toolbar buttons whose state changed this frame, in order.
    pub fn apply_interactions(&mut self, changes: &[(ButtonInteraction, FoodType)])
        ensures
            final(self).selected == selection_after(old(self).selected, changes@),
    {
        let ghost start = self.selected;
        let n: usize = changes.len();
        let mut i: usize = 0;
        while i < n
            invariant
                n == changes@.len(),
                i <= n,
                self.selected == selection_after(start, changes@.take(i as int)),
            decreases n - i,
        {
            assert(changes@.take(i + 1).drop_last() =~= changes@.take(i as int));
            let (interaction, button) = changes[i];
            self.apply_interaction(interaction, button);
            i = i + 1;
        }
        assert(changes@.take(n as int) =~= changes@);
    }

    /// The drop that a frame's mouse input asks for: only a fresh left click
    /// whose cursor maps to a world position drops food, and it drops the
    /// selected kind there.
    pub fn drop_request<P>(&self, left_just_pressed: bool, world_position: Option<P>) -> (r: Option<
        DropRequest<P>,
    >)
        ensures
            r == (if left_just_pressed && world_position is Some {
                Some(DropRequest { position: world_position.unwrap(), food_type: self.selected })
            } else {
                None
            }),
    {
        if !left_just_pressed {
            return None;
        }
        match world_position {
            Some(position) => Some(DropRequest { position, food_type: self.selected }),
            None => None,
        }
    }
}

/// After a batch of interactions in which some button was pressed, the food
/// of the last pressed button is selected.
pub proof fn lemma_last_press_wins(
    current: FoodType,
    changes: Seq<(ButtonInteraction, FoodType)>,
    k: int,
)
    requires
        0 <= k < changes.len(),
        changes[k].0 is Pressed,
        forall|j: int| k < j < changes.len() ==> !(#[trigger] changes[j].0 is Pressed),
    ensures
        selection_after(current, changes) == changes[k].1,
    decreases changes.len(),
{
    if k < changes.len() - 1 {
        let pre = changes.drop_last();
        assert forall|j: int| k < j < pre.len() implies !(#[trigger] pre[j].0 is Pressed) by {
            assert(pre[j] == changes[j]);
        }
        lemma_last_press_wins(current, pre, k);
    }
}

/// Without a press the selection stays.
pub proof fn lemma_no_press_keeps_selection(
    current: FoodType,
    changes: Seq<(ButtonInteraction, FoodType)>,
)
    requires
        forall|j: int| 0 <= j < changes.len() ==> !(#[trigger] changes[j].0 is Pressed),
    ensures
        selection_after(current, changes) == current,
    decreases changes.len(),
{
    if changes.len() > 0 {
        let pre = changes.drop_last();
        assert forall|j: int| 0 <= j < pre.len() implies !(#[trigger] pre[j].0 is Pressed) by {
            assert(pre[j] == changes[j]);
        }
        lemma_no_press_keeps_selection(current, pre);
    }
}

} // verus!
