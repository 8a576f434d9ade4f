use vstd::prelude::*;

use crate::engine::stable_id::StableId;

verus! {

/// What a key press does on the container screen.
#[derive(Clone, Copy, Debug, PartialEq, Eq, Structural)]
pub enum ContainerInput {
    Nothing,
    BackToExplore,
    TransferFromPlayer,
    TransferFromContainer,
}

/// Which list holds the focused entry, if any.
#[derive(Clone, Copy, Debug, PartialEq, Eq, Structural)]
pub enum FocusedList {
    Player,
    Container,
    Other,
}

/// `I` leaves the screen; `T` moves the focused item to the other side.
pub fn handle_container_input(i_pressed: bool, t_pressed: bool, focus: Option<FocusedList>) -> (r: ContainerInput)
    ensures
        r == if i_pressed {
            ContainerInput::BackToExplore
        } else if t_pressed && focus == Some(FocusedList::Player) {
            ContainerInput::TransferFromPlayer
        } else if t_pressed && focus == Some(FocusedList::Container) {
            ContainerInput::TransferFromContainer
        } else {
            ContainerInput::Nothing
        },
{
    if i_pressed {
        return ContainerInput::BackToExplore;
    }
    if t_pressed {
        match focus {
            Some(FocusedList::Player) => ContainerInput::TransferFromPlayer,
            Some(FocusedList::Container) => ContainerInput::TransferFromContainer,
            _ => ContainerInput::Nothing,
        }
    } else {
        ContainerInput::Nothing
    }
}

/// The item shown at position `index` of an inventory list, if the list is
/// that long.
pub fn item_at(item_ids: &Vec<u64>, index: usize) -> (id: Option<StableId>)
    ensures
        id == if index < item_ids@.len() {
            Some(StableId(item_ids@[index as int]))
        } else {
            None::<StableId>
        },
{
    if index < item_ids.len() {
        Some(StableId(item_ids[index]))
    } else {
        None
    }
}

} // verus!
