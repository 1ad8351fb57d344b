//! Right-click context menu for workspace sidebar entries: its actions
//! and labels, and the rows of the launch-profile flyout.

use crate::sidebar::SidebarEntry;
use crate::spawn_config::SpawnCommand;
use crate::text::str_eq;
use vstd::prelude::*;

verus! {

/// An action of the context menu.
#[derive(Clone, Copy, Debug, PartialEq, Eq)]
pub enum SidebarMenuAction {
    Rename,
    SetDefaultCwd,
    SetDefaultCommand,
    SetDefaultProfile,
    MoveUp,
    MoveDown,
    Remove,
}

/// Number of menu items.
pub const MENU_LEN: usize = 7;

/// The action at position `index` of the menu, in display order.
pub open spec fn menu_action(index: int) -> Option<SidebarMenuAction> {
    if index == 0 {
        Some(SidebarMenuAction::Rename)
    } else if index == 1 {
        Some(SidebarMenuAction::SetDefaultCwd)
    } else if index == 2 {
        Some(SidebarMenuAction::SetDefaultCommand)
    } else if index == 3 {
        Some(SidebarMenuAction::SetDefaultProfile)
    } else if index == 4 {
        Some(SidebarMenuAction::MoveUp)
    } else if index == 5 {
        Some(SidebarMenuAction::MoveDown)
    } else if index == 6 {
        Some(SidebarMenuAction::Remove)
    } else {
        None
    }
}

/// The position of `action` in the menu.
pub open spec fn menu_position(action: SidebarMenuAction) -> int {
    match action {
        SidebarMenuAction::Rename => 0,
        SidebarMenuAction::SetDefaultCwd => 1,
        SidebarMenuAction::SetDefaultCommand => 2,
        SidebarMenuAction::SetDefaultProfile => 3,
        SidebarMenuAction::MoveUp => 4,
        SidebarMenuAction::MoveDown => 5,
        SidebarMenuAction::Remove => 6,
    }
}

/// Menu positions and actions correspond one to one: every action has
/// its position below `MENU_LEN`, and every position below it holds the
/// action placed there.
pub proof fn lemma_menu_positions(action: SidebarMenuAction, index: int)
    ensures
        0 <= menu_position(action) < MENU_LEN,
        menu_action(menu_position(action)) == Some(action),
        (0 <= index < MENU_LEN) == menu_action(index) is Some,
        menu_action(index) matches Some(a) ==> menu_position(a) == index,
{
}

/// The label shown for `action`.
pub fn menu_label(action: SidebarMenuAction) -> (r: &'static str)
    ensures
        r@ == match action {
            SidebarMenuAction::Rename => "Rename workspace"@,
            SidebarMenuAction::SetDefaultCwd => "Set default directory"@,
            SidebarMenuAction::SetDefaultCommand => "Set default command"@,
            SidebarMenuAction::SetDefaultProfile => "Set default profile"@,
            SidebarMenuAction::MoveUp => "Move up"@,
            SidebarMenuAction::MoveDown => "Move down"@,
            SidebarMenuAction::Remove => "Remove from list"@,
        },
{
    match action {
        SidebarMenuAction::Rename => "Rename workspace",
        SidebarMenuAction::SetDefaultCwd => "Set default directory",
        SidebarMenuAction::SetDefaultCommand => "Set default command",
        SidebarMenuAction::SetDefaultProfile => "Set default profile",
        SidebarMenuAction::MoveUp => "Move up",
        SidebarMenuAction::MoveDown => "Move down",
        SidebarMenuAction::Remove => "Remove from list",
    }
}

/// The action at position `index` of the menu, if any; the index is
/// what a hit on a menu row carries.
pub fn menu_action_at(index: usize) -> (r: Option<SidebarMenuAction>)
    ensures
        r == menu_action(index as int),
{
    match index {
        0 => Some(SidebarMenuAction::Rename),
        1 => Some(SidebarMenuAction::SetDefaultCwd),
        2 => Some(SidebarMenuAction::SetDefaultCommand),
        3 => Some(SidebarMenuAction::SetDefaultProfile),
        4 => Some(SidebarMenuAction::MoveUp),
        5 => Some(SidebarMenuAction::MoveDown),
        6 => Some(SidebarMenuAction::Remove),
        _ => None,
    }
}

/// The position of `action` in the menu.
pub fn menu_index(action: SidebarMenuAction) -> (r: usize)
    ensures
        r as int == menu_position(action),
{
    match action {
        SidebarMenuAction::Rename => 0,
        SidebarMenuAction::SetDefaultCwd => 1,
        SidebarMenuAction::SetDefaultCommand => 2,
        SidebarMenuAction::SetDefaultProfile => 3,
        SidebarMenuAction::MoveUp => 4,
        SidebarMenuAction::MoveDown => 5,
        SidebarMenuAction::Remove => 6,
    }
}

/// One row in the "Set default profile" flyout.
#[derive(Clone, Debug, PartialEq, Eq)]
pub struct ProfileMenuEntry {
    pub label: String,
    /// `None` is the "Default shell" row: choosing it clears the
    /// workspace's runtime profile override.
    pub profile: Option<SpawnCommand>,
}


/// Whether the workspace a menu was opened on is still listed; the
/// window closes a menu whose workspace was renamed or removed, rather
/// than act on a ghost entry.
pub fn menu_target_listed(entries: &[SidebarEntry], workspace: &str) -> (r: bool)
    ensures
        r == exists|i: int| 0 <= i < entries@.len() && #[trigger] entries@[i].name@ == workspace@,
{
    let mut i: usize = 0;
    while i < entries.len()
        invariant
            i <= entries@.len(),
            forall|j: int| 0 <= j < i ==> entries@[j].name@ != workspace@,
        decreases entries@.len() - i,
    {
        if str_eq(entries[i].name.as_str(), workspace) {
            return true;
        }
        i = i + 1;
    }
    false
}

} // verus!
