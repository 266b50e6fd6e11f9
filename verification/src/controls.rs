//! User-facing actions of the display layer: the engine only names
//! them and describes them; dispatching them is the display layer's
//! business.

use vstd::prelude::*;

verus! {

/// An action a key or mouse binding can trigger.
#[derive(Debug, Clone, Copy, PartialEq, Eq, Structural)]
pub enum Action {
    CloseWindow,
    ToggleCursorVisibility,
    CreateNewWindow,
    ToggleResizeIncrements,
    ToggleImeInput,
    ToggleDecorations,
    ToggleResizable,
    ToggleFullscreen,
    ToggleMaximize,
    Minimize,
    NextCursor,
    NextCustomCursor,
    CycleCursorGrab,
    PrintHelp,
    DragWindow,
    DragResizeWindow,
    ShowWindowMenu,
}

/// The help line of each action.
pub open spec fn help_text(a: Action) -> Seq<char> {
    match a {
        Action::CloseWindow => "Close window"@,
        Action::ToggleCursorVisibility => "Hide cursor"@,
        Action::CreateNewWindow => "Create new window"@,
        Action::ToggleImeInput => "Toggle IME input"@,
        Action::ToggleDecorations => "Toggle decorations"@,
        Action::ToggleResizable => "Toggle window resizable state"@,
        Action::ToggleFullscreen => "Toggle fullscreen"@,
        Action::ToggleMaximize => "Maximize"@,
        Action::Minimize => "Minimize"@,
        Action::ToggleResizeIncrements => "Use resize increments when resizing window"@,
        Action::NextCursor => "Advance the cursor to the next value"@,
        Action::NextCustomCursor => "Advance custom cursor to the next value"@,
        Action::CycleCursorGrab => "Cycle through cursor grab mode"@,
        Action::PrintHelp => "Print help"@,
        Action::DragWindow => "Start window drag"@,
        Action::DragResizeWindow => "Start window drag-resize"@,
        Action::ShowWindowMenu => "Show window menu"@,
    }
}

impl Action {
    /// One help line describing the action.
    pub fn help(&self) -> (r: &'static str)
        ensures
            r@ == help_text(*self),
    {
        match self {
            Action::CloseWindow => "Close window",
            Action::ToggleCursorVisibility => "Hide cursor",
            Action::CreateNewWindow => "Create new window",
            Action::ToggleImeInput => "Toggle IME input",
            Action::ToggleDecorations => "Toggle decorations",
            Action::ToggleResizable => "Toggle window resizable state",
            Action::ToggleFullscreen => "Toggle fullscreen",
            Action::ToggleMaximize => "Maximize",
            Action::Minimize => "Minimize",
            Action::ToggleResizeIncrements => "Use resize increments when resizing window",
            Action::NextCursor => "Advance the cursor to the next value",
            Action::NextCustomCursor => "Advance custom cursor to the next value",
            Action::CycleCursorGrab => "Cycle through cursor grab mode",
            Action::PrintHelp => "Print help",
            Action::DragWindow => "Start window drag",
            Action::DragResizeWindow => "Start window drag-resize",
            Action::ShowWindowMenu => "Show window menu",
        }
    }
}

} // verus!
