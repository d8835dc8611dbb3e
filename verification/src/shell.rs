//! The application shell's decisions: window titles, what closing a window
//! or a tray action leads to, and when settings are written back.

use vstd::prelude::*;

verus! {

/// The kinds of windows the application opens (at most one of each).
#[derive(Debug, Clone, Copy, PartialEq, Eq, Structural)]
pub enum WindowKind {
    Main,
    Settings,
    BulbSetup,
    ProfileDialog,
    CapturePicker,
}

/// The title a window is given by the system.
pub open spec fn window_title_spec(kind: Option<WindowKind>) -> Seq<char> {
    match kind {
        Some(WindowKind::Main) => "Cocuyo"@,
        Some(WindowKind::Settings) => "Cocuyo - Settings"@,
        Some(WindowKind::BulbSetup) => "Cocuyo - Bulb Setup"@,
        Some(WindowKind::ProfileDialog) => "Cocuyo - Profiles"@,
        Some(WindowKind::CapturePicker) => "Cocuyo - Select Target"@,
        None => ""@,
    }
}

/// The title shown in a window's own title bar.
pub open spec fn header_title_spec(kind: Option<WindowKind>) -> Seq<char> {
    match kind {
        Some(WindowKind::Main) => "Cocuyo"@,
        Some(WindowKind::Settings) => "Settings"@,
        Some(WindowKind::BulbSetup) => "Bulb Setup"@,
        Some(WindowKind::ProfileDialog) => "Profiles"@,
        Some(WindowKind::CapturePicker) => "Select Capture Target"@,
        None => ""@,
    }
}

/// The system title of a window of the given kind (empty for an unknown window).
pub fn window_title(kind: Option<WindowKind>) -> (s: &'static str)
    ensures
        s@ == window_title_spec(kind),
{
    match kind {
        Some(WindowKind::Main) => "Cocuyo",
        Some(WindowKind::Settings) => "Cocuyo - Settings",
        Some(WindowKind::BulbSetup) => "Cocuyo - Bulb Setup",
        Some(WindowKind::ProfileDialog) => "Cocuyo - Profiles",
        Some(WindowKind::CapturePicker) => "Cocuyo - Select Target",
        None => "",
    }
}

/// The title-bar text of a window of the given kind (empty for an unknown window).
pub fn header_title(kind: Option<WindowKind>) -> (s: &'static str)
    ensures
        s@ == header_title_spec(kind),
{
    match kind {
        Some(WindowKind::Main) => "Cocuyo",
        Some(WindowKind::Settings) => "Settings",
        Some(WindowKind::BulbSetup) => "Bulb Setup",
        Some(WindowKind::ProfileDialog) => "Profiles",
        Some(WindowKind::CapturePicker) => "Select Capture Target",
        None => "",
    }
}

/// What closing the main window leads to.
#[derive(Debug, Clone, Copy, PartialEq, Eq, Structural)]
pub enum MainClose {
    /// The closed window was not the main window.
    NotMain,
    /// Keep running in the tray.
    HideToTray,
    /// Restore the lights and exit.
    Shutdown,
}

/// What the application does after a window closed.
#[derive(Debug, Clone, Copy, PartialEq, Eq, Structural)]
pub struct CloseOutcome {
    /// Forget the capture picker's state.
    pub drop_picker: bool,
    /// Forget the profile dialog's state.
    pub drop_profile_dialog: bool,
    /// Write pending settings to disk.
    pub flush_config: bool,
    pub main: MainClose,
}

/// Decide what closing a window (of kind `kind`, if it was known) leads to:
/// the picker is dropped; the profile dialog is dropped and, like the
/// settings and bulb setup windows, flushes the settings; closing the main
/// window hides the application to the tray when a tray exists and the user
/// asked for it (setting or tray toggle), and shuts it down otherwise.
pub fn on_window_closed(
    kind: Option<WindowKind>,
    tray_enabled: bool,
    minimize_to_tray: bool,
    tray_hide_requested: bool,
) -> (out: CloseOutcome)
    ensures
        out.drop_picker == (kind == Some(WindowKind::CapturePicker)),
        out.drop_profile_dialog == (kind == Some(WindowKind::ProfileDialog)),
        out.flush_config == (kind == Some(WindowKind::Settings) || kind == Some(WindowKind::BulbSetup) || kind == Some(
            WindowKind::ProfileDialog,
        )),
        out.main == if kind != Some(WindowKind::Main) {
            MainClose::NotMain
        } else if tray_enabled && (minimize_to_tray || tray_hide_requested) {
            MainClose::HideToTray
        } else {
            MainClose::Shutdown
        },
{
    match kind {
        Some(WindowKind::CapturePicker) => CloseOutcome {
            drop_picker: true,
            drop_profile_dialog: false,
            flush_config: false,
            main: MainClose::NotMain,
        },
        Some(WindowKind::ProfileDialog) => CloseOutcome {
            drop_picker: false,
            drop_profile_dialog: true,
            flush_config: true,
            main: MainClose::NotMain,
        },
        Some(WindowKind::Settings) | Some(WindowKind::BulbSetup) => CloseOutcome {
            drop_picker: false,
            drop_profile_dialog: false,
            flush_config: true,
            main: MainClose::NotMain,
        },
        Some(WindowKind::Main) => CloseOutcome {
            drop_picker: false,
            drop_profile_dialog: false,
            flush_config: false,
            main: if tray_enabled && (minimize_to_tray || tray_hide_requested) {
                MainClose::HideToTray
            } else {
                MainClose::Shutdown
            },
        },
        None => CloseOutcome { drop_picker: false, drop_profile_dialog: false, flush_config: false, main: MainClose::NotMain },
    }
}

/// Actions offered by the tray menu.
#[derive(Debug, Clone, Copy, PartialEq, Eq, Structural)]
pub enum TrayAction {
    ToggleWindow,
    ToggleAmbient,
    Exit,
}

/// What a tray action leads to.
#[derive(Debug, Clone, Copy, PartialEq, Eq, Structural)]
pub enum TrayResponse {
    /// Close the main window, keeping the application in the tray.
    HideMainWindow,
    /// Open the main window.
    OpenMainWindow,
    StopAmbient,
    StartAmbient,
    Shutdown,
}

/// Decide what a tray action does: toggling the window hides an open main
/// window and opens a closed one; toggling ambient stops it when active and
/// starts it otherwise; exit shuts down.
pub fn on_tray_action(action: TrayAction, main_window_open: bool, ambient_active: bool) -> (out: TrayResponse)
    ensures
        out == match action {
            TrayAction::ToggleWindow => if main_window_open { TrayResponse::HideMainWindow } else { TrayResponse::OpenMainWindow },
            TrayAction::ToggleAmbient => if ambient_active { TrayResponse::StopAmbient } else { TrayResponse::StartAmbient },
            TrayAction::Exit => TrayResponse::Shutdown,
        },
{
    match action {
        TrayAction::ToggleWindow => if main_window_open { TrayResponse::HideMainWindow } else { TrayResponse::OpenMainWindow },
        TrayAction::ToggleAmbient => if ambient_active { TrayResponse::StopAmbient } else { TrayResponse::StartAmbient },
        TrayAction::Exit => TrayResponse::Shutdown,
    }
}

/// Whether settings changed since they were last written.
#[derive(Debug)]
pub struct ConfigDirty {
    dirty: bool,
}

impl ConfigDirty {
    /// Settings changed and are not written yet.
    pub closed spec fn pending(self) -> bool {
        self.dirty
    }

    /// Nothing to write.
    pub fn new() -> (out: Self)
        ensures
            !out.pending(),
    {
        ConfigDirty { dirty: false }
    }

    /// Record a change to the settings.
    pub fn mark(&mut self)
        ensures
            final(self).pending(),
    {
        self.dirty = true;
    }

    /// Whether the settings must be written now; afterwards nothing is pending.
    pub fn take_flush(&mut self) -> (write: bool)
        ensures
            write == old(self).pending(),
            !final(self).pending(),
    {
        let write = self.dirty;
        self.dirty = false;
        write
    }
}

} // verus!
