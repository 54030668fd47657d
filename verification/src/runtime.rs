//! What the hotkey thread does with each action, and what the main thread
//! does with each command it receives. The threads, the channel and the
//! windows are run around the library.

use vstd::prelude::*;
use crate::app_state::AppCommand;
use crate::hotkey::HotkeyAction;

verus! {

/// The switches of the shared state that hotkeys and commands change.
#[derive(Debug, Clone, Copy, PartialEq, Eq, Structural)]
pub struct RuntimeFlags {
    /// Whether the settings window is open.
    pub settings_mode: bool,
    /// Whether real-time subtitles are on.
    pub subtitle_mode_active: bool,
    /// Whether the subtitle areas are previewed.
    pub subtitle_areas_preview_active: bool,
}

/// What the hotkey thread does for an action.
#[derive(Debug, Clone, Copy, PartialEq, Eq, Structural)]
pub enum HotkeyEffect {
    /// Nothing (the settings window is open).
    Ignore,
    /// Send a command to the main thread.
    Send(AppCommand),
    /// The preview of the subtitle areas was switched to the given state.
    PreviewSwitched(bool),
    /// Subtitle mode was switched to the given state.
    SubtitleModeSwitched(bool),
    /// Clear the translations shown.
    ClearTranslations,
    /// Start a translation of the given kind on a thread of its own.
    Translate(HotkeyAction),
}

/// The flags after a hotkey action, and what the hotkey thread does. While
/// the settings window is open every action but `OpenSettings` is ignored;
/// `OpenSettings` opens the window, or closes it when it is open.
pub open spec fn hotkey_step(flags: RuntimeFlags, action: HotkeyAction) -> (RuntimeFlags, HotkeyEffect) {
    if flags.settings_mode && action != HotkeyAction::OpenSettings {
        (flags, HotkeyEffect::Ignore)
    } else {
        match action {
            HotkeyAction::SelectRegion => (flags, HotkeyEffect::Send(AppCommand::OpenRegionSelector)),
            HotkeyAction::SelectSubtitleRegion => (
                flags,
                HotkeyEffect::Send(AppCommand::OpenSubtitleRegionSelector),
            ),
            HotkeyAction::ToggleSubtitleAreasPreview => (
                RuntimeFlags {
                    subtitle_areas_preview_active: !flags.subtitle_areas_preview_active,
                    ..flags
                },
                HotkeyEffect::PreviewSwitched(!flags.subtitle_areas_preview_active),
            ),
            HotkeyAction::HideTranslation => (flags, HotkeyEffect::ClearTranslations),
            HotkeyAction::ToggleSubtitleMode => (
                RuntimeFlags { subtitle_mode_active: !flags.subtitle_mode_active, ..flags },
                HotkeyEffect::SubtitleModeSwitched(!flags.subtitle_mode_active),
            ),
            HotkeyAction::TranslateFullScreen => (
                flags,
                HotkeyEffect::Translate(HotkeyAction::TranslateFullScreen),
            ),
            HotkeyAction::TranslateRegion => (
                flags,
                HotkeyEffect::Translate(HotkeyAction::TranslateRegion),
            ),
            HotkeyAction::OpenSettings => (
                flags,
                HotkeyEffect::Send(
                    if flags.settings_mode {
                        AppCommand::CloseSettings
                    } else {
                        AppCommand::OpenSettings
                    },
                ),
            ),
        }
    }
}

/// Applies a hotkey action to the flags (see `hotkey_step`).
pub fn dispatch_hotkey(flags: &mut RuntimeFlags, action: HotkeyAction) -> (e: HotkeyEffect)
    ensures
        (*final(flags), e) == hotkey_step(*old(flags), action),
{
    if flags.settings_mode && action != HotkeyAction::OpenSettings {
        return HotkeyEffect::Ignore;
    }
    match action {
        HotkeyAction::SelectRegion => HotkeyEffect::Send(AppCommand::OpenRegionSelector),
        HotkeyAction::SelectSubtitleRegion => HotkeyEffect::Send(
            AppCommand::OpenSubtitleRegionSelector,
        ),
        HotkeyAction::ToggleSubtitleAreasPreview => {
            flags.subtitle_areas_preview_active = !flags.subtitle_areas_preview_active;
            HotkeyEffect::PreviewSwitched(flags.subtitle_areas_preview_active)
        },
        HotkeyAction::HideTranslation => HotkeyEffect::ClearTranslations,
        HotkeyAction::ToggleSubtitleMode => {
            flags.subtitle_mode_active = !flags.subtitle_mode_active;
            HotkeyEffect::SubtitleModeSwitched(flags.subtitle_mode_active)
        },
        HotkeyAction::TranslateFullScreen => HotkeyEffect::Translate(
            HotkeyAction::TranslateFullScreen,
        ),
        HotkeyAction::TranslateRegion => HotkeyEffect::Translate(HotkeyAction::TranslateRegion),
        HotkeyAction::OpenSettings => {
            if flags.settings_mode {
                HotkeyEffect::Send(AppCommand::CloseSettings)
            } else {
                HotkeyEffect::Send(AppCommand::OpenSettings)
            }
        },
    }
}

/// A toggling hotkey pressed twice leaves the flags as they were.
pub proof fn law_toggle_twice(flags: RuntimeFlags, action: HotkeyAction)
    requires
        action == HotkeyAction::ToggleSubtitleMode || action
            == HotkeyAction::ToggleSubtitleAreasPreview,
    ensures
        hotkey_step(hotkey_step(flags, action).0, action).0 == flags,
{
}

/// While the settings window is open, no hotkey but the settings one does
/// anything.
pub proof fn law_settings_mode_blocks(flags: RuntimeFlags, action: HotkeyAction)
    requires
        flags.settings_mode,
        action != HotkeyAction::OpenSettings,
    ensures
        hotkey_step(flags, action) == (flags, HotkeyEffect::Ignore),
{
}

/// The settings session kept by the main thread: whether the window is open,
/// the tab shown, whether a status message is shown, and whether the window
/// was placed since it opened.
#[derive(Debug, Clone, Copy, PartialEq, Eq, Structural)]
pub struct SettingsSession {
    /// Whether a copy of the settings is being edited.
    pub editing: bool,
    /// The tab shown.
    pub tab: u8,
    /// Whether a status message is shown.
    pub has_status: bool,
    /// Whether the window was placed since it opened.
    pub positioned: bool,
}

/// What the main thread does for a command.
#[derive(Debug, Clone, Copy, PartialEq, Eq, Structural)]
pub enum CommandEffect {
    /// Hide the overlay and run the region selector; a selection becomes the
    /// capture region.
    SelectCaptureRegion,
    /// Hide the overlay and run the region selector; a selection becomes the
    /// subtitle region.
    SelectSubtitleRegion,
    /// Copy the current settings for editing.
    BeginEditing,
    /// Give the overlay back its borderless, fixed-size window.
    RestoreOverlay,
}

/// The flags and the settings session after a command, and what the main
/// thread does: opening the settings switches settings mode on, starts
/// editing on the first tab with no status; closing switches it off, stops
/// editing and forgets the window's placement.
pub open spec fn command_step(flags: RuntimeFlags, session: SettingsSession, command: AppCommand) -> (
    RuntimeFlags,
    SettingsSession,
    CommandEffect,
) {
    match command {
        AppCommand::OpenRegionSelector => (flags, session, CommandEffect::SelectCaptureRegion),
        AppCommand::OpenSubtitleRegionSelector => (
            flags,
            session,
            CommandEffect::SelectSubtitleRegion,
        ),
        AppCommand::OpenSettings => (
            RuntimeFlags { settings_mode: true, ..flags },
            SettingsSession { editing: true, tab: 0, has_status: false, ..session },
            CommandEffect::BeginEditing,
        ),
        AppCommand::CloseSettings => (
            RuntimeFlags { settings_mode: false, ..flags },
            SettingsSession { editing: false, positioned: false, ..session },
            CommandEffect::RestoreOverlay,
        ),
    }
}

/// Applies a command (see `command_step`).
pub fn apply_command(
    flags: &mut RuntimeFlags,
    session: &mut SettingsSession,
    command: AppCommand,
) -> (e: CommandEffect)
    ensures
        (*final(flags), *final(session), e) == command_step(*old(flags), *old(session), command),
{
    match command {
        AppCommand::OpenRegionSelector => CommandEffect::SelectCaptureRegion,
        AppCommand::OpenSubtitleRegionSelector => CommandEffect::SelectSubtitleRegion,
        AppCommand::OpenSettings => {
            flags.settings_mode = true;
            session.editing = true;
            session.tab = 0;
            session.has_status = false;
            CommandEffect::BeginEditing
        },
        AppCommand::CloseSettings => {
            flags.settings_mode = false;
            session.editing = false;
            session.positioned = false;
            CommandEffect::RestoreOverlay
        },
    }
}

/// The settings hotkey pressed with the window closed asks to open it, and
/// once the main thread has opened it, pressing it again asks to close it;
/// closing ends settings mode.
pub proof fn law_settings_round_trip(flags: RuntimeFlags, session: SettingsSession)
    requires
        !flags.settings_mode,
    ensures
        ({
            let (f1, e1) = hotkey_step(flags, HotkeyAction::OpenSettings);
            let (f2, s2, _) = command_step(f1, session, AppCommand::OpenSettings);
            let (f3, e3) = hotkey_step(f2, HotkeyAction::OpenSettings);
            let (f4, s4, _) = command_step(f3, s2, AppCommand::CloseSettings);
            &&& e1 == HotkeyEffect::Send(AppCommand::OpenSettings)
            &&& e3 == HotkeyEffect::Send(AppCommand::CloseSettings)
            &&& !f4.settings_mode
            &&& !s4.editing
        }),
{
}

/// Least time between two reloads of the settings file, in milliseconds.
pub const CONFIG_RELOAD_DEBOUNCE_MS: u128 = 500;

/// Whether a change of the settings file triggers a reload: only a
/// modification does, and only when the last reload was at least
/// `CONFIG_RELOAD_DEBOUNCE_MS` ago.
pub fn config_reload_due(is_modification: bool, since_last_reload_ms: u128) -> (r: bool)
    ensures
        r == (is_modification && since_last_reload_ms >= CONFIG_RELOAD_DEBOUNCE_MS),
{
    is_modification && since_last_reload_ms >= CONFIG_RELOAD_DEBOUNCE_MS
}

} // verus!
