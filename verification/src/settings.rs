//! Selection state for the configuration-profile switcher. Directory
//! scanning, file reading, and the swap itself happen at the edge;
//! this state only tracks the list, the selection, and notifications.

use vstd::prelude::*;

use crate::clock::now_unix_millis;

verus! {

/// What kind of input the switcher is waiting for.
#[derive(Debug, Clone, Copy, PartialEq, Eq, Structural)]
pub enum InputMode {
    SelectProfile,
    ConfirmSwap,
    BackupRename,
}

/// One selectable profile file.
#[derive(Debug)]
pub struct ProfileEntry {
    /// Display name; the active profile is labelled.
    pub name: String,
    /// Path of the profile file, as text.
    pub path: String,
    pub is_active: bool,
}

/// Selection state of the profile switcher.
#[derive(Debug)]
pub struct SettingsState {
    pub profiles: Vec<ProfileEntry>,
    pub selected_index: usize,
    /// Text of the selected profile, refreshed by the caller after a
    /// selection move.
    pub preview_content: String,
    pub rename_input: String,
    pub input_mode: InputMode,
    /// A message and the millisecond clock reading when it was set.
    pub notification: Option<(String, u64)>,
}

impl SettingsState {
    /// An empty switcher waiting for a selection.
    pub fn new() -> (r: SettingsState)
        ensures
            r.profiles@.len() == 0,
            r.selected_index == 0,
            r.preview_content@.len() == 0,
            r.rename_input@.len() == 0,
            r.input_mode == InputMode::SelectProfile,
            r.notification is None,
    {
        SettingsState {
            profiles: Vec::new(),
            selected_index: 0,
            preview_content: String::new(),
            rename_input: String::new(),
            input_mode: InputMode::SelectProfile,
            notification: None,
        }
    }

    /// Moves the selection down one entry, staying on the last one.
    pub fn select_next(&mut self)
        ensures
            final(self).selected_index == if old(self).profiles@.len() > 0 && old(
                self,
            ).selected_index < old(self).profiles@.len() - 1 {
                old(self).selected_index + 1
            } else {
                old(self).selected_index as int
            },
            final(self).profiles == old(self).profiles,
            final(self).preview_content == old(self).preview_content,
            final(self).rename_input == old(self).rename_input,
            final(self).input_mode == old(self).input_mode,
            final(self).notification == old(self).notification,
    {
        if !self.profiles.is_empty() && self.selected_index < self.profiles.len() - 1 {
            self.selected_index = self.selected_index + 1;
        }
    }

    /// Moves the selection up one entry, staying on the first one.
    pub fn select_previous(&mut self)
        ensures
            final(self).selected_index == if old(self).selected_index > 0 {
                old(self).selected_index - 1
            } else {
                0int
            },
            final(self).profiles == old(self).profiles,
            final(self).preview_content == old(self).preview_content,
            final(self).rename_input == old(self).rename_input,
            final(self).input_mode == old(self).input_mode,
            final(self).notification == old(self).notification,
    {
        if self.selected_index > 0 {
            self.selected_index = self.selected_index - 1;
        }
    }

    /// The selected profile, if the selection is in range.
    pub fn get_selected_profile(&self) -> (r: Option<&ProfileEntry>)
        ensures
            match r {
                Some(p) => self.selected_index < self.profiles@.len() && p == &self.profiles@[
                    self.selected_index as int
                ],
                None => self.selected_index >= self.profiles@.len(),
            },
    {
        if self.selected_index < self.profiles.len() {
            Some(&self.profiles[self.selected_index])
        } else {
            None
        }
    }

    /// Shows a message, stamped with the current clock reading.
    pub fn set_notification(&mut self, message: String)
        ensures
            final(self).notification is Some,
            final(self).notification->Some_0.0 == message,
            final(self).profiles == old(self).profiles,
            final(self).selected_index == old(self).selected_index,
            final(self).preview_content == old(self).preview_content,
            final(self).rename_input == old(self).rename_input,
            final(self).input_mode == old(self).input_mode,
    {
        let stamp = now_unix_millis();
        self.notification = Some((message, stamp));
    }

    /// Drops a notification older than three seconds; whether one is
    /// old enough depends on the clock, so the notification either
    /// stays as it was or goes away.
    pub fn clear_expired_notifications(&mut self)
        ensures
            final(self).notification == old(self).notification || final(self).notification
                is None,
            old(self).notification is None ==> final(self).notification is None,
            final(self).profiles == old(self).profiles,
            final(self).selected_index == old(self).selected_index,
            final(self).preview_content == old(self).preview_content,
            final(self).rename_input == old(self).rename_input,
            final(self).input_mode == old(self).input_mode,
    {
        let expired = match &self.notification {
            Some(pair) => {
                let now = now_unix_millis();
                now >= pair.1 && now - pair.1 > 3000
            },
            None => true,
        };
        if expired {
            self.notification = None;
        }
    }
}

/// The profile-switcher module: its selection state, ready for a
/// caller to load profiles into and render.
#[derive(Debug)]
pub struct SettingsModule {
    pub state: SettingsState,
}

impl SettingsModule {
    /// A switcher with an empty profile list.
    pub fn new() -> (r: SettingsModule)
        ensures
            r.state.profiles@.len() == 0,
            r.state.selected_index == 0,
            r.state.input_mode == InputMode::SelectProfile,
            r.state.notification is None,
    {
        SettingsModule { state: SettingsState::new() }
    }
}

} // verus!
