//! What the keys do: which page is shown, which finding is selected, and
//! when the application ends.

use vstd::prelude::*;
use crate::findings::FindingKind;
use crate::state::State;

verus! {

/// The keys that do something.
#[derive(Clone, Copy, Debug, PartialEq, Eq, Structural)]
pub enum KeyCode {
    Esc,
    Char(char),
    Up,
    Down,
    Left,
    Right,
    PageUp,
    PageDown,
    Other,
}

/// A key that was pressed, and whether the control key, and it alone, was
/// held with it.
#[derive(Clone, Copy, Debug, PartialEq, Eq, Structural)]
pub struct Key {
    pub code: KeyCode,
    pub control: bool,
}

/// What a key asks of the page of logs.
#[derive(Clone, Copy, Debug, PartialEq, Eq, Structural)]
pub enum LoggerKey {
    Space,
    Escape,
    PrevPage,
    NextPage,
    Up,
    Down,
    Left,
    Right,
    Plus,
    Minus,
    Hide,
    Focus,
}

/// What is left to do after a key was handled.
#[derive(Clone, Copy, Debug, PartialEq, Eq, Structural)]
pub enum KeyAction {
    /// Nothing.
    Nothing,
    /// The application is to be told to quit.
    Quit,
    /// The page of logs is to be told of a key.
    Logger(LoggerKey),
}

/// What a key may change: the finding that is selected, the pages that
/// are shown, and what is left to do.
pub struct KeyEffect {
    pub selected_finding: Option<usize>,
    pub show_fix_popup: bool,
    pub show_settings_page: bool,
    pub show_logs_page: bool,
    pub action: KeyAction,
}

/// What a key asks of the page of logs.
pub open spec fn logger_key(code: KeyCode) -> Option<LoggerKey> {
    match code {
        KeyCode::Char(c) => if c == ' ' {
            Some(LoggerKey::Space)
        } else if c == 'q' {
            Some(LoggerKey::Escape)
        } else if c == '+' {
            Some(LoggerKey::Plus)
        } else if c == '-' {
            Some(LoggerKey::Minus)
        } else if c == 'h' {
            Some(LoggerKey::Hide)
        } else if c == 'f' {
            Some(LoggerKey::Focus)
        } else {
            None
        },
        KeyCode::PageUp => Some(LoggerKey::PrevPage),
        KeyCode::PageDown => Some(LoggerKey::NextPage),
        KeyCode::Up => Some(LoggerKey::Up),
        KeyCode::Down => Some(LoggerKey::Down),
        KeyCode::Left => Some(LoggerKey::Left),
        KeyCode::Right => Some(LoggerKey::Right),
        _ => None,
    }
}

/// The finding that is selected after a key that moves the selection,
/// among `count` findings. Up and down go round by way of no selection;
/// page up and page down go to the first and the last finding. Without
/// findings nothing is selected anew.
pub open spec fn moved_selection(selected: Option<usize>, count: nat, code: KeyCode) -> Option<
    usize,
> {
    if count == 0 {
        selected
    } else {
        match code {
            KeyCode::Up => match selected {
                Some(at) => if at > 0 {
                    Some((at - 1) as usize)
                } else {
                    None
                },
                None => Some((count - 1) as usize),
            },
            KeyCode::Down => match selected {
                Some(at) => if at < count - 1 {
                    Some((at + 1) as usize)
                } else {
                    None
                },
                None => Some(0),
            },
            KeyCode::PageUp => Some(0),
            KeyCode::PageDown => Some((count - 1) as usize),
            _ => selected,
        }
    }
}

impl State {
    /// Tells whether a bad finding is selected.
    pub open spec fn bad_selected(&self) -> bool {
        self.selected_finding matches Some(at) && at < self.findings@.len()
            && self.findings@[at as int].kind == FindingKind::Bad
    }

    /// What a key does in this state. While a popup or a page is shown,
    /// escape closes it, the page of logs is told of its keys, and no other
    /// key does anything. Otherwise escape and control-c quit, `f` opens the
    /// popup of fixes for a bad finding that is selected, `l` and `s` open
    /// the pages of logs and settings, and the arrows and page keys move the
    /// selection.
    pub open spec fn key_effect(&self, key: Key) -> KeyEffect {
        let unchanged = KeyEffect {
            selected_finding: self.selected_finding,
            show_fix_popup: self.show_fix_popup,
            show_settings_page: self.show_settings_page,
            show_logs_page: self.show_logs_page,
            action: KeyAction::Nothing,
        };
        if self.show_fix_popup {
            KeyEffect { show_fix_popup: key.code != KeyCode::Esc, ..unchanged }
        } else if self.show_settings_page {
            KeyEffect { show_settings_page: key.code != KeyCode::Esc, ..unchanged }
        } else if self.show_logs_page {
            if key.code == KeyCode::Esc {
                KeyEffect { show_logs_page: false, ..unchanged }
            } else {
                match logger_key(key.code) {
                    Some(k) => KeyEffect { action: KeyAction::Logger(k), ..unchanged },
                    None => unchanged,
                }
            }
        } else {
            match key.code {
                KeyCode::Esc => KeyEffect { action: KeyAction::Quit, ..unchanged },
                KeyCode::Char(c) => if (c == 'c' || c == 'C') && key.control {
                    KeyEffect { action: KeyAction::Quit, ..unchanged }
                } else if c == 'f' {
                    KeyEffect { show_fix_popup: self.bad_selected(), ..unchanged }
                } else if c == 'l' {
                    KeyEffect { show_logs_page: true, ..unchanged }
                } else if c == 's' {
                    KeyEffect { show_settings_page: true, ..unchanged }
                } else {
                    unchanged
                },
                _ => KeyEffect {
                    selected_finding: moved_selection(
                        self.selected_finding,
                        self.findings@.len(),
                        key.code,
                    ),
                    ..unchanged
                },
            }
        }
    }

    /// Handles a key.
    pub fn handle_key_event(&mut self, key: Key) -> (action: KeyAction)
        ensures
            action == old(self).key_effect(key).action,
            final(self).selected_finding == old(self).key_effect(key).selected_finding,
            final(self).show_fix_popup == old(self).key_effect(key).show_fix_popup,
            final(self).show_settings_page == old(self).key_effect(key).show_settings_page,
            final(self).show_logs_page == old(self).key_effect(key).show_logs_page,
            final(self).is_running == old(self).is_running,
            final(self).findings == old(self).findings,
            final(self).host_mapping == old(self).host_mapping,
            final(self).lxc_configs == old(self).lxc_configs,
            final(self).rootfs_info == old(self).rootfs_info,
    {
        if self.show_fix_popup {
            match key.code {
                KeyCode::Esc => {
                    self.show_fix_popup = false;
                },
                _ => {},
            }
            return KeyAction::Nothing;
        }
        if self.show_settings_page {
            match key.code {
                KeyCode::Esc => {
                    self.show_settings_page = false;
                },
                _ => {},
            }
            return KeyAction::Nothing;
        }
        if self.show_logs_page {
            return match key.code {
                KeyCode::Esc => {
                    self.show_logs_page = false;
                    KeyAction::Nothing
                },
                KeyCode::Char(c) => if c == ' ' {
                    KeyAction::Logger(LoggerKey::Space)
                } else if c == 'q' {
                    KeyAction::Logger(LoggerKey::Escape)
                } else if c == '+' {
                    KeyAction::Logger(LoggerKey::Plus)
                } else if c == '-' {
                    KeyAction::Logger(LoggerKey::Minus)
                } else if c == 'h' {
                    KeyAction::Logger(LoggerKey::Hide)
                } else if c == 'f' {
                    KeyAction::Logger(LoggerKey::Focus)
                } else {
                    KeyAction::Nothing
                },
                KeyCode::PageUp => KeyAction::Logger(LoggerKey::PrevPage),
                KeyCode::PageDown => KeyAction::Logger(LoggerKey::NextPage),
                KeyCode::Up => KeyAction::Logger(LoggerKey::Up),
                KeyCode::Down => KeyAction::Logger(LoggerKey::Down),
                KeyCode::Left => KeyAction::Logger(LoggerKey::Left),
                KeyCode::Right => KeyAction::Logger(LoggerKey::Right),
                KeyCode::Other => KeyAction::Nothing,
            };
        }
        let count = self.findings.len();
        match key.code {
            KeyCode::Esc => KeyAction::Quit,
            KeyCode::Char(c) => {
                if (c == 'c' || c == 'C') && key.control {
                    return KeyAction::Quit;
                }
                if c == 'f' {
                    let bad = match self.selected_finding {
                        Some(at) => at < count && self.findings[at].kind == FindingKind::Bad,
                        None => false,
                    };
                    if bad {
                        self.show_fix_popup = true;
                    }
                } else if c == 'l' {
                    self.show_logs_page = true;
                } else if c == 's' {
                    self.show_settings_page = true;
                }
                KeyAction::Nothing
            },
            KeyCode::Up => {
                if count != 0 {
                    self.selected_finding = match self.selected_finding {
                        Some(at) => if at > 0 {
                            Some(at - 1)
                        } else {
                            None
                        },
                        None => Some(count - 1),
                    };
                }
                KeyAction::Nothing
            },
            KeyCode::Down => {
                if count != 0 {
                    self.selected_finding = match self.selected_finding {
                        Some(at) => if at < count - 1 {
                            Some(at + 1)
                        } else {
                            None
                        },
                        None => Some(0),
                    };
                }
                KeyAction::Nothing
            },
            KeyCode::PageUp => {
                if count != 0 {
                    self.selected_finding = Some(0);
                }
                KeyAction::Nothing
            },
            KeyCode::PageDown => {
                if count != 0 {
                    self.selected_finding = Some(count - 1);
                }
                KeyAction::Nothing
            },
            _ => KeyAction::Nothing,
        }
    }

    /// The finding that is selected, if one is.
    pub fn selected_finding(&self) -> (r: Option<&crate::findings::Finding>)
        ensures
            match r {
                Some(finding) => self.selected_finding matches Some(at) && at
                    < self.findings@.len() && *finding == self.findings@[at as int],
                None => !(self.selected_finding matches Some(at) && at < self.findings@.len()),
            },
    {
        match self.selected_finding {
            Some(at) => if at < self.findings.len() {
                Some(&self.findings[at])
            } else {
                None
            },
            None => None,
        }
    }
}

} // verus!
