//! Core data model: clipboard entries, entry kinds, themes, configuration
//! and the error taxonomy.

use vstd::prelude::*;

verus! {

/// Default cap on the number of unpinned entries kept in the history.
pub const DEFAULT_MAX_HISTORY_COUNT: u32 = 50;

/// Poll interval of the clipboard change detector, in milliseconds.
pub const CLIPBOARD_MONITOR_INTERVAL_MS: u64 = 1000;

pub open spec fn spec_default_hotkey() -> Seq<char> {
    "CommandOrControl+Shift+V"@
}

/// The default hotkey that surfaces the history window.
pub fn default_hotkey() -> (s: String)
    ensures
        s@ == spec_default_hotkey(),
{
    "CommandOrControl+Shift+V".to_owned()
}

/// Exact equality of two string slices, stated over their character views.
pub fn str_eq(a: &str, b: &str) -> (r: bool)
    ensures
        r == (a@ == b@),
{
    let x: String = a.to_owned();
    let y: String = b.to_owned();
    x == y
}

/// The two clipboard payload kinds the history distinguishes.
#[derive(Debug, Clone, Copy, PartialEq, Eq, Structural)]
pub enum EntryKind {
    Text,
    Image,
}

pub open spec fn spec_kind_str(k: EntryKind) -> Seq<char> {
    match k {
        EntryKind::Text => "text"@,
        EntryKind::Image => "image"@,
    }
}

pub open spec fn spec_kind_from_str(s: Seq<char>) -> Option<EntryKind> {
    if s == "text"@ {
        Some(EntryKind::Text)
    } else if s == "image"@ {
        Some(EntryKind::Image)
    } else {
        None
    }
}

impl EntryKind {
    pub fn as_str(&self) -> (r: &'static str)
        ensures
            r@ == spec_kind_str(*self),
    {
        match self {
            EntryKind::Text => "text",
            EntryKind::Image => "image",
        }
    }

    pub fn from_str(s: &str) -> (r: Option<EntryKind>)
        ensures
            r == spec_kind_from_str(s@),
    {
        if str_eq(s, "text") {
            Some(EntryKind::Text)
        } else if str_eq(s, "image") {
            Some(EntryKind::Image)
        } else {
            None
        }
    }
}

/// One clipboard history record.
#[derive(Debug, Clone)]
pub struct ClipboardItem {
    pub id: i64,
    pub content: String,
    pub kind: EntryKind,
    pub timestamp: String,
    pub pinned: bool,
}

impl ClipboardItem {
    /// A copy that is equal to the original, usable in contracts.
    pub fn duplicate(&self) -> (r: ClipboardItem)
        ensures
            r == *self,
    {
        ClipboardItem {
            id: self.id,
            content: self.content.clone(),
            kind: self.kind,
            timestamp: self.timestamp.clone(),
            pinned: self.pinned,
        }
    }
}

/// Visual theme presets offered by the interface.
#[derive(Debug, Clone, Copy, PartialEq, Eq, Structural)]
pub enum ThemePreset {
    Default,
    PurpleGradient,
    DeepPurple,
    MidnightBlue,
}

pub open spec fn spec_theme_str(p: ThemePreset) -> Seq<char> {
    match p {
        ThemePreset::Default => "default"@,
        ThemePreset::PurpleGradient => "purple-gradient"@,
        ThemePreset::DeepPurple => "deep-purple"@,
        ThemePreset::MidnightBlue => "midnight-blue"@,
    }
}

pub open spec fn spec_theme_from_str(s: Seq<char>) -> Option<ThemePreset> {
    if s == "default"@ {
        Some(ThemePreset::Default)
    } else if s == "purple-gradient"@ {
        Some(ThemePreset::PurpleGradient)
    } else if s == "deep-purple"@ {
        Some(ThemePreset::DeepPurple)
    } else if s == "midnight-blue"@ {
        Some(ThemePreset::MidnightBlue)
    } else {
        None
    }
}

impl ThemePreset {
    pub fn as_str(&self) -> (r: &'static str)
        ensures
            r@ == spec_theme_str(*self),
    {
        match self {
            ThemePreset::Default => "default",
            ThemePreset::PurpleGradient => "purple-gradient",
            ThemePreset::DeepPurple => "deep-purple",
            ThemePreset::MidnightBlue => "midnight-blue",
        }
    }

    pub fn from_str(s: &str) -> (r: Option<ThemePreset>)
        ensures
            r == spec_theme_from_str(s@),
    {
        if str_eq(s, "default") {
            Some(ThemePreset::Default)
        } else if str_eq(s, "purple-gradient") {
            Some(ThemePreset::PurpleGradient)
        } else if str_eq(s, "deep-purple") {
            Some(ThemePreset::DeepPurple)
        } else if str_eq(s, "midnight-blue") {
            Some(ThemePreset::MidnightBlue)
        } else {
            None
        }
    }
}

/// Theme portion of the application configuration.
#[derive(Debug, Clone, Copy, PartialEq, Eq, Structural)]
pub struct ThemeConfig {
    pub preset: ThemePreset,
}

/// The singleton application configuration.
#[derive(Debug, Clone)]
pub struct AppConfig {
    pub max_history_count: u32,
    pub hotkey: String,
    pub theme: ThemeConfig,
}

impl AppConfig {
    /// A copy that is equal to the original, usable in contracts.
    pub fn duplicate(&self) -> (r: AppConfig)
        ensures
            r == *self,
    {
        AppConfig {
            max_history_count: self.max_history_count,
            hotkey: self.hotkey.clone(),
            theme: self.theme,
        }
    }

    /// The configuration used on first run, before any update.
    pub fn bootstrap() -> (r: AppConfig)
        ensures
            r.max_history_count == DEFAULT_MAX_HISTORY_COUNT,
            r.hotkey@ == spec_default_hotkey(),
            r.theme.preset == ThemePreset::Default,
    {
        AppConfig {
            max_history_count: DEFAULT_MAX_HISTORY_COUNT,
            hotkey: default_hotkey(),
            theme: ThemeConfig { preset: ThemePreset::Default },
        }
    }
}

/// Failure of the durable persistence layer. The in-memory engine never
/// produces it; adapters that mirror the engine into a durable store map
/// their backend failures into this type.
#[derive(Debug, Clone, Copy, PartialEq, Eq, Structural)]
pub struct StorageError;

/// Failure to apply the hotkey portion of a configuration update.
#[derive(Debug, Clone, Copy, PartialEq, Eq, Structural)]
pub enum ConfigError {
    /// The requested hotkey did not parse in the platform's key-combo syntax.
    InvalidHotkey,
    /// The hotkey parsed but the platform refused to register it.
    RegistrationFailed,
}

} // verus!
