//! The application's settings and their defaults.
use vstd::prelude::*;

verus! {

/// Where the bot token is kept.
#[derive(Debug, Clone, Copy, PartialEq, Eq, Structural)]
pub enum TokenStorageMode {
    Keychain,
    File,
}

impl Default for TokenStorageMode {
    fn default() -> (r: TokenStorageMode)
        ensures
            r == TokenStorageMode::Keychain,
    {
        TokenStorageMode::Keychain
    }
}

/// Settings of the chat transport.
#[derive(Debug, Clone)]
pub struct TelegramConfig {
    pub allowed_chat_ids: Vec<i64>,
    pub poll_timeout_sec: u64,
    pub token_storage: TokenStorageMode,
}

/// Seconds that a long poll waits where the settings give none.
pub fn default_poll_timeout_sec() -> (r: u64)
    ensures
        r == 20,
{
    20
}

/// Least and most seconds that a long poll may wait.
pub open spec fn poll_timeout_in_range(configured: u64) -> u64 {
    if configured < 1 {
        1
    } else if configured > 60 {
        60
    } else {
        configured
    }
}

impl TelegramConfig {
    /// The configured poll timeout, held between one second and a minute.
    pub fn effective_poll_timeout(&self) -> (r: i64)
        ensures
            r == poll_timeout_in_range(self.poll_timeout_sec),
    {
        if self.poll_timeout_sec < 1 {
            1
        } else if self.poll_timeout_sec > 60 {
            60
        } else {
            self.poll_timeout_sec as i64
        }
    }

    /// Whether messages from `chat_id` are answered.
    pub fn allows(&self, chat_id: i64) -> (r: bool)
        ensures
            r == self.allowed_chat_ids@.contains(chat_id),
    {
        let mut i: usize = 0;
        while i < self.allowed_chat_ids.len()
            invariant
                i <= self.allowed_chat_ids.len(),
                forall|j: int| 0 <= j < i ==> self.allowed_chat_ids@[j] != chat_id,
            decreases self.allowed_chat_ids.len() - i,
        {
            if self.allowed_chat_ids[i] == chat_id {
                return true;
            }
            i += 1;
        }
        false
    }
}

impl Default for TelegramConfig {
    /// Nobody allowed, a poll of twenty seconds, the token in the keychain.
    fn default() -> (r: TelegramConfig)
        ensures
            r.allowed_chat_ids@.len() == 0,
            r.poll_timeout_sec == 20,
            r.token_storage == TokenStorageMode::Keychain,
    {
        TelegramConfig {
            allowed_chat_ids: Vec::new(),
            poll_timeout_sec: default_poll_timeout_sec(),
            token_storage: TokenStorageMode::Keychain,
        }
    }
}

/// Settings of the assistant: the workspace directory, the instructions that
/// apply everywhere, and whether they apply only where the workspace brings
/// none of its own.
#[derive(Debug, Clone)]
pub struct CodexConfig {
    pub workspace_dir: Option<String>,
    pub universal_instructions: String,
    pub universal_fallback_only: bool,
}

/// Whether the universal instructions stand back behind a workspace's own,
/// where the settings do not say.
pub fn default_universal_fallback_only() -> (r: bool)
    ensures
        r,
{
    true
}

impl Default for CodexConfig {
    /// No workspace, no instructions, fallback only.
    fn default() -> (r: CodexConfig)
        ensures
            r.workspace_dir.is_none(),
            r.universal_instructions@.len() == 0,
            r.universal_fallback_only,
    {
        CodexConfig {
            workspace_dir: None,
            universal_instructions: String::new(),
            universal_fallback_only: default_universal_fallback_only(),
        }
    }
}

/// Settings of the user interface.
#[derive(Debug, Clone)]
pub struct UiConfig {
    pub language: Option<String>,
}

impl Default for UiConfig {
    /// The language of the system.
    fn default() -> (r: UiConfig)
        ensures
            r.language.is_none(),
    {
        UiConfig { language: None }
    }
}

/// All settings.
#[derive(Debug, Clone)]
pub struct AppConfig {
    pub telegram: TelegramConfig,
    pub codex: CodexConfig,
    pub ui: UiConfig,
}

impl Default for AppConfig {
    /// The default of each part.
    fn default() -> (r: AppConfig)
        ensures
            r.telegram.allowed_chat_ids@.len() == 0,
            r.telegram.poll_timeout_sec == 20,
            r.telegram.token_storage == TokenStorageMode::Keychain,
            r.codex.workspace_dir.is_none(),
            r.codex.universal_instructions@.len() == 0,
            r.codex.universal_fallback_only,
            r.ui.language.is_none(),
    {
        AppConfig {
            telegram: TelegramConfig::default(),
            codex: CodexConfig::default(),
            ui: UiConfig::default(),
        }
    }
}

} // verus!
