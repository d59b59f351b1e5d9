//! What the assistant runtime reports of itself and of its threads.
use vstd::prelude::*;

verus! {

/// The text that an optional string holds.
pub open spec fn opt_text(o: Option<String>) -> Option<Seq<char>> {
    match o {
        Some(s) => Some(s@),
        None => None,
    }
}

/// The view of a result that holds text on both sides.
pub open spec fn text_result(r: Result<String, String>) -> Result<Seq<char>, Seq<char>> {
    match r {
        Ok(t) => Ok(t@),
        Err(e) => Err(e@),
    }
}

/// A copy of an optional string.
pub fn copy_opt_string(o: &Option<String>) -> (r: Option<String>)
    ensures
        opt_text(r) == opt_text(*o),
{
    match o {
        Some(s) => Some(s.clone()),
        None => None,
    }
}

/// State of the assistant subprocess and of the sign-in.
#[derive(Debug, Clone, PartialEq)]
pub struct CodexStatus {
    pub running: bool,
    pub initialized: bool,
    pub last_error: Option<String>,
    pub auth_mode: Option<String>,
    pub login_url: Option<String>,
    pub login_id: Option<String>,
}

/// The mathematical value of a `CodexStatus`.
pub struct CodexStatusView {
    pub running: bool,
    pub initialized: bool,
    pub last_error: Option<Seq<char>>,
    pub auth_mode: Option<Seq<char>>,
    pub login_url: Option<Seq<char>>,
    pub login_id: Option<Seq<char>>,
}

impl CodexStatus {
    /// The mathematical value.
    pub open spec fn view(&self) -> CodexStatusView {
        CodexStatusView {
            running: self.running,
            initialized: self.initialized,
            last_error: opt_text(self.last_error),
            auth_mode: opt_text(self.auth_mode),
            login_url: opt_text(self.login_url),
            login_id: opt_text(self.login_id),
        }
    }

    /// A copy of the status.
    pub fn duplicate(&self) -> (r: CodexStatus)
        ensures
            r@ == self@,
    {
        CodexStatus {
            running: self.running,
            initialized: self.initialized,
            last_error: copy_opt_string(&self.last_error),
            auth_mode: copy_opt_string(&self.auth_mode),
            login_url: copy_opt_string(&self.login_url),
            login_id: copy_opt_string(&self.login_id),
        }
    }
}

impl Default for CodexStatus {
    /// Not running, not initialized, nothing known.
    fn default() -> (r: CodexStatus)
        ensures
            r@ == (CodexStatusView {
                running: false,
                initialized: false,
                last_error: None,
                auth_mode: None,
                login_url: None,
                login_id: None,
            }),
    {
        CodexStatus {
            running: false,
            initialized: false,
            last_error: None,
            auth_mode: None,
            login_url: None,
            login_id: None,
        }
    }
}

/// The version that a tool reports: what it printed, without whitespace
/// around it, where it ended well and printed anything.
pub fn version_of_output(success: bool, stdout: &str) -> (r: Option<String>)
    ensures
        opt_text(r) == if success && crate::chars::trim(stdout@).len() > 0 {
            Some(crate::chars::trim(stdout@))
        } else {
            None
        },
{
    if !success {
        return None;
    }
    let s = crate::chars::trim_str(stdout);
    if s.as_str().is_empty() {
        None
    } else {
        Some(s)
    }
}

/// What the installer probe found on this machine.
#[derive(Debug, Clone)]
pub struct CodexDoctor {
    pub node_ok: bool,
    pub node_path: Option<String>,
    pub npm_ok: bool,
    pub npm_path: Option<String>,
    pub codex_ok: bool,
    pub codex_version: Option<String>,
    pub local_codex_ok: bool,
    pub local_codex_version: Option<String>,
    pub local_codex_entry: Option<String>,
}

impl CodexDoctor {
    /// The report of a probe: a tool is found exactly when its version could
    /// be read; the paths of node and npm are not probed.
    pub fn from_probe(
        node_version: Option<String>,
        npm_version: Option<String>,
        codex_version: Option<String>,
        local_codex_ok: bool,
        local_codex_version: Option<String>,
        local_codex_entry: Option<String>,
    ) -> (r: CodexDoctor)
        ensures
            r.node_ok == node_version.is_some(),
            r.npm_ok == npm_version.is_some(),
            r.codex_ok == codex_version.is_some(),
            r.codex_version == codex_version,
            r.node_path.is_none(),
            r.npm_path.is_none(),
            r.local_codex_ok == local_codex_ok,
            r.local_codex_version == local_codex_version,
            r.local_codex_entry == local_codex_entry,
    {
        CodexDoctor {
            node_ok: node_version.is_some(),
            node_path: None,
            npm_ok: npm_version.is_some(),
            npm_path: None,
            codex_ok: codex_version.is_some(),
            codex_version,
            local_codex_ok,
            local_codex_version,
            local_codex_entry,
        }
    }
}

impl Default for CodexDoctor {
    /// Nothing found.
    fn default() -> (r: CodexDoctor)
        ensures
            !r.node_ok && !r.npm_ok && !r.codex_ok && !r.local_codex_ok,
            r.node_path.is_none() && r.npm_path.is_none() && r.codex_version.is_none(),
            r.local_codex_version.is_none() && r.local_codex_entry.is_none(),
    {
        CodexDoctor {
            node_ok: false,
            node_path: None,
            npm_ok: false,
            npm_path: None,
            codex_ok: false,
            codex_version: None,
            local_codex_ok: false,
            local_codex_version: None,
            local_codex_entry: None,
        }
    }
}

/// One stored conversation, as the assistant lists it.
#[derive(Debug, Clone)]
pub struct CodexThreadSummary {
    pub id: String,
    pub title: Option<String>,
    pub preview: Option<String>,
    pub updated_at_unix_ms: Option<u64>,
    pub created_at_unix_ms: Option<u64>,
    pub archived: bool,
    pub source_kind: Option<String>,
}

/// One page of the list of conversations.
#[derive(Debug, Clone)]
pub struct CodexThreadListResponse {
    pub threads: Vec<CodexThreadSummary>,
    pub next_cursor: Option<String>,
}

impl Default for CodexThreadListResponse {
    /// An empty page without a successor.
    fn default() -> (r: CodexThreadListResponse)
        ensures
            r.threads@.len() == 0,
            r.next_cursor.is_none(),
    {
        CodexThreadListResponse { threads: Vec::new(), next_cursor: None }
    }
}

/// One utterance of a stored conversation.
#[derive(Debug, Clone)]
pub struct CodexTranscriptItem {
    pub role: String,
    pub text: String,
}

/// A stored conversation with its utterances.
#[derive(Debug, Clone)]
pub struct CodexThreadReadResponse {
    pub id: String,
    pub title: Option<String>,
    pub preview: Option<String>,
    pub updated_at_unix_ms: Option<u64>,
    pub items: Vec<CodexTranscriptItem>,
}

} // verus!
