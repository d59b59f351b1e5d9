//! Watching over the subprocess: its lifecycle as the status shows it, its
//! error output, and the profile directory that it runs in.
use crate::chars::{
    contains, find_from, is_blank, lemma_find_contains, str_chars, trim, trim_str,
};
use crate::codex_types::{opt_text, CodexStatusView};
use crate::logbus::LogLevel;
use crate::protocol::{find_token_after, token_after};
use crate::runtime::{CodexCore, CoreView, STDERR_TAIL_LINES};
use crate::threads::{uses_thread, without_thread};
use crate::chars::texts;
use vstd::prelude::*;

verus! {

/// `c` in lower case, where it is an ASCII capital.
pub open spec fn ascii_lower(c: char) -> char {
    if 'A' <= c <= 'Z' {
        ((c as u8 + 32) as u8) as char
    } else {
        c
    }
}

/// `s` with every ASCII capital in lower case.
pub open spec fn lowered(s: Seq<char>) -> Seq<char> {
    Seq::new(s.len(), |i: int| ascii_lower(s[i]))
}

/// How grave a line of the error output looks: an error where it holds
/// `error` in any case of letters, else a warning where it holds `warn`.
pub open spec fn stderr_level(line: Seq<char>) -> Option<LogLevel> {
    if contains(lowered(line), "error"@) {
        Some(LogLevel::Error)
    } else if contains(lowered(line), "warn"@) {
        Some(LogLevel::Warn)
    } else {
        None
    }
}

/// The words with which the subprocess says that it has lost a thread.
pub open spec fn missing_rollout_needle() -> Seq<char> {
    "state db missing rollout path for thread "@
}

/// `tail` with `line` at its end, and without its first line where it
/// already held `STDERR_TAIL_LINES`.
pub open spec fn tail_with(tail: Seq<Seq<char>>, line: Seq<char>) -> Seq<Seq<char>> {
    if tail.len() >= STDERR_TAIL_LINES {
        tail.drop_first().push(line)
    } else {
        tail.push(line)
    }
}

/// The content of the instruction override: the instructions where they
/// apply, else nothing. They apply where they are not blank and either are
/// not a mere fallback, or no workspace is set, or the workspace brings no
/// instructions of its own.
pub open spec fn instructions_apply(
    instructions: Seq<char>,
    fallback_only: bool,
    has_workspace: bool,
    workspace_has_agents: bool,
) -> bool {
    trim(instructions).len() > 0 && (!fallback_only || !has_workspace || !workspace_has_agents)
}

impl CoreView {
    /// The state after a line of error output: the line is kept, and a
    /// thread that the subprocess says it has lost is forgotten.
    pub open spec fn after_stderr(self, line: Seq<char>) -> CoreView {
        let kept = CoreView { stderr_tail: tail_with(self.stderr_tail, line), ..self };
        match token_after(line, missing_rollout_needle()) {
            Some(t) => CoreView {
                threads: without_thread(self.threads, t),
                resumed: self.resumed.remove(t),
                ..kept
            },
            None => kept,
        }
    }

    /// Whether a line of error output makes a chat lose its thread.
    pub open spec fn stderr_resets(self, line: Seq<char>) -> bool {
        match token_after(line, missing_rollout_needle()) {
            Some(t) => uses_thread(self.threads, t),
            None => false,
        }
    }

    /// The state with the workspace directory set: none where the given
    /// one is blank.
    pub open spec fn with_workspace(self, dir: Option<Seq<char>>) -> CoreView {
        CoreView {
            cwd: match dir {
                Some(d) => if trim(d).len() > 0 {
                    Some(trim(d))
                } else {
                    None
                },
                None => None,
            },
            ..self
        }
    }

    /// The state after a fresh profile directory was marked: no thread of
    /// any chat, and no thread resumed.
    pub open spec fn with_fresh_profile(self) -> CoreView {
        CoreView { threads: Map::empty(), resumed: Set::empty(), ..self }
    }
}

/// What to do about a line of error output.
#[derive(Debug, Clone, PartialEq)]
pub struct StderrReport {
    /// The level to note the line at, if it is to be noted.
    pub level: Option<LogLevel>,
    /// Whether a chat lost its thread, so that the thread map is to be stored.
    pub mapping_reset: bool,
}

fn lower(c: char) -> (r: char)
    ensures
        r == ascii_lower(c),
{
    if 'A' <= c && c <= 'Z' {
        ((c as u8) + 32) as char
    } else {
        c
    }
}

/// How grave the line `line` of the error output looks.
pub fn level_of_stderr(line: &str) -> (r: Option<LogLevel>)
    ensures
        r == stderr_level(line@),
{
    let v = str_chars(line);
    let mut low: Vec<char> = Vec::new();
    let mut i: usize = 0;
    while i < v.len()
        invariant
            i <= v.len(),
            low.len() == i,
            forall|j: int| 0 <= j < i ==> low@[j] == ascii_lower(v@[j]),
        decreases v.len() - i,
    {
        low.push(lower(v[i]));
        i += 1;
    }
    assert(low@ =~= lowered(line@));
    assert(low@.take(low.len() as int) =~= low@);
    let error = str_chars("error");
    let warn = str_chars("warn");
    proof {
        lemma_find_contains(low@, error@);
        lemma_find_contains(low@, warn@);
    }
    if find_from(&low, low.len(), &error, 0).is_some() {
        Some(LogLevel::Error)
    } else if find_from(&low, low.len(), &warn, 0).is_some() {
        Some(LogLevel::Warn)
    } else {
        None
    }
}

/// Whether the universal instructions go into the override file.
pub fn should_apply_instructions(
    instructions: &str,
    fallback_only: bool,
    has_workspace: bool,
    workspace_has_agents: bool,
) -> (r: bool)
    ensures
        r == instructions_apply(instructions@, fallback_only, has_workspace, workspace_has_agents),
{
    let v = str_chars(instructions);
    proof {
        assert(v@.subrange(0, v.len() as int) =~= v@);
        crate::chars::lemma_all_space_trim(v@);
    }
    if is_blank(&v, 0, v.len()) {
        false
    } else if !fallback_only {
        true
    } else {
        !has_workspace || !workspace_has_agents
    }
}

/// Name of the file that marks a profile directory as set up.
pub fn profile_marker_name() -> (r: &'static str)
    ensures
        r@ == ".profile-marker-v1"@,
{
    ".profile-marker-v1"
}

/// Content of the file that marks a profile directory as set up.
pub fn profile_marker_content() -> (r: &'static str)
    ensures
        r@ == "v1\n"@,
{
    "v1\n"
}

/// Name of the file that holds the thread of each chat.
pub fn chat_threads_file_name() -> (r: &'static str)
    ensures
        r@ == "chat-threads.json"@,
{
    "chat-threads.json"
}

/// Name of the profile directory of the subprocess.
pub fn home_dir_name() -> (r: &'static str)
    ensures
        r@ == "home"@,
{
    "home"
}

/// Name of the environment variable that tells the subprocess its profile
/// directory.
pub fn home_variable_name() -> (r: &'static str)
    ensures
        r@ == "CODEX_HOME"@,
{
    "CODEX_HOME"
}

/// Name of the file that overrides the instructions of a workspace.
pub fn override_file_name() -> (r: &'static str)
    ensures
        r@ == "AGENTS.override.md"@,
{
    "AGENTS.override.md"
}

impl CodexCore {
    /// Whether the subprocess has to be started.
    pub fn needs_start(&self) -> (r: bool)
        ensures
            r == !self@.status.running,
    {
        !self.status.running
    }

    /// Whether the handshake has to be made.
    pub fn needs_initialize(&self) -> (r: bool)
        ensures
            r == !self@.status.initialized,
    {
        !self.status.initialized
    }

    /// Notes that the subprocess was started: it runs, the handshake is
    /// still to be made, and no error stands.
    pub fn mark_started(&mut self)
        requires
            old(self).wf(),
        ensures
            final(self).wf(),
            final(self)@ == (CoreView {
                status: CodexStatusView {
                    running: true,
                    initialized: false,
                    last_error: None,
                    ..old(self)@.status
                },
                ..old(self)@
            }),
    {
        self.status.running = true;
        self.status.initialized = false;
        self.status.last_error = None;
    }

    /// Notes that the handshake was made.
    pub fn mark_initialized(&mut self)
        requires
            old(self).wf(),
        ensures
            final(self).wf(),
            final(self)@ == (CoreView {
                status: CodexStatusView { initialized: true, ..old(self)@.status },
                ..old(self)@
            }),
    {
        self.status.initialized = true;
    }

    /// Notes that the subprocess was stopped.
    pub fn stop(&mut self)
        requires
            old(self).wf(),
        ensures
            final(self).wf(),
            final(self)@ == (CoreView {
                status: CodexStatusView {
                    running: false,
                    initialized: false,
                    ..old(self)@.status
                },
                ..old(self)@
            }),
    {
        self.status.running = false;
        self.status.initialized = false;
    }

    /// Notes that the subprocess could not be started, and why; gives the
    /// reason back as the error to return.
    pub fn fail_start(&mut self, msg: String) -> (r: String)
        requires
            old(self).wf(),
        ensures
            final(self).wf(),
            r@ == msg@,
            final(self)@ == (CoreView {
                status: CodexStatusView {
                    running: false,
                    initialized: false,
                    last_error: Some(msg@),
                    ..old(self)@.status
                },
                ..old(self)@
            }),
    {
        self.status.running = false;
        self.status.initialized = false;
        self.status.last_error = Some(msg.clone());
        msg
    }

    /// Takes in a line of the subprocess's error output.
    pub fn handle_codex_stderr(&mut self, line: String) -> (r: StderrReport)
        requires
            old(self).wf(),
        ensures
            final(self).wf(),
            final(self)@ == old(self)@.after_stderr(line@),
            r.level == stderr_level(line@),
            r.mapping_reset == old(self)@.stderr_resets(line@),
    {
        let level = level_of_stderr(line.as_str());
        let token = find_token_after(line.as_str(), "state db missing rollout path for thread ");
        let ghost before = texts(self.stderr_tail@);
        if self.stderr_tail.len() >= STDERR_TAIL_LINES {
            self.stderr_tail.remove(0);
        }
        self.stderr_tail.push(line);
        assert(texts(self.stderr_tail@) =~= tail_with(before, line@));
        let mapping_reset = match token {
            Some(t) => {
                self.resumed_threads.remove(t.as_str());
                self.chat_threads.remove_thread(t.as_str())
            },
            None => false,
        };
        StderrReport { level, mapping_reset }
    }

    /// Sets the workspace directory; a blank one counts as none.
    pub fn set_workspace_dir(&mut self, workspace_dir: Option<String>)
        requires
            old(self).wf(),
        ensures
            final(self).wf(),
            final(self)@ == old(self)@.with_workspace(opt_text(workspace_dir)),
    {
        self.default_cwd = match workspace_dir {
            Some(d) => {
                let t = trim_str(d.as_str());
                if t.as_str().is_empty() {
                    None
                } else {
                    Some(t)
                }
            },
            None => None,
        };
    }

    /// Sets the universal instructions and whether they are a mere fallback.
    pub fn set_universal_instructions(&mut self, instructions: String, fallback_only: bool)
        requires
            old(self).wf(),
        ensures
            final(self).wf(),
            final(self)@ == (CoreView {
                instructions: instructions@,
                fallback_only,
                ..old(self)@
            }),
    {
        self.universal_instructions = instructions;
        self.universal_fallback_only = fallback_only;
    }

    /// The content of the override file, given whether the workspace brings
    /// instructions of its own: the universal instructions where they apply,
    /// else nothing. Also says whether they apply.
    pub fn override_content(&self, workspace_has_agents: bool) -> (r: (String, bool))
        ensures
            r.1 == instructions_apply(
                self@.instructions,
                self@.fallback_only,
                self@.cwd.is_some(),
                workspace_has_agents,
            ),
            r.0@ == if r.1 {
                self@.instructions
            } else {
                Seq::<char>::empty()
            },
    {
        let apply = should_apply_instructions(
            self.universal_instructions.as_str(),
            self.universal_fallback_only,
            self.default_cwd.is_some(),
            workspace_has_agents,
        );
        if apply {
            (self.universal_instructions.clone(), true)
        } else {
            (String::new(), false)
        }
    }

    /// Takes in that the profile directory was fresh and is marked now: the
    /// threads that were made under another profile are forgotten. Says
    /// whether there were any, so that the thread map is to be stored.
    pub fn profile_marked(&mut self) -> (store: bool)
        requires
            old(self).wf(),
        ensures
            final(self).wf(),
            final(self)@ == old(self)@.with_fresh_profile(),
            store == (old(self)@.threads != Map::<i64, Seq<char>>::empty()),
    {
        self.resumed_threads.clear();
        if self.chat_threads.is_empty() {
            false
        } else {
            self.chat_threads.clear();
            true
        }
    }
}

} // verus!
