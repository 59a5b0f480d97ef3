//! The protocol lifecycle, its preconditions on requests, and the session
//! that holds the workspace folders and the current index snapshot.
use std::sync::Arc;
use vstd::prelude::*;
use crate::error::{LspError, LspErrorCode};
use crate::index::WorkspaceIndex;
use crate::resolve::{answers, definition_outcome, opt_str, resolve_definition, texts, DefinitionResult, Position};
use crate::text::{chars_of, same_text};

verus! {

/// The phases of a session; they only move forward.
#[derive(Clone, Copy, Debug, PartialEq, Eq, Structural)]
pub enum SessionState {
    Uninitialized,
    Initializing,
    Ready,
    ShuttingDown,
    Stopped,
}

/// The protocol methods that the dispatcher tells apart.
#[derive(Clone, Copy, Debug, PartialEq, Eq, Structural)]
pub enum Method {
    Initialize,
    Initialized,
    Shutdown,
    Definition,
    Other,
}

/// The method that a protocol method name stands for.
pub open spec fn method_named(name: Seq<char>) -> Method {
    if name == "initialize"@ {
        Method::Initialize
    } else if name == "initialized"@ {
        Method::Initialized
    } else if name == "shutdown"@ {
        Method::Shutdown
    } else if name == "textDocument/definition"@ {
        Method::Definition
    } else {
        Method::Other
    }
}

impl Method {
    /// The method that a protocol method name stands for; see `method_named`.
    pub fn from_name(name: &str) -> (r: Method)
        ensures
            r == method_named(name@),
    {
        let s = chars_of(name);
        if same_text(&s, "initialize") {
            Method::Initialize
        } else if same_text(&s, "initialized") {
            Method::Initialized
        } else if same_text(&s, "shutdown") {
            Method::Shutdown
        } else if same_text(&s, "textDocument/definition") {
            Method::Definition
        } else {
            Method::Other
        }
    }

    /// Whether the method changes the lifecycle; such methods are handled
    /// one at a time.
    pub fn is_lifecycle(&self) -> (r: bool)
        ensures
            r == (*self == Method::Initialize || *self == Method::Initialized || *self
                == Method::Shutdown),
    {
        match self {
            Method::Initialize | Method::Initialized | Method::Shutdown => true,
            _ => false,
        }
    }
}

/// The phases in which `m` may run. Definition requests are served from the
/// first response on, and still while a shutdown drains.
pub open spec fn allowed_in(state: SessionState, m: Method) -> bool {
    match m {
        Method::Initialize => state == SessionState::Uninitialized,
        Method::Initialized => state == SessionState::Initializing,
        Method::Shutdown => state == SessionState::Ready,
        Method::Definition => state == SessionState::Initializing || state == SessionState::Ready
            || state == SessionState::ShuttingDown,
        Method::Other => false,
    }
}

/// Why `m` may not run in `state`, or `None` where it may. A known method
/// out of its phase, and anything but `initialize` before initialization, is
/// a protocol-sequence error, reported as not initialized; an unknown method
/// after initialization is not found.
pub open spec fn refusal(state: SessionState, m: Method) -> Option<LspErrorCode> {
    if allowed_in(state, m) {
        None
    } else if m == Method::Other && state != SessionState::Uninitialized {
        Some(LspErrorCode::MethodNotFound)
    } else {
        Some(LspErrorCode::ServerNotInitialized)
    }
}

/// The phase after `m` has run in `state`; a refused method changes nothing.
pub open spec fn next_state(state: SessionState, m: Method) -> SessionState {
    if refusal(state, m) is Some {
        state
    } else {
        match m {
            Method::Initialize => SessionState::Initializing,
            Method::Initialized => SessionState::Ready,
            Method::Shutdown => SessionState::ShuttingDown,
            _ => state,
        }
    }
}

/// Whether `r` is what checking `m` in `state` must give.
pub open spec fn checked(r: Result<(), LspError>, state: SessionState, m: Method) -> bool {
    match refusal(state, m) {
        None => r is Ok,
        Some(c) => r is Err && r->Err_0.code == c && r->Err_0.message@.len() > 0,
    }
}

/// Checks the lifecycle precondition of `m` in `state`; see `refusal`.
pub fn check_request(state: SessionState, m: Method) -> (r: Result<(), LspError>)
    ensures
        checked(r, state, m),
{
    let allowed = match m {
        Method::Initialize => state == SessionState::Uninitialized,
        Method::Initialized => state == SessionState::Initializing,
        Method::Shutdown => state == SessionState::Ready,
        Method::Definition => state == SessionState::Initializing || state == SessionState::Ready
            || state == SessionState::ShuttingDown,
        Method::Other => false,
    };
    if allowed {
        Ok(())
    } else if m == Method::Other && state != SessionState::Uninitialized {
        proof {
            reveal_strlit("method not found");
        }
        Err(LspError::new(LspErrorCode::MethodNotFound, "method not found"))
    } else if state == SessionState::Uninitialized {
        proof {
            reveal_strlit("server not initialized");
        }
        Err(LspError::new(LspErrorCode::ServerNotInitialized, "server not initialized"))
    } else {
        proof {
            reveal_strlit("request not valid in this phase");
        }
        Err(LspError::new(LspErrorCode::ServerNotInitialized, "request not valid in this phase"))
    }
}

/// The position of a phase in the lifecycle.
pub open spec fn phase_rank(s: SessionState) -> int {
    match s {
        SessionState::Uninitialized => 0,
        SessionState::Initializing => 1,
        SessionState::Ready => 2,
        SessionState::ShuttingDown => 3,
        SessionState::Stopped => 4,
    }
}

/// No method moves the lifecycle backwards.
pub proof fn lemma_lifecycle_forward(state: SessionState, m: Method)
    ensures
        phase_rank(next_state(state, m)) >= phase_rank(state),
{
}

/// Any request but `initialize` made before initialization is refused with
/// the not-initialized code, -32002.
pub proof fn lemma_uninitialized_refuses(m: Method)
    requires
        m != Method::Initialize,
    ensures
        refusal(SessionState::Uninitialized, m) == Some(LspErrorCode::ServerNotInitialized),
        crate::error::code_of(LspErrorCode::ServerNotInitialized) == -32002,
        next_state(SessionState::Uninitialized, m) == SessionState::Uninitialized,
{
}

/// A workspace folder that the client named at initialization.
#[derive(Clone, Debug)]
pub struct WorkspaceFolder {
    pub uri: String,
    pub name: String,
}

/// What the server tells the client it can do.
#[derive(Clone, Copy, Debug, PartialEq, Eq, Structural)]
pub struct ServerCapabilities {
    pub definition_provider: bool,
}

/// The one session of a server process: its phase, the workspace folders
/// and the index snapshot that readers currently get.
pub struct Session {
    state: SessionState,
    folders: Vec<WorkspaceFolder>,
    snapshot: Option<Arc<WorkspaceIndex>>,
}

impl Session {
    pub closed spec fn spec_state(&self) -> SessionState {
        self.state
    }

    pub closed spec fn spec_folders(&self) -> Seq<WorkspaceFolder> {
        self.folders@
    }

    /// The current snapshot's entries, `None` before the first publication.
    pub closed spec fn spec_snapshot(&self) -> Option<Seq<crate::tags::TagEntryModel>> {
        match self.snapshot {
            Some(a) => Some((*a)@),
            None => None,
        }
    }

    /// A session at process start: uninitialized, with no folders and no
    /// snapshot.
    pub fn new() -> (r: Session)
        ensures
            r.spec_state() == SessionState::Uninitialized,
            r.spec_folders().len() == 0,
            r.spec_snapshot() is None,
    {
        Session { state: SessionState::Uninitialized, folders: Vec::new(), snapshot: None }
    }

    /// The current phase.
    pub fn state(&self) -> (r: SessionState)
        ensures
            r == self.spec_state(),
    {
        self.state
    }

    /// The workspace folders recorded at initialization.
    pub fn workspace_folders(&self) -> (r: &Vec<WorkspaceFolder>)
        ensures
            r@ == self.spec_folders(),
    {
        &self.folders
    }

    /// A handle on the current snapshot. It keeps its view whatever is
    /// published later.
    pub fn snapshot(&self) -> (r: Option<Arc<WorkspaceIndex>>)
        ensures
            match r {
                Some(a) => self.spec_snapshot() == Some((*a)@),
                None => self.spec_snapshot() is None,
            },
    {
        match &self.snapshot {
            Some(a) => Some(Arc::clone(a)),
            None => None,
        }
    }

    /// Handles `initialize`: records the folders and advertises definition
    /// support. Refused in every phase but the first.
    pub fn initialize(&mut self, folders: Vec<WorkspaceFolder>) -> (r: Result<ServerCapabilities, LspError>)
        ensures
            match refusal(old(self).spec_state(), Method::Initialize) {
                None => r == Ok::<ServerCapabilities, LspError>(ServerCapabilities { definition_provider: true })
                    && final(self).spec_folders() == folders@,
                Some(c) => r is Err && r->Err_0.code == c && r->Err_0.message@.len() > 0
                    && final(self).spec_folders() == old(self).spec_folders(),
            },
            final(self).spec_state() == next_state(old(self).spec_state(), Method::Initialize),
            final(self).spec_snapshot() == old(self).spec_snapshot(),
    {
        match check_request(self.state, Method::Initialize) {
            Err(e) => Err(e),
            Ok(()) => {
                self.folders = folders;
                self.state = SessionState::Initializing;
                Ok(ServerCapabilities { definition_provider: true })
            },
        }
    }

    /// Handles the `initialized` notification: the session becomes ready.
    /// The caller then builds the index and publishes it.
    pub fn initialized(&mut self) -> (r: Result<(), LspError>)
        ensures
            checked(r, old(self).spec_state(), Method::Initialized),
            final(self).spec_state() == next_state(old(self).spec_state(), Method::Initialized),
            final(self).spec_folders() == old(self).spec_folders(),
            final(self).spec_snapshot() == old(self).spec_snapshot(),
    {
        let r = check_request(self.state, Method::Initialized);
        if r.is_ok() {
            self.state = SessionState::Ready;
        }
        r
    }

    /// Handles `shutdown`: no lifecycle request is accepted afterwards.
    pub fn shutdown(&mut self) -> (r: Result<(), LspError>)
        ensures
            checked(r, old(self).spec_state(), Method::Shutdown),
            final(self).spec_state() == next_state(old(self).spec_state(), Method::Shutdown),
            final(self).spec_folders() == old(self).spec_folders(),
            final(self).spec_snapshot() == old(self).spec_snapshot(),
    {
        let r = check_request(self.state, Method::Shutdown);
        if r.is_ok() {
            self.state = SessionState::ShuttingDown;
        }
        r
    }

    /// Ends a shutdown once no definition request is still running;
    /// `true` where the session is now stopped.
    pub fn finish_shutdown(&mut self, in_flight: usize) -> (r: bool)
        ensures
            r == (old(self).spec_state() == SessionState::ShuttingDown && in_flight == 0),
            final(self).spec_state() == if r {
                SessionState::Stopped
            } else {
                old(self).spec_state()
            },
            final(self).spec_folders() == old(self).spec_folders(),
            final(self).spec_snapshot() == old(self).spec_snapshot(),
    {
        if self.state == SessionState::ShuttingDown && in_flight == 0 {
            self.state = SessionState::Stopped;
            true
        } else {
            false
        }
    }

    /// Publishes a complete index as the new snapshot, in one step.
    pub fn publish(&mut self, index: WorkspaceIndex)
        ensures
            final(self).spec_snapshot() == Some(index@),
            final(self).spec_state() == old(self).spec_state(),
            final(self).spec_folders() == old(self).spec_folders(),
    {
        self.snapshot = Some(Arc::new(index));
    }

    /// Handles a definition request against the snapshot current at its
    /// start; see `definition_outcome`. Refused where the phase does not
    /// allow it.
    pub fn definition(
        &self,
        uri: &str,
        line_text: Option<&str>,
        at: Position,
        kinds: &Vec<String>,
    ) -> (r: Result<DefinitionResult, LspError>)
        ensures
            match refusal(self.spec_state(), Method::Definition) {
                Some(c) => r is Err && r->Err_0.code == c && r->Err_0.message@.len() > 0,
                None => answers(
                    r,
                    definition_outcome(self.spec_snapshot(), uri@, opt_str(line_text), at, texts(kinds@)),
                ),
            },
    {
        match check_request(self.state, Method::Definition) {
            Err(e) => Err(e),
            Ok(()) => {
                let index: Option<&WorkspaceIndex> = match &self.snapshot {
                    Some(a) => Some(&**a),
                    None => None,
                };
                resolve_definition(index, uri, line_text, at, kinds)
            },
        }
    }
}

} // verus!
