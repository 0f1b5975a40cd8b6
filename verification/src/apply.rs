//! Applying a profile: one write per control file, in order, until the first
//! failure. The writes themselves are made by the caller; a session says which
//! write is due and takes note of how it went.

use crate::discovery::AmdEppMgr;
use crate::error::{EppError, EppErrorView, IoStage};
use crate::location::paths_of;
use vstd::prelude::*;

verus! {

/// How a write to a control file went.
#[derive(Debug, Clone, PartialEq, Eq)]
pub enum WriteOutcome {
    /// The text was written and flushed.
    Written,
    /// The file could not be opened: permission was denied.
    PermissionDenied(String),
    /// The file could not be opened, for another reason.
    OpenFailed(String),
    /// The file was opened, and writing or flushing failed.
    WriteFailed(String),
}

/// An outcome as a mathematical value.
pub enum WriteOutcomeView {
    Written,
    PermissionDenied(Seq<char>),
    OpenFailed(Seq<char>),
    WriteFailed(Seq<char>),
}

impl View for WriteOutcome {
    type V = WriteOutcomeView;

    open spec fn view(&self) -> WriteOutcomeView {
        match self {
            WriteOutcome::Written => WriteOutcomeView::Written,
            WriteOutcome::PermissionDenied(cause) => WriteOutcomeView::PermissionDenied(cause@),
            WriteOutcome::OpenFailed(cause) => WriteOutcomeView::OpenFailed(cause@),
            WriteOutcome::WriteFailed(cause) => WriteOutcomeView::WriteFailed(cause@),
        }
    }
}

/// A write that is due: `payload` goes to the file at `path`.
#[derive(Debug, Clone, PartialEq, Eq)]
pub struct WriteRequest {
    pub path: String,
    pub payload: String,
}

/// The text that selects a profile in a control file: the token and one line
/// feed.
pub open spec fn payload_of(token: Seq<char>) -> Seq<char> {
    token.push('\n')
}

/// The error that a failed write at `path` is reported as.
pub open spec fn write_error(path: Seq<char>, outcome: WriteOutcomeView) -> Option<EppErrorView> {
    match outcome {
        WriteOutcomeView::Written => None,
        WriteOutcomeView::PermissionDenied(cause) => Some(
            EppErrorView::PermissionError { path, cause },
        ),
        WriteOutcomeView::OpenFailed(cause) => Some(
            EppErrorView::IOError { stage: IoStage::Open, path, cause },
        ),
        WriteOutcomeView::WriteFailed(cause) => Some(
            EppErrorView::IOError { stage: IoStage::Write, path, cause },
        ),
    }
}

/// The state of a session: `payload` is to be written to each of `paths`;
/// the first `written` of them have been written; `failure` is the error
/// that ended the session, if one did.
pub struct ApplyState {
    pub paths: Seq<Seq<char>>,
    pub payload: Seq<char>,
    pub written: nat,
    pub failure: Option<EppErrorView>,
}

impl ApplyState {
    /// The state in which a session begins.
    pub open spec fn begin(paths: Seq<Seq<char>>, token: Seq<char>) -> ApplyState {
        ApplyState { paths, payload: payload_of(token), written: 0, failure: None }
    }

    /// The write that is due: the next path, as long as nothing has failed
    /// and a path is left.
    pub open spec fn pending(self) -> Option<(Seq<char>, Seq<char>)> {
        if self.failure is None && self.written < self.paths.len() {
            Some((self.paths[self.written as int], self.payload))
        } else {
            None
        }
    }

    /// The state after the write that was due went as `outcome` says. A
    /// write that succeeded makes the next path due; one that failed ends the
    /// session with its error. Where no write was due, nothing changes.
    pub open spec fn record(self, outcome: WriteOutcomeView) -> ApplyState {
        match self.pending() {
            None => self,
            Some((path, _)) => match write_error(path, outcome) {
                None => ApplyState { written: self.written + 1, ..self },
                Some(error) => ApplyState { failure: Some(error), ..self },
            },
        }
    }

    /// How the session ended: with the error of the write that failed, or
    /// well once every path was written. `None` while a write is due.
    pub open spec fn result(self) -> Option<Result<(), EppErrorView>> {
        match self.failure {
            Some(error) => Some(Err(error)),
            None => if self.written < self.paths.len() {
                None
            } else {
                Some(Ok(()))
            },
        }
    }
}

/// A session that applies one profile to the control files of a manager.
pub struct ApplySession {
    paths: Vec<String>,
    payload: String,
    next: usize,
    failure: Option<EppError>,
}

impl View for ApplySession {
    type V = ApplyState;

    closed spec fn view(&self) -> ApplyState {
        ApplyState {
            paths: self.paths@.map_values(|p: String| p@),
            payload: self.payload@,
            written: self.next as nat,
            failure: match self.failure {
                Some(error) => Some(error@),
                None => None,
            },
        }
    }
}

impl AmdEppMgr {
    /// Begins to apply the profile whose token is `profile_key` to every
    /// control file, in order.
    pub fn apply_profile(&self, profile_key: &str) -> (session: ApplySession)
        ensures
            session@ == ApplyState::begin(paths_of(self@), profile_key@),
    {
        let mut payload: String = String::from_str(profile_key);
        payload.append("\n");
        proof {
            reveal_strlit("\n");
            assert(payload@ =~= payload_of(profile_key@));
        }
        let mut paths: Vec<String> = Vec::new();
        let mut i: usize = 0;
        while i < self.locations.len()
            invariant
                i <= self.locations@.len(),
                paths@.len() == i,
                forall|j: int| 0 <= j < i ==> (#[trigger] paths@[j])@ == self.locations@[j].path@,
            decreases self.locations.len() - i,
        {
            paths.push(self.locations[i].path.clone());
            i = i + 1;
        }
        proof {
            assert(paths@.map_values(|p: String| p@) =~= paths_of(self@));
        }
        ApplySession { paths, payload, next: 0, failure: None }
    }
}

impl ApplySession {
    #[verifier::type_invariant]
    spec fn in_range(&self) -> bool {
        self.next <= self.paths@.len()
    }

    /// The write that is due, if one is.
    pub fn pending(&self) -> (request: Option<WriteRequest>)
        ensures
            match request {
                Some(r) => self@.pending() == Some((r.path@, r.payload@)),
                None => self@.pending() is None,
            },
    {
        if self.failure.is_none() && self.next < self.paths.len() {
            Some(
                WriteRequest { path: self.paths[self.next].clone(), payload: self.payload.clone() },
            )
        } else {
            None
        }
    }

    /// Takes note of how the write that was due went.
    pub fn record(&mut self, outcome: WriteOutcome)
        ensures
            final(self)@ == old(self)@.record(outcome@),
    {
        proof {
            use_type_invariant(&*self);
        }
        if self.failure.is_none() && self.next < self.paths.len() {
            let path: String = self.paths[self.next].clone();
            match outcome {
                WriteOutcome::Written => {
                    self.next = self.next + 1;
                },
                WriteOutcome::PermissionDenied(cause) => {
                    self.failure = Some(EppError::PermissionError { path, cause });
                },
                WriteOutcome::OpenFailed(cause) => {
                    self.failure = Some(EppError::IOError { stage: IoStage::Open, path, cause });
                },
                WriteOutcome::WriteFailed(cause) => {
                    self.failure = Some(EppError::IOError { stage: IoStage::Write, path, cause });
                },
            }
        }
    }

    /// How the session ended, once no write is due any more.
    pub fn result(&self) -> (ended: Option<Result<(), EppError>>)
        ensures
            match ended {
                None => self@.result() is None,
                Some(Ok(())) => self@.result() == Some(Ok::<(), EppErrorView>(())),
                Some(Err(error)) => self@.result() == Some(Err::<(), EppErrorView>(error@)),
            },
    {
        match &self.failure {
            Some(error) => Some(Err(clone_error(error))),
            None => if self.next < self.paths.len() {
                None
            } else {
                Some(Ok(()))
            },
        }
    }
}

/// A copy of an error.
fn clone_error(error: &EppError) -> (copy: EppError)
    ensures
        copy@ == error@,
{
    match error {
        EppError::NotFound => EppError::NotFound,
        EppError::PermissionError { path, cause } => EppError::PermissionError {
            path: path.clone(),
            cause: cause.clone(),
        },
        EppError::IOError { stage, path, cause } => EppError::IOError {
            stage: *stage,
            path: path.clone(),
            cause: cause.clone(),
        },
        EppError::InvalidData { path, fault } => EppError::InvalidData {
            path: path.clone(),
            fault: *fault,
        },
        EppError::InvalidArgument { level } => EppError::InvalidArgument { level: *level },
    }
}

} // verus!
