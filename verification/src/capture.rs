//! Outcomes of running the system screen-capture tool: what a finished run,
//! or a failure to run it, means for the capture.
use vstd::prelude::*;

verus! {

/// Why a capture did not produce an image.
#[derive(Debug, Clone)]
pub enum CaptureError {
    Cancelled,
    PermissionDenied,
    Failed(String),
}

/// Model of a [`CaptureError`], with the failure text as a sequence.
pub enum CaptureErrorView {
    Cancelled,
    PermissionDenied,
    Failed(Seq<char>),
}

impl View for CaptureError {
    type V = CaptureErrorView;

    open spec fn view(&self) -> CaptureErrorView {
        match self {
            CaptureError::Cancelled => CaptureErrorView::Cancelled,
            CaptureError::PermissionDenied => CaptureErrorView::PermissionDenied,
            CaptureError::Failed(m) => CaptureErrorView::Failed(m@),
        }
    }
}

/// Model of the outcome of a capture step.
pub open spec fn capture_outcome_view(r: Result<(), CaptureError>) -> Result<(), CaptureErrorView> {
    match r {
        Ok(()) => Ok(()),
        Err(e) => Err(e@),
    }
}

/// The user-facing text of a capture error.
pub open spec fn capture_message(e: CaptureErrorView) -> Seq<char> {
    match e {
        CaptureErrorView::Cancelled => "Capture cancelled"@,
        CaptureErrorView::PermissionDenied => "Screen Recording permission denied"@,
        CaptureErrorView::Failed(m) => "Capture failed: "@ + m,
    }
}

impl CaptureError {
    /// The user-facing text of this error.
    pub fn message(&self) -> (r: String)
        ensures
            r@ == capture_message(self@),
    {
        match self {
            CaptureError::Cancelled => String::from_str("Capture cancelled"),
            CaptureError::PermissionDenied => String::from_str("Screen Recording permission denied"),
            CaptureError::Failed(m) => String::from_str("Capture failed: ").concat(m.as_str()),
        }
    }
}

/// The error for a temporary file that could not be created.
pub fn temp_file_failure(reason: &str) -> (e: CaptureError)
    ensures
        e@ == CaptureErrorView::Failed("Temp file: "@ + reason@),
{
    CaptureError::Failed(String::from_str("Temp file: ").concat(reason))
}

/// What the run of the capture tool means: it could not start (`Err`), it
/// ended unsuccessfully (`Ok(false)`: cancelled), or it ended well.
pub open spec fn status_outcome_view(spawned: Result<bool, Seq<char>>) -> Result<(), CaptureErrorView> {
    match spawned {
        Err(e) => Err(CaptureErrorView::Failed("screencapture: "@ + e)),
        Ok(false) => Err(CaptureErrorView::Cancelled),
        Ok(true) => Ok(()),
    }
}

pub fn status_outcome(spawned: Result<bool, String>) -> (r: Result<(), CaptureError>)
    ensures
        capture_outcome_view(r) == status_outcome_view(
            match spawned {
                Ok(b) => Ok(b),
                Err(e) => Err(e@),
            },
        ),
{
    match spawned {
        Err(e) => Err(CaptureError::Failed(String::from_str("screencapture: ").concat(e.as_str()))),
        Ok(false) => Err(CaptureError::Cancelled),
        Ok(true) => Ok(()),
    }
}

/// What the captured file means: unreadable (failure), empty (the user
/// pressed Esc: cancelled), or an image.
pub open spec fn file_outcome_view(size: Result<u64, Seq<char>>) -> Result<(), CaptureErrorView> {
    match size {
        Err(e) => Err(CaptureErrorView::Failed("Read metadata: "@ + e)),
        Ok(n) => if n == 0 {
            Err(CaptureErrorView::Cancelled)
        } else {
            Ok(())
        },
    }
}

pub fn file_outcome(size: Result<u64, String>) -> (r: Result<(), CaptureError>)
    ensures
        capture_outcome_view(r) == file_outcome_view(
            match size {
                Ok(n) => Ok(n),
                Err(e) => Err(e@),
            },
        ),
{
    match size {
        Err(e) => Err(CaptureError::Failed(String::from_str("Read metadata: ").concat(e.as_str()))),
        Ok(n) => if n == 0 {
            Err(CaptureError::Cancelled)
        } else {
            Ok(())
        },
    }
}

} // verus!
