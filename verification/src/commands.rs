//! The decisions behind the app's commands: scan modes, scan results and
//! the permission probe.
use vstd::prelude::*;
use crate::capture::{CaptureError, CaptureErrorView, capture_outcome_view};
use crate::content_type::{ParsedQRContent, parse, parse_view};

verus! {

/// A captured image ready for decoding.
#[derive(Debug, Clone)]
pub struct ScanResult {
    pub image_path: String,
    pub source_type: String,
}

/// The two ways to capture the screen.
#[derive(Debug, Clone, Copy, PartialEq, Eq, Structural)]
pub enum ScanMode {
    Region,
    Window,
}

/// The mode named `mode`, or the error for an unknown name.
pub open spec fn scan_mode_view(mode: Seq<char>) -> Result<ScanMode, Seq<char>> {
    if mode == "region"@ {
        Ok(ScanMode::Region)
    } else if mode == "window"@ {
        Ok(ScanMode::Window)
    } else {
        Err("Invalid scan mode: "@ + mode)
    }
}

/// Reads a scan mode: `"region"` or `"window"`.
pub fn scan_mode(mode: &str) -> (r: Result<ScanMode, String>)
    ensures
        match r {
            Ok(m) => scan_mode_view(mode@) == Ok::<ScanMode, Seq<char>>(m),
            Err(e) => scan_mode_view(mode@) == Err::<ScanMode, Seq<char>>(e@),
        },
{
    let m = String::from_str(mode);
    if m == String::from_str("region") {
        Ok(ScanMode::Region)
    } else if m == String::from_str("window") {
        Ok(ScanMode::Window)
    } else {
        Err(String::from_str("Invalid scan mode: ").concat(mode))
    }
}

impl ScanMode {
    /// The capture tool's flag for this mode: interactive region or window
    /// selection.
    pub fn capture_flag(&self) -> (r: &'static str)
        ensures
            r@ == match self {
                ScanMode::Region => "-i"@,
                ScanMode::Window => "-iw"@,
            },
    {
        match self {
            ScanMode::Region => "-i",
            ScanMode::Window => "-iw",
        }
    }
}

/// What a finished capture gives the caller: the image and its source, or
/// the reason as a short code (`cancelled`, `permission_denied`) or the
/// failure text.
pub open spec fn scan_outcome_view(
    result: Result<(), CaptureErrorView>,
    image_path: Seq<char>,
    mode: Seq<char>,
) -> Result<(Seq<char>, Seq<char>), Seq<char>> {
    match result {
        Ok(()) => Ok((image_path, mode)),
        Err(CaptureErrorView::Cancelled) => Err("cancelled"@),
        Err(CaptureErrorView::PermissionDenied) => Err("permission_denied"@),
        Err(CaptureErrorView::Failed(m)) => Err(m),
    }
}

pub fn scan_outcome(result: Result<(), CaptureError>, image_path: String, mode: String) -> (r: Result<ScanResult, String>)
    ensures
        match r {
            Ok(s) => scan_outcome_view(capture_outcome_view(result), image_path@, mode@) == Ok::<(Seq<char>, Seq<char>), Seq<char>>((s.image_path@, s.source_type@)),
            Err(e) => scan_outcome_view(capture_outcome_view(result), image_path@, mode@) == Err::<(Seq<char>, Seq<char>), Seq<char>>(e@),
        },
{
    match result {
        Ok(()) => Ok(ScanResult { image_path, source_type: mode }),
        Err(CaptureError::Cancelled) => Err(String::from_str("cancelled")),
        Err(CaptureError::PermissionDenied) => Err(String::from_str("permission_denied")),
        Err(CaptureError::Failed(m)) => Err(m),
    }
}

/// Whether a probe capture shows that screen recording is permitted: the
/// capture tool must have succeeded and written more than 1024 bytes
/// (without permission it writes an almost empty image). The size is not
/// looked at when the tool failed.
pub fn capture_shows_permission(status_ok: bool, capture_size: u64) -> (r: bool)
    ensures
        r == (status_ok && capture_size > 1024),
{
    status_ok && capture_size > 1024
}

/// Parses raw QR content; this never fails.
pub fn parse_qr_content(raw: String) -> (r: Result<ParsedQRContent, String>)
    ensures
        r matches Ok(c) && c@ == parse_view(raw@),
{
    Ok(parse(raw.as_str()))
}

} // verus!
