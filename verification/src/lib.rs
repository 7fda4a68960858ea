//! Content classification, sanitising and validation for scanned QR codes.
pub mod text;
pub mod content_type;
pub mod urls;
pub mod ics_sanitizer;
pub mod security;
pub mod history;
pub mod capture;
pub mod commands;
pub mod keychain;
pub mod tray;
pub mod shortcuts;
