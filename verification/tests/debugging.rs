use bunker::cfg::DefaultDebugger;
use bunker::exception::BunkerError;
use bunker::registerable::{DebugFmt, DebugSetting};

#[test]
fn new_sink_starts_at_standard() {
    let d = bunker::cfg::Debug::new(DefaultDebugger);
    assert!(d.get_setting() == DebugSetting::Standard);
}

#[test]
fn standard_writes_to_primary_channel_only() {
    let d = bunker::cfg::Debug::new(DefaultDebugger);
    assert!(d.would_write());
    assert!(!d.would_write_err());
}

#[test]
fn off_writes_to_neither_channel() {
    let mut d = bunker::cfg::Debug::new(DefaultDebugger);
    d.off();
    assert!(d.get_setting() == DebugSetting::Off);
    assert!(!d.would_write());
    assert!(!d.would_write_err());
}

#[test]
fn error_writes_to_both_channels() {
    let mut d = bunker::cfg::Debug::new(DefaultDebugger);
    d.error();
    assert!(d.get_setting() == DebugSetting::Error);
    assert!(d.would_write());
    assert!(d.would_write_err());
}

#[test]
fn is_state_follows_the_level_order() {
    let mut d = bunker::cfg::Debug::new(DefaultDebugger);
    assert!(d.is_state(DebugSetting::Off));
    assert!(d.is_state(DebugSetting::Standard));
    assert!(!d.is_state(DebugSetting::Error));
    d.standard();
    assert!(d.get_setting() == DebugSetting::Standard);
    d.off();
    assert!(d.is_state(DebugSetting::Off));
    assert!(!d.is_state(DebugSetting::Standard));
}

#[test]
fn default_debugger_formats_origin_then_message() {
    let f = DefaultDebugger;
    assert_eq!(f.debug("origin", "message"), "origin:\nmessage");
    assert_eq!(f.debug_err("origin", "message"), "origin:\nERROR! message");
}

#[test]
fn replace_writer_keeps_the_level() {
    let mut d = bunker::cfg::Debug::new(DefaultDebugger);
    d.error();
    d.replace_writer(DefaultDebugger);
    assert!(d.get_setting() == DebugSetting::Error);
}

#[test]
fn bad_request_describes_itself() {
    let e = BunkerError::BadRequest("no path".to_string());
    assert_eq!(e.describe(), "E01 Bad Request: no path");
}

#[test]
fn invalid_pool_size_describes_the_given_size() {
    let e = BunkerError::InvalidPoolSize(0);
    assert_eq!(
        e.describe(),
        "Invalid size assigned to the threadpool! Given: 0. Expected a number greater than 0."
    );
}

#[test]
fn io_error_describes_its_message() {
    let e = BunkerError::IO("connection reset".to_string());
    assert_eq!(e.describe(), "IO Error: connection reset");
}

#[test]
fn no_controller_found_describes_itself() {
    let e = BunkerError::NoControllerFound("/missing".to_string());
    assert_eq!(e.describe(), "E02 No Controller Found: /missing");
}

#[test]
fn frame_too_large_describes_the_length() {
    let e = BunkerError::FrameTooLarge(10000);
    assert_eq!(e.describe(), "Response of length 10000 exceeds the configured maximum.");
}
