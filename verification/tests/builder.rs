use bunker::cfg::{Config, DefaultDebugger};
use bunker::exception::BunkerError;
use bunker::registerable::{Controller, DebugSetting, ServeOutcome};
use bunker::server::Builder;

struct Nop;

impl Controller for Nop {
    fn serve(&self, _msg: String) -> ServeOutcome {
        ServeOutcome { response: String::new(), error: None }
    }
}

#[test]
fn builder_defaults_become_the_configuration() {
    let cfg: Config<Nop, DefaultDebugger> = Builder::new().create_cfg().unwrap();
    assert_eq!(cfg.port, 3055);
    assert_eq!(cfg.addr, [127, 0, 0, 1]);
    assert_eq!(cfg.threads, 1);
    assert_eq!(cfg.read_buffer_size, 1024);
    assert_eq!(cfg.endconn_msg, "CCONN");
    assert_eq!(cfg.mrl, 9999);
    assert_eq!(cfg.er, "E01 Bad Request");
    assert!(!cfg.parse_options.is_separators());
    assert!(cfg.debug.get_setting() == DebugSetting::Standard);
}

#[test]
fn builder_setters_are_reflected_in_the_configuration() {
    let cfg: Config<Nop, DefaultDebugger> = Builder::new()
        .port(8080)
        .addr([0, 0, 0, 0])
        .threads(4)
        .read_buffer_size(2048)
        .endconn_msg("BYE".to_string())
        .max_response_len(99)
        .error_response("ERR".to_string())
        .parse_separator(&vec![' '])
        .debugger_off()
        .create_cfg()
        .unwrap();
    assert_eq!(cfg.port, 8080);
    assert_eq!(cfg.addr, [0, 0, 0, 0]);
    assert_eq!(cfg.threads, 4);
    assert_eq!(cfg.read_buffer_size, 2048);
    assert_eq!(cfg.endconn_msg, "BYE");
    assert_eq!(cfg.mrl, 99);
    assert_eq!(cfg.er, "ERR");
    assert!(cfg.parse_options.is_separators());
    assert!(cfg.debug.get_setting() == DebugSetting::Off);
}

#[test]
fn zero_workers_fail_configuration_with_invalid_pool_size() {
    let r: Result<Config<Nop, DefaultDebugger>, BunkerError> =
        Builder::new().threads(0).create_cfg();
    assert!(matches!(r, Err(BunkerError::InvalidPoolSize(0))));
}

#[test]
fn error_text_that_cannot_be_framed_fails_configuration() {
    let r: Result<Config<Nop, DefaultDebugger>, BunkerError> =
        Builder::new().max_response_len(9999).error_response("x".repeat(9999)).create_cfg();
    assert!(matches!(r, Err(BunkerError::FrameTooLarge(9999))));
}

#[test]
fn error_text_that_just_fits_passes_configuration() {
    let cfg: Config<Nop, DefaultDebugger> =
        Builder::new().max_response_len(9999).error_response("x".repeat(9995)).create_cfg().unwrap();
    assert_eq!(cfg.er.len(), 9995);
}
