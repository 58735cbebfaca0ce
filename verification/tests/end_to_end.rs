use bunker::cfg::Config;
use bunker::cfg::DefaultDebugger;
use bunker::registerable::{Controller, ServeOutcome};
use bunker::server::{handle_request, make_handle, prepare_request, Builder};

struct Upper;

impl Controller for Upper {
    fn serve(&self, msg: String) -> ServeOutcome {
        ServeOutcome { response: msg.to_uppercase(), error: None }
    }
}

struct Echo;

impl Controller for Echo {
    fn serve(&self, msg: String) -> ServeOutcome {
        ServeOutcome { response: msg, error: None }
    }
}

struct Failing;

impl Controller for Failing {
    fn serve(&self, _msg: String) -> ServeOutcome {
        ServeOutcome { response: "partial".to_string(), error: Some("boom".to_string()) }
    }
}

struct Big;

impl Controller for Big {
    fn serve(&self, _msg: String) -> ServeOutcome {
        ServeOutcome { response: "x".repeat(10000), error: None }
    }
}

fn quiet_cfg<C: Controller>(controller: C) -> Config<C, DefaultDebugger> {
    Builder::new()
        .debugger_off()
        .parse_position(1)
        .register(controller, "/".to_string())
        .create_cfg()
        .unwrap()
}

#[test]
fn uppercasing_route_end_to_end() {
    let cfg = quiet_cfg(Upper);
    let (frame, close) = handle_request(&cfg, "test", b"/hello");
    assert_eq!(frame, "0005HELLO");
    assert!(!close);
}

#[test]
fn request_is_trimmed_before_parsing() {
    let cfg = quiet_cfg(Upper);
    let (frame, close) = handle_request(&cfg, "test", b"  /hi \n");
    assert_eq!(frame, "0002HI");
    assert!(!close);
}

#[test]
fn unroutable_request_answers_the_configured_error_text() {
    let cfg: Config<Upper, DefaultDebugger> =
        Builder::new().debugger_off().parse_position(1).create_cfg().unwrap();
    let (frame, close) = handle_request(&cfg, "test", b"/hello");
    assert_eq!(frame, "0015E01 Bad Request");
    assert!(!close);
}

#[test]
fn position_beyond_message_answers_the_configured_error_text() {
    let cfg = Builder::new()
        .debugger_off()
        .parse_position(10)
        .register(Upper, "/".to_string())
        .create_cfg()
        .unwrap();
    let (frame, close) = handle_request(&cfg, "test", b"abc");
    assert_eq!(frame, "0015E01 Bad Request");
    assert!(!close);
}

#[test]
fn controller_error_discards_its_response() {
    let cfg = quiet_cfg(Failing);
    let (frame, close) = handle_request(&cfg, "test", b"/x");
    assert_eq!(frame, "0015E01 Bad Request");
    assert!(!close);
}

#[test]
fn sentinel_response_sends_closing_ack_and_ends_the_loop() {
    let cfg = quiet_cfg(Echo);
    let (frame, close) = handle_request(&cfg, "test", b"/CCONN");
    assert_eq!(frame, "0021Closing connection...");
    assert!(close);
}

#[test]
fn ordinary_response_keeps_the_loop_open() {
    let cfg = quiet_cfg(Echo);
    let (frame, close) = handle_request(&cfg, "test", b"/fine");
    assert_eq!(frame, "0004fine");
    assert!(!close);
}

#[test]
fn overlong_response_is_replaced_by_framed_error_text() {
    let cfg = quiet_cfg(Big);
    let (frame, close) = handle_request(&cfg, "test", b"/x");
    assert_eq!(frame, "0015E01 Bad Request");
    assert!(!close);
}

#[test]
fn prepare_request_decodes_and_trims() {
    assert_eq!(prepare_request(b"  hello \n"), "hello");
    assert_eq!(prepare_request(b""), "");
}

#[test]
fn make_handle_appends_the_ordinal() {
    assert_eq!(make_handle(7), "server::Host::run::ordern(7)");
    assert_eq!(make_handle(120), "server::Host::run::ordern(120)");
}
