use bunker::exception::BunkerError;
use bunker::registerable::ParseOptions;
use bunker::registerable::Route;
use bunker::server::split_request;

#[test]
fn parse_options_separators_check() {
    assert!(ParseOptions::separator(vec![]).is_separators())
}

#[test]
fn parse_options_position_is_not_separators() {
    assert!(!ParseOptions::position(1).is_separators())
}

#[test]
fn position_split_yields_exact_prefix() {
    let r = split_request(&ParseOptions::position(1), "/hello").unwrap();
    match r {
        (Route::Path(p), payload) => {
            assert_eq!(p, "/");
            assert_eq!(payload, "hello");
        }
        _ => panic!("expected a path split"),
    }
}

#[test]
fn position_at_message_end_leaves_empty_payload() {
    let r = split_request(&ParseOptions::position(3), "abc").unwrap();
    match r {
        (Route::Path(p), payload) => {
            assert_eq!(p, "abc");
            assert_eq!(payload, "");
        }
        _ => panic!("expected a path split"),
    }
}

#[test]
fn position_beyond_length_is_bad_request() {
    let r = split_request(&ParseOptions::position(10), "short");
    assert!(matches!(r, Err(BunkerError::BadRequest(_))));
}

#[test]
fn separators_split_at_first_match() {
    let opts = ParseOptions::separator(vec![' ', ':']);
    let r = split_request(&opts, "GET:rest of msg").unwrap();
    match r {
        (Route::Path(p), payload) => {
            assert_eq!(p, "GET");
            assert_eq!(payload, "rest of msg");
        }
        _ => panic!("expected a path split"),
    }
}

#[test]
fn separators_earliest_occurrence_wins() {
    let opts = ParseOptions::separator(vec![':', ' ']);
    let r = split_request(&opts, "a b:c").unwrap();
    match r {
        (Route::Path(p), payload) => {
            assert_eq!(p, "a");
            assert_eq!(payload, "b:c");
        }
        _ => panic!("expected a path split"),
    }
}

#[test]
fn separators_without_match_yield_not_found_with_full_message() {
    let opts = ParseOptions::separator(vec![';']);
    let r = split_request(&opts, "hello").unwrap();
    match r {
        (Route::NotFound, payload) => {
            assert_eq!(payload, "hello");
        }
        _ => panic!("expected the NotFound fallback"),
    }
}

#[test]
fn empty_separator_set_never_matches() {
    let opts = ParseOptions::separator(vec![]);
    let r = split_request(&opts, "anything").unwrap();
    assert!(matches!(r, (Route::NotFound, _)));
}
