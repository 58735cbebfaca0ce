use bunker::cfg::RouteMap;
use bunker::exception::BunkerError;
use bunker::registerable::{Controller, Route, ServeOutcome};
use bunker::server::select_route;

struct Tag(&'static str);

impl Controller for Tag {
    fn serve(&self, _msg: String) -> ServeOutcome {
        ServeOutcome { response: self.0.to_string(), error: None }
    }
}

fn serve_selected(rm: &RouteMap<Tag>, route: &Route) -> Result<String, BunkerError> {
    let i = select_route(rm, route)?;
    Ok(rm.get(i).serve(String::new()).response)
}

#[test]
fn exact_path_match_is_preferred_over_fallback() {
    let mut rm: RouteMap<Tag> = RouteMap::new();
    rm.register(Route::NotFound, Tag("fallback"));
    rm.register(Route::Path("/".to_string()), Tag("exact"));
    let got = serve_selected(&rm, &Route::Path("/".to_string())).unwrap();
    assert_eq!(got, "exact");
}

#[test]
fn fallback_serves_unmatched_paths() {
    let mut rm: RouteMap<Tag> = RouteMap::new();
    rm.register(Route::NotFound, Tag("fallback"));
    rm.register(Route::Path("/".to_string()), Tag("exact"));
    let got = serve_selected(&rm, &Route::Path("/missing".to_string())).unwrap();
    assert_eq!(got, "fallback");
}

#[test]
fn no_match_and_no_fallback_is_no_controller_found() {
    let mut rm: RouteMap<Tag> = RouteMap::new();
    rm.register(Route::Path("/a".to_string()), Tag("a"));
    let r = serve_selected(&rm, &Route::Path("/b".to_string()));
    assert!(matches!(r, Err(BunkerError::NoControllerFound(_))));
}

#[test]
fn empty_table_is_no_controller_found() {
    let rm: RouteMap<Tag> = RouteMap::new();
    let r = serve_selected(&rm, &Route::Path("/".to_string()));
    assert!(matches!(r, Err(BunkerError::NoControllerFound(_))));
}

#[test]
fn duplicate_registration_keeps_the_later_controller() {
    let mut rm: RouteMap<Tag> = RouteMap::new();
    rm.register(Route::Path("/".to_string()), Tag("one"));
    rm.register(Route::Path("/".to_string()), Tag("two"));
    assert_eq!(rm.len(), 1);
    let got = serve_selected(&rm, &Route::Path("/".to_string())).unwrap();
    assert_eq!(got, "two");
}

#[test]
fn registered_not_found_serves_the_not_found_route() {
    let mut rm: RouteMap<Tag> = RouteMap::new();
    rm.register(Route::NotFound, Tag("fallback"));
    let got = serve_selected(&rm, &Route::NotFound).unwrap();
    assert_eq!(got, "fallback");
}
