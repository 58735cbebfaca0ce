//! The pieces an embedding application registers with the server: routes,
//! controllers, debug formatters, and the request parsing strategy.

use vstd::prelude::*;

verus! {

/// Dispatch key for the route table: a concrete path string, or the
/// reserved `NotFound` fallback entry.
pub enum Route {
    NotFound,
    Path(String),
}

/// Ghost image of a `Route`: the path is seen as its character sequence.
pub enum RouteView {
    NotFound,
    Path(Seq<char>),
}

impl View for Route {
    type V = RouteView;

    open spec fn view(&self) -> RouteView {
        match self {
            Route::NotFound => RouteView::NotFound,
            Route::Path(p) => RouteView::Path(p@),
        }
    }
}

impl PartialEq for Route {
    fn eq(&self, other: &Route) -> (r: bool) {
        match (self, other) {
            (Route::NotFound, Route::NotFound) => true,
            (Route::Path(a), Route::Path(b)) => a.eq(b),
            _ => false,
        }
    }
}

impl vstd::std_specs::cmp::PartialEqSpecImpl for Route {
    open spec fn obeys_eq_spec() -> bool {
        true
    }

    open spec fn eq_spec(&self, other: &Route) -> bool {
        self@ == other@
    }
}

/// The strategy used to split an incoming message into a route prefix and a
/// payload. A message is split either at a fixed character offset or at the
/// first occurrence of one of a set of separator characters; by construction
/// the two strategies are mutually exclusive.
pub enum ParseOptions {
    Position(usize),
    Separators(Vec<char>),
}

/// Ghost image of a `ParseOptions`: the separator list is seen as a sequence.
pub enum ParseOptionsView {
    Position(nat),
    Separators(Seq<char>),
}

impl View for ParseOptions {
    type V = ParseOptionsView;

    open spec fn view(&self) -> ParseOptionsView {
        match self {
            ParseOptions::Position(n) => ParseOptionsView::Position(*n as nat),
            ParseOptions::Separators(s) => ParseOptionsView::Separators(s@),
        }
    }
}

impl ParseOptions {
    /// Split incoming messages at the given character offset.
    pub fn position(position: usize) -> (r: ParseOptions)
        ensures
            r@ == ParseOptionsView::Position(position as nat),
    {
        ParseOptions::Position(position)
    }

    /// Split incoming messages at the first occurrence of any of the given
    /// separator characters.
    pub fn separator(separator: Vec<char>) -> (r: ParseOptions)
        ensures
            r@ == ParseOptionsView::Separators(separator@),
    {
        ParseOptions::Separators(separator)
    }

    /// Checks if this option is set to using separators. If it is not,
    /// it is set to using a position.
    pub fn is_separators(&self) -> (r: bool)
        ensures
            r == (self@ is Separators),
            !r == (self@ is Position),
    {
        match self {
            ParseOptions::Position(_) => false,
            ParseOptions::Separators(_) => true,
        }
    }
}

/// A parse strategy is always exactly one of the two variants: no value is
/// both a fixed position and a separator set, and none is neither.
pub proof fn lemma_parse_options_exclusive(p: ParseOptions)
    ensures
        (p@ is Position) <==> !(p@ is Separators),
{
}

/// What a controller hands back for one request: the response text, and an
/// optional error description. A non-empty error makes the runtime discard
/// the response and substitute the configured error text.
pub struct ServeOutcome {
    pub response: String,
    pub error: Option<String>,
}

/// Basic interface for accepting any request and returning a response.
/// `Controller::serve` is called when a request's route matches this
/// controller's registration, so provide an implementation for
/// response-writing logic.
///
/// A response is expected even if an error occurred; any error is reported
/// in the outcome's `error` slot, which the runtime logs at error level.
pub trait Controller: Send + Sync {
    /// Is called if a request's route matches this controller.
    ///
    /// - `msg`: the request received from the client, with the route prefix
    ///   removed.
    fn serve(&self, msg: String) -> ServeOutcome;
}

/// For custom implementations of the server's formatter for debugging.
///
/// Its two methods, `debug` and `debug_err`, return a string that is used to
/// write to the primary or the error channel respectively. `debug_err` has a
/// default implementation which only calls `debug`.
pub trait DebugFmt: Send + Sync {
    fn debug(&self, origin: &str, message: &str) -> String;

    fn debug_err(&self, origin: &str, message: &str) -> String {
        self.debug(origin, message)
    }
}

/// How much diagnostic output the server produces. The levels are totally
/// ordered by `rank`: `Off < Standard < Error`.
#[derive(Clone, Copy, PartialEq, Eq, Structural)]
pub enum DebugSetting {
    Off,
    Standard,
    Error,
}

/// The place of a debug level in the order `Off < Standard < Error`.
pub open spec fn rank(s: DebugSetting) -> int {
    match s {
        DebugSetting::Off => 0,
        DebugSetting::Standard => 1,
        DebugSetting::Error => 2,
    }
}

/// Whether a server at debug level `s` writes to the primary channel.
pub open spec fn writes_primary(s: DebugSetting) -> bool {
    rank(s) >= 1
}

/// Whether a server at debug level `s` writes to the error channel.
pub open spec fn writes_error(s: DebugSetting) -> bool {
    rank(s) >= 2
}

/// The level gates of the two debug channels: `Off` writes to neither
/// channel, `Standard` writes to the primary channel only, and `Error`
/// writes to both.
pub proof fn lemma_debug_gating()
    ensures
        !writes_primary(DebugSetting::Off),
        !writes_error(DebugSetting::Off),
        writes_primary(DebugSetting::Standard),
        !writes_error(DebugSetting::Standard),
        writes_primary(DebugSetting::Error),
        writes_error(DebugSetting::Error),
{
}

} // verus!
