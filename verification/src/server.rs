//! The per-connection request/response step and the builder that assembles
//! a server configuration. One step of the connection loop is: decode the
//! received bytes as text, trim it, split it into route prefix and payload,
//! dispatch to the registered controller, absorb any failure into the
//! configured error text, watch for the end-connection sentinel, and frame
//! the final response for the wire. The socket reads and writes around this
//! step stay outside the library.

use vstd::prelude::*;
use vstd::pervasive::unreached;
use vstd::string::{StrSliceExecFns, StringExecFns};

use crate::cfg::{Config, DefaultDebugger, RouteMap};
use crate::exception::BunkerError;
use crate::frame::{
    dec_digits, dec_string, digit_count, encode, frame_spec, spec_digit_count,
};
use crate::registerable::{
    Controller, DebugFmt, ParseOptions, ParseOptionsView, Route, RouteView, ServeOutcome,
};

verus! {

/// The text that `String::from_utf8_lossy` decodes from the given bytes:
/// a function of the bytes alone, with invalid sequences replaced.
pub uninterp spec fn lossy_of(bytes: Seq<u8>) -> Seq<char>;

/// The text that `str::trim` leaves of the given text: a function of the
/// text alone, with surrounding whitespace removed.
pub uninterp spec fn trim_of(s: Seq<char>) -> Seq<char>;

/// Relies on `String::from_utf8_lossy`: decodes bytes as text, replacing
/// invalid sequences instead of failing; the result depends on the bytes
/// alone.
#[verifier::external_body]
fn lossy_utf8(bytes: &[u8]) -> (r: String)
    ensures
        r@ == lossy_of(bytes@),
{
    String::from_utf8_lossy(bytes).into_owned()
}

/// Relies on `str::trim`: removes leading and trailing whitespace; the
/// result depends on the text alone.
#[verifier::external_body]
fn trim_text(s: &str) -> (r: String)
    ensures
        r@ == trim_of(s@),
{
    s.trim().to_owned()
}

/// Decodes one received buffer as text and trims surrounding whitespace,
/// readying it for the whitespace-sensitive parse strategies.
pub fn prepare_request(raw: &[u8]) -> (r: String)
    ensures
        r@ == trim_of(lossy_of(raw@)),
{
    let text = lossy_utf8(raw);
    trim_text(text.as_str())
}

/// The position of the first character of `s` that occurs in `seps`, and
/// `s.len()` when none does.
pub open spec fn first_sep_index(s: Seq<char>, seps: Seq<char>) -> int
    decreases s.len(),
{
    if s.len() == 0 {
        0
    } else if seps.contains(s[0]) {
        0
    } else {
        1 + first_sep_index(s.drop_first(), seps)
    }
}

/// `first_sep_index` points at the first separator: everything before it
/// is no separator, and it is a separator unless it is the end.
pub proof fn lemma_first_sep_index(s: Seq<char>, seps: Seq<char>)
    ensures
        0 <= first_sep_index(s, seps) <= s.len(),
        first_sep_index(s, seps) < s.len() ==> seps.contains(s[first_sep_index(s, seps)]),
        forall|j: int| 0 <= j < first_sep_index(s, seps) ==> !seps.contains(#[trigger] s[j]),
    decreases s.len(),
{
    if s.len() == 0 {
    } else if seps.contains(s[0]) {
    } else {
        lemma_first_sep_index(s.drop_first(), seps);
        let rest = s.drop_first();
        let i = first_sep_index(s, seps);
        assert(i == 1 + first_sep_index(rest, seps));
        assert forall|j: int| 0 <= j < i implies !seps.contains(#[trigger] s[j]) by {
            if j == 0 {
            } else {
                assert(rest[j - 1] == s[j]);
                assert(!seps.contains(rest[j - 1]));
            }
        }
        if i < s.len() {
            assert(rest[i - 1] == s[i]);
        }
    }
}

/// An index below which nothing matches and at which something matches (or
/// the end) is exactly `first_sep_index`.
pub proof fn lemma_first_sep_index_unique(s: Seq<char>, seps: Seq<char>, i: int)
    requires
        0 <= i <= s.len(),
        forall|j: int| 0 <= j < i ==> !seps.contains(#[trigger] s[j]),
        i < s.len() ==> seps.contains(s[i]),
    ensures
        first_sep_index(s, seps) == i,
    decreases s.len(),
{
    if i == 0 {
        if s.len() > 0 && !seps.contains(s[0]) {
            assert(i < s.len());
        }
    } else {
        assert(!seps.contains(s[0]));
        let rest = s.drop_first();
        assert forall|j: int| 0 <= j < i - 1 implies !seps.contains(#[trigger] rest[j]) by {
            assert(rest[j] == s[j + 1]);
        }
        if i - 1 < rest.len() {
            assert(rest[i - 1] == s[i]);
        }
        lemma_first_sep_index_unique(rest, seps, i - 1);
    }
}


/// How a message is split before routing: into a route and a payload, or
/// rejected as a bad request.
pub enum SplitView {
    Split(RouteView, Seq<char>),
    Reject,
}

/// What splitting the trimmed message `s` under `opts` yields. A fixed
/// position beyond the end of the message is rejected; a separator scan
/// that finds nothing classifies the whole message as route `NotFound`
/// with the full message as payload.
pub open spec fn split_spec(opts: ParseOptionsView, s: Seq<char>) -> SplitView {
    match opts {
        ParseOptionsView::Position(n) => {
            if n <= s.len() {
                SplitView::Split(
                    RouteView::Path(s.subrange(0, n as int)),
                    s.subrange(n as int, s.len() as int),
                )
            } else {
                SplitView::Reject
            }
        },
        ParseOptionsView::Separators(seps) => {
            let i = first_sep_index(s, seps);
            if i < s.len() {
                SplitView::Split(
                    RouteView::Path(s.subrange(0, i)),
                    s.subrange(i + 1, s.len() as int),
                )
            } else {
                SplitView::Split(RouteView::NotFound, s)
            }
        },
    }
}

/// Splitting at a fixed position `n` always yields a path prefix of
/// exactly `n` characters and the rest as payload when `n` is within the
/// message, and is rejected as a bad request, never an out-of-bounds
/// fault, when `n` exceeds the message length.
pub proof fn lemma_position_split(n: nat, s: Seq<char>)
    ensures
        n <= s.len() ==> split_spec(ParseOptionsView::Position(n), s) == SplitView::Split(
            RouteView::Path(s.subrange(0, n as int)),
            s.subrange(n as int, s.len() as int),
        ) && s.subrange(0, n as int).len() == n,
        n > s.len() ==> split_spec(ParseOptionsView::Position(n), s) is Reject,
{
}

/// Splitting by separators cuts strictly at the first matching character,
/// which is itself dropped; when no character matches, the whole message
/// becomes the payload of route `NotFound`.
pub proof fn lemma_separator_split(seps: Seq<char>, s: Seq<char>)
    ensures
        (exists|i: int| 0 <= i < s.len() && seps.contains(#[trigger] s[i])) ==> ({
            let i = first_sep_index(s, seps);
            &&& 0 <= i < s.len()
            &&& seps.contains(s[i])
            &&& forall|j: int| 0 <= j < i ==> !seps.contains(#[trigger] s[j])
            &&& split_spec(ParseOptionsView::Separators(seps), s) == SplitView::Split(
                RouteView::Path(s.subrange(0, i)),
                s.subrange(i + 1, s.len() as int),
            )
        }),
        (forall|i: int| 0 <= i < s.len() ==> !seps.contains(#[trigger] s[i])) ==> split_spec(
            ParseOptionsView::Separators(seps),
            s,
        ) == SplitView::Split(RouteView::NotFound, s),
{
    lemma_first_sep_index(s, seps);
    let i = first_sep_index(s, seps);
    if exists|k: int| 0 <= k < s.len() && seps.contains(#[trigger] s[k]) {
        let k = choose|k: int| 0 <= k < s.len() && seps.contains(#[trigger] s[k]);
        if i == s.len() {
            assert(!seps.contains(s[k]));
        }
    }
}

/// A fresh vector holding the same characters.
fn copy_chars(v: &Vec<char>) -> (r: Vec<char>)
    ensures
        r@ == v@,
{
    let n = v.len();
    let mut r: Vec<char> = Vec::new();
    let mut i: usize = 0;
    while i < n
        invariant
            n == v@.len(),
            i <= n,
            r@ == v@.subrange(0, i as int),
        decreases n - i,
    {
        r.push(v[i]);
        proof {
            assert(r@ =~= v@.subrange(0, i + 1));
        }
        i = i + 1;
    }
    proof {
        assert(v@.subrange(0, n as int) =~= v@);
    }
    r
}

/// Whether `c` occurs among the separator characters.
fn contains_char(seps: &Vec<char>, c: char) -> (r: bool)
    ensures
        r == seps@.contains(c),
{
    let n = seps.len();
    let mut i: usize = 0;
    while i < n
        invariant
            n == seps@.len(),
            i <= n,
            forall|j: int| 0 <= j < i ==> seps@[j] != c,
        decreases n - i,
    {
        if seps[i] == c {
            return true;
        }
        i = i + 1;
    }
    assert(!seps@.contains(c));
    false
}

/// The position of the first character of `req` that occurs in `seps`, and
/// the length of `req` when none does.
fn find_first_sep(req: &str, seps: &Vec<char>) -> (r: usize)
    ensures
        r == first_sep_index(req@, seps@),
{
    let len = req.unicode_len();
    let mut i: usize = 0;
    while i < len
        invariant
            i <= len,
            len == req@.len(),
            forall|j: int| 0 <= j < i ==> !seps@.contains(#[trigger] req@[j]),
        decreases len - i,
    {
        let c = req.get_char(i);
        if contains_char(seps, c) {
            proof {
                lemma_first_sep_index_unique(req@, seps@, i as int);
            }
            return i;
        }
        i = i + 1;
    }
    proof {
        lemma_first_sep_index_unique(req@, seps@, len as int);
    }
    len
}

/// Splits the trimmed request into a route and a payload, by the
/// configured strategy. At a fixed position `n`, the first `n` characters
/// are the path and the rest the payload; a position beyond the message is
/// a `BadRequest`, never an out-of-bounds fault. With separators, the
/// first matching character determines the split and is itself dropped;
/// when none matches, the whole message becomes the payload of route
/// `NotFound`.
pub fn split_request(opts: &ParseOptions, req: &str) -> (r: Result<(Route, String), BunkerError>)
    ensures
        match split_spec(opts@, req@) {
            SplitView::Split(route, payload) => r matches Ok(p) && p.0@ == route && p.1@
                == payload,
            SplitView::Reject => r matches Err(BunkerError::BadRequest(_)),
        },
{
    let len = req.unicode_len();
    match opts {
        ParseOptions::Position(n) => {
            if *n <= len {
                let prefix = req.substring_char(0, *n).to_owned();
                let payload = req.substring_char(*n, len).to_owned();
                Ok((Route::Path(prefix), payload))
            } else {
                Err(
                    BunkerError::BadRequest(
                        "Split position exceeds the message length.".to_owned(),
                    ),
                )
            }
        },
        ParseOptions::Separators(seps) => {
            let i = find_first_sep(req, seps);
            if i < len {
                let prefix = req.substring_char(0, i).to_owned();
                let payload = req.substring_char(i + 1, len).to_owned();
                Ok((Route::Path(prefix), payload))
            } else {
                Ok((Route::NotFound, req.to_owned()))
            }
        },
    }
}

/// Picks the controller entry for a parsed route: the exact match wherever
/// one is registered, else the `NotFound` fallback, else the
/// `NoControllerFound` condition.
pub fn select_route<C>(rm: &RouteMap<C>, route: &Route) -> (r: Result<usize, BunkerError>)
    ensures
        rm.contains_key(route@) ==> (r matches Ok(i) && i < rm.entries().len()
            && rm.entries()[i as int].0@ == route@),
        !rm.contains_key(route@) && rm.contains_key(RouteView::NotFound) ==> (r matches Ok(i) && i
            < rm.entries().len() && rm.entries()[i as int].0@ == RouteView::NotFound),
        !rm.contains_key(route@) && !rm.contains_key(RouteView::NotFound) ==> r matches Err(
            BunkerError::NoControllerFound(_),
        ),
{
    match rm.lookup(route) {
        Some(i) => Ok(i),
        None => match rm.lookup(&Route::NotFound) {
            Some(i) => Ok(i),
            None => Err(
                BunkerError::NoControllerFound(
                    "The parsed path matches no registration.".to_owned(),
                ),
            ),
        },
    }
}

/// What one dispatch produced, seen abstractly: a controller's response
/// and optional error description, or a failure on the way to a
/// controller.
pub enum OutcomeView {
    Served(Seq<char>, Option<Seq<char>>),
    Failed,
}

/// The ghost image of an optional error description.
pub open spec fn opt_text_view(o: Option<String>) -> Option<Seq<char>> {
    match o {
        Some(s) => Some(s@),
        None => None,
    }
}

/// The ghost image of a dispatch result.
pub open spec fn outcome_view(o: Result<ServeOutcome, BunkerError>) -> OutcomeView {
    match o {
        Ok(s) => OutcomeView::Served(s.response@, opt_text_view(s.error)),
        Err(_) => OutcomeView::Failed,
    }
}

/// The response after error substitution: the controller's response where
/// it reported no error, the configured error text everywhere else.
pub open spec fn effective_response(er: Seq<char>, o: OutcomeView) -> Seq<char> {
    match o {
        OutcomeView::Served(resp, err) => if err is Some {
            er
        } else {
            resp
        },
        OutcomeView::Failed => er,
    }
}

/// The fixed acknowledgement sent in place of the end-connection sentinel.
pub open spec fn closing_ack() -> Seq<char> {
    "Closing connection..."@
}

/// Whether this outcome ends the connection: its effective response equals
/// the configured end-connection sentinel.
pub open spec fn closes(endconn: Seq<char>, er: Seq<char>, o: OutcomeView) -> bool {
    effective_response(er, o) == endconn
}

/// The response text actually framed: the closing acknowledgement when the
/// connection ends, the effective response otherwise.
pub open spec fn reply_body(endconn: Seq<char>, er: Seq<char>, o: OutcomeView) -> Seq<char> {
    if closes(endconn, er, o) {
        closing_ack()
    } else {
        effective_response(er, o)
    }
}

/// The bytes that go on the wire for this outcome: the framed reply body,
/// or the framed error text where the body itself exceeds the maximum
/// response length.
pub open spec fn wire_frame(endconn: Seq<char>, er: Seq<char>, mrl: int, o: OutcomeView) -> Seq<
    char,
> {
    if reply_body(endconn, er, o).len() <= mrl {
        frame_spec(reply_body(endconn, er, o), mrl)
    } else {
        frame_spec(er, mrl)
    }
}

/// Turns one dispatch result into the framed wire response and the
/// end-of-loop flag. An error description is logged at error level and
/// replaced by the configured error text; a response equal to the
/// end-connection sentinel is acknowledged and marks the connection for
/// closing; a response the framer rejects is logged and substituted with
/// the error text framed, which the configuration guarantees to fit.
pub fn finalize_response<C: Controller, W: DebugFmt>(
    cfg: &Config<C, W>,
    handle: &str,
    outcome: Result<ServeOutcome, BunkerError>,
) -> (r: (String, bool))
    requires
        cfg.wf(),
    ensures
        r.0@ == wire_frame(cfg.endconn_msg@, cfg.er@, cfg.mrl as int, outcome_view(outcome)),
        r.1 == closes(cfg.endconn_msg@, cfg.er@, outcome_view(outcome)),
{
    let ghost oview = outcome_view(outcome);
    let response: String = match outcome {
        Ok(o) => match o.error {
            Some(desc) => {
                cfg.debug.write_err(handle, desc.as_str());
                cfg.er.clone()
            },
            None => o.response,
        },
        Err(e) => {
            let desc = e.describe();
            cfg.debug.write_err(handle, desc.as_str());
            cfg.er.clone()
        },
    };
    assert(response@ == effective_response(cfg.er@, oview));
    let mut response = response;
    let mut close = false;
    if response.eq(&cfg.endconn_msg) {
        cfg.debug.write(handle, "Controller ending connection.");
        response = "Closing connection...".to_owned();
        close = true;
    }
    assert(close == closes(cfg.endconn_msg@, cfg.er@, oview));
    assert(response@ == reply_body(cfg.endconn_msg@, cfg.er@, oview));
    let framed: String = match encode(response.as_str(), cfg.mrl) {
        Ok(f) => f,
        Err(err) => {
            let desc = err.describe();
            cfg.debug.write_err(handle, desc.as_str());
            match encode(cfg.er.as_str(), cfg.mrl) {
                Ok(f) => f,
                Err(_) => unreached(),
            }
        },
    };
    (framed, close)
}

/// The log-correlation origin for a connection: the run loop's name with
/// the connection's ordinal id.
pub open spec fn handle_spec(n: int) -> Seq<char> {
    "server::Host::run::ordern("@ + dec_digits(n, spec_digit_count(n)) + ")"@
}

/// Builds the log-correlation origin text for the connection with ordinal
/// id `ordern`.
pub fn make_handle(ordern: usize) -> (r: String)
    ensures
        r@ == handle_spec(ordern as int),
{
    let mut s = "server::Host::run::ordern(".to_owned();
    s.append(dec_string(ordern).as_str());
    s.append(")");
    s
}

/// One full step of the connection loop, from received bytes to the framed
/// response and the end-of-loop flag: decode and trim the bytes, split
/// them into route and payload, dispatch to the selected controller, and
/// finalize the response. Every failure on the way is absorbed into the
/// configured error text; nothing here terminates the server.
pub fn handle_request<C: Controller, W: DebugFmt>(
    cfg: &Config<C, W>,
    handle: &str,
    raw: &[u8],
) -> (r: (String, bool))
    requires
        cfg.wf(),
    ensures
        ({
            let text = trim_of(lossy_of(raw@));
            match split_spec(cfg.parse_options@, text) {
                SplitView::Reject => r.0@ == wire_frame(
                    cfg.endconn_msg@,
                    cfg.er@,
                    cfg.mrl as int,
                    OutcomeView::Failed,
                ) && r.1 == closes(cfg.endconn_msg@, cfg.er@, OutcomeView::Failed),
                SplitView::Split(route, payload) => {
                    if cfg.rm.contains_key(route) || cfg.rm.contains_key(RouteView::NotFound) {
                        exists|resp: Seq<char>, errd: Option<Seq<char>>|
                            r.0@ == wire_frame(
                                cfg.endconn_msg@,
                                cfg.er@,
                                cfg.mrl as int,
                                OutcomeView::Served(resp, errd),
                            ) && r.1 == closes(
                                cfg.endconn_msg@,
                                cfg.er@,
                                OutcomeView::Served(resp, errd),
                            )
                    } else {
                        r.0@ == wire_frame(
                            cfg.endconn_msg@,
                            cfg.er@,
                            cfg.mrl as int,
                            OutcomeView::Failed,
                        ) && r.1 == closes(cfg.endconn_msg@, cfg.er@, OutcomeView::Failed)
                    }
                },
            }
        }),
{
    let text = prepare_request(raw);
    let mut received = "Received message: ".to_owned();
    received.append(text.as_str());
    cfg.debug.write(handle, received.as_str());
    let outcome: Result<ServeOutcome, BunkerError> = match split_request(
        &cfg.parse_options,
        text.as_str(),
    ) {
        Ok((route, payload)) => match select_route(&cfg.rm, &route) {
            Ok(i) => {
                let out = cfg.rm.get(i).serve(payload);
                proof {
                    assert(outcome_view(Ok::<ServeOutcome, BunkerError>(out))
                        == OutcomeView::Served(out.response@, opt_text_view(out.error)));
                }
                Ok(out)
            },
            Err(e) => Err(e),
        },
        Err(e) => Err(e),
    };
    let ghost osnap = outcome;
    let r = finalize_response(cfg, handle, outcome);
    proof {
        match osnap {
            Ok(o) => {
                let resp = o.response@;
                let errd = opt_text_view(o.error);
                assert(r.0@ == wire_frame(
                    cfg.endconn_msg@,
                    cfg.er@,
                    cfg.mrl as int,
                    OutcomeView::Served(resp, errd),
                ) && r.1 == closes(cfg.endconn_msg@, cfg.er@, OutcomeView::Served(resp, errd)));
            },
            Err(_) => {},
        }
    }
    r
}


/// Builder for configuring server options. After setting the options, call
/// `create_cfg`, which consumes the builder and validates the assembled
/// configuration.
///
/// Defaults: port 3055, address 127.0.0.1, one worker, a 1024-byte read
/// buffer, end-connection sentinel "CCONN", parsing at position 1, debug
/// level `Standard` with the default formatter, an empty route table,
/// maximum response length 9999, and error text "E01 Bad Request".
pub struct Builder<C: Controller, W: DebugFmt> {
    pub port: u16,
    pub threads: usize,
    pub read_buffer_size: usize,
    pub addr: [u8; 4],
    pub endconn_msg: String,
    pub parse_options: ParseOptions,
    pub debug: crate::cfg::Debug<W>,
    pub rm: RouteMap<C>,
    pub mrl: usize,
    pub er: String,
}

impl<C: Controller> Builder<C, DefaultDebugger> {
    /// A builder holding every default.
    pub fn new() -> (r: Builder<C, DefaultDebugger>)
        ensures
            r.port == 3055,
            r.threads == 1,
            r.read_buffer_size == 1024,
            r.addr == [127u8, 0u8, 0u8, 1u8],
            r.endconn_msg@ == "CCONN"@,
            r.parse_options@ == ParseOptionsView::Position(1),
            r.debug.setting() == crate::registerable::DebugSetting::Standard,
            r.rm.entries() == Seq::<(Route, C)>::empty(),
            r.rm.wf(),
            r.mrl == 9999,
            r.er@ == "E01 Bad Request"@,
            r.wf(),
    {
        let r = Builder {
            port: 3055,
            threads: 1,
            read_buffer_size: 1024,
            addr: [127, 0, 0, 1],
            endconn_msg: "CCONN".to_owned(),
            parse_options: ParseOptions::position(1),
            debug: crate::cfg::Debug::new(DefaultDebugger),
            rm: RouteMap::new(),
            mrl: 9999,
            er: "E01 Bad Request".to_owned(),
        };
        proof {
            reveal_strlit("E01 Bad Request");
            assert(spec_digit_count(9999) == 4) by {
                reveal_with_fuel(spec_digit_count, 5);
            }
        }
        r
    }
}

impl<C: Controller, W: DebugFmt> Builder<C, W> {
    /// What every builder keeps true: a positive read buffer, a positive
    /// maximum response length that the error text plus the frame header
    /// fits into, and a route table without duplicate keys.
    pub open spec fn wf(&self) -> bool {
        &&& self.read_buffer_size >= 1
        &&& self.mrl >= 1
        &&& self.er@.len() + spec_digit_count(self.mrl as int) <= self.mrl
        &&& self.rm.wf()
    }

    /// All fields but the route table and the debug sink, unchanged.
    pub open spec fn same_plain_fields(&self, other: &Builder<C, W>) -> bool {
        &&& self.port == other.port
        &&& self.threads == other.threads
        &&& self.read_buffer_size == other.read_buffer_size
        &&& self.addr == other.addr
        &&& self.endconn_msg == other.endconn_msg
        &&& self.parse_options == other.parse_options
        &&& self.mrl == other.mrl
        &&& self.er == other.er
    }

    /// Stops the server from writing debugging information.
    pub fn debugger_off(self) -> (r: Builder<C, W>)
        ensures
            r.same_plain_fields(&self),
            r.rm == self.rm,
            r.debug.setting() == crate::registerable::DebugSetting::Off,
            r.debug.formatter() == self.debug.formatter(),
    {
        let mut b = self;
        b.debug.off();
        b
    }

    /// Sets the port for the TCP server.
    pub fn port(self, port: u16) -> (r: Builder<C, W>)
        ensures
            r.port == port,
            r.threads == self.threads,
            r.read_buffer_size == self.read_buffer_size,
            r.addr == self.addr,
            r.endconn_msg == self.endconn_msg,
            r.parse_options == self.parse_options,
            r.debug == self.debug,
            r.rm == self.rm,
            r.mrl == self.mrl,
            r.er == self.er,
    {
        let mut b = self;
        b.port = port;
        b
    }

    /// Sets the address the server binds.
    pub fn addr(self, addr: [u8; 4]) -> (r: Builder<C, W>)
        ensures
            r.addr == addr,
            r.port == self.port,
            r.threads == self.threads,
            r.read_buffer_size == self.read_buffer_size,
            r.endconn_msg == self.endconn_msg,
            r.parse_options == self.parse_options,
            r.debug == self.debug,
            r.rm == self.rm,
            r.mrl == self.mrl,
            r.er == self.er,
    {
        let mut b = self;
        b.addr = addr;
        b
    }

    /// Sets the number of worker threads given to the internal pool. A
    /// count of zero is reported as a construction failure by `create_cfg`.
    pub fn threads(self, threads: usize) -> (r: Builder<C, W>)
        ensures
            r.threads == threads,
            r.port == self.port,
            r.read_buffer_size == self.read_buffer_size,
            r.addr == self.addr,
            r.endconn_msg == self.endconn_msg,
            r.parse_options == self.parse_options,
            r.debug == self.debug,
            r.rm == self.rm,
            r.mrl == self.mrl,
            r.er == self.er,
    {
        let mut b = self;
        b.threads = threads;
        b
    }

    /// Sets the size of the buffer one read call fills, and with it the
    /// maximum number of bytes of a single incoming message.
    pub fn read_buffer_size(self, read_buffer_size: usize) -> (r: Builder<C, W>)
        requires
            read_buffer_size >= 1,
        ensures
            r.read_buffer_size == read_buffer_size,
            r.port == self.port,
            r.threads == self.threads,
            r.addr == self.addr,
            r.endconn_msg == self.endconn_msg,
            r.parse_options == self.parse_options,
            r.debug == self.debug,
            r.rm == self.rm,
            r.mrl == self.mrl,
            r.er == self.er,
    {
        let mut b = self;
        b.read_buffer_size = read_buffer_size;
        b
    }

    /// Sets the string that is checked for to close the connection.
    pub fn endconn_msg(self, endconn_msg: String) -> (r: Builder<C, W>)
        ensures
            r.endconn_msg == endconn_msg,
            r.port == self.port,
            r.threads == self.threads,
            r.read_buffer_size == self.read_buffer_size,
            r.addr == self.addr,
            r.parse_options == self.parse_options,
            r.debug == self.debug,
            r.rm == self.rm,
            r.mrl == self.mrl,
            r.er == self.er,
    {
        let mut b = self;
        b.endconn_msg = endconn_msg;
        b
    }

    /// Sets the maximum response length; its digit count is the width of
    /// every frame header the server writes.
    pub fn max_response_len(self, mrl: usize) -> (r: Builder<C, W>)
        requires
            mrl >= 1,
        ensures
            r.mrl == mrl,
            r.port == self.port,
            r.threads == self.threads,
            r.read_buffer_size == self.read_buffer_size,
            r.addr == self.addr,
            r.endconn_msg == self.endconn_msg,
            r.parse_options == self.parse_options,
            r.debug == self.debug,
            r.rm == self.rm,
            r.er == self.er,
    {
        let mut b = self;
        b.mrl = mrl;
        b
    }

    /// Sets the fixed text every absorbed failure is answered with.
    pub fn error_response(self, er: String) -> (r: Builder<C, W>)
        ensures
            r.er == er,
            r.port == self.port,
            r.threads == self.threads,
            r.read_buffer_size == self.read_buffer_size,
            r.addr == self.addr,
            r.endconn_msg == self.endconn_msg,
            r.parse_options == self.parse_options,
            r.debug == self.debug,
            r.rm == self.rm,
            r.mrl == self.mrl,
    {
        let mut b = self;
        b.er = er;
        b
    }

    /// Registers a controller in the route map under the given path: for a
    /// client to reach it, the route prefix of its message must equal the
    /// path. Registering the same path twice keeps the later controller.
    pub fn register(self, controller: C, path: String) -> (r: Builder<C, W>)
        requires
            self.rm.wf(),
        ensures
            r.same_plain_fields(&self),
            r.debug == self.debug,
            r.rm.wf(),
            r.rm.contains_key(RouteView::Path(path@)),
            forall|k: RouteView| k != RouteView::Path(path@) ==> r.rm.contains_key(k)
                == self.rm.contains_key(k),
    {
        let mut b = self;
        let ghost before = b.rm;
        let ghost keysnap = Route::Path(path);
        let ghost csnap = controller;
        b.rm.register(Route::Path(path), controller);
        proof {
            lemma_register_contains(before, b.rm, keysnap, csnap);
        }
        b
    }

    /// Registers the controller that serves any request whose route matches
    /// nothing else: the single `NotFound` fallback entry.
    pub fn register_not_found(self, controller: C) -> (r: Builder<C, W>)
        requires
            self.rm.wf(),
        ensures
            r.same_plain_fields(&self),
            r.debug == self.debug,
            r.rm.wf(),
            r.rm.contains_key(RouteView::NotFound),
            forall|k: RouteView| k != RouteView::NotFound ==> r.rm.contains_key(k)
                == self.rm.contains_key(k),
    {
        let mut b = self;
        let ghost before = b.rm;
        let ghost csnap = controller;
        b.rm.register(Route::NotFound, controller);
        proof {
            lemma_register_contains(before, b.rm, Route::NotFound, csnap);
        }
        b
    }

    /// Configures the server to split incoming messages at the first
    /// occurrence of a character matching one of the given separators.
    pub fn parse_separator(self, separator: &Vec<char>) -> (r: Builder<C, W>)
        ensures
            r.parse_options@ == ParseOptionsView::Separators(separator@),
            r.port == self.port,
            r.threads == self.threads,
            r.read_buffer_size == self.read_buffer_size,
            r.addr == self.addr,
            r.endconn_msg == self.endconn_msg,
            r.debug == self.debug,
            r.rm == self.rm,
            r.mrl == self.mrl,
            r.er == self.er,
    {
        let mut b = self;
        b.parse_options = ParseOptions::separator(copy_chars(separator));
        b
    }

    /// Configures the server to split incoming messages at the given
    /// position.
    pub fn parse_position(self, position: usize) -> (r: Builder<C, W>)
        ensures
            r.parse_options@ == ParseOptionsView::Position(position as nat),
            r.port == self.port,
            r.threads == self.threads,
            r.read_buffer_size == self.read_buffer_size,
            r.addr == self.addr,
            r.endconn_msg == self.endconn_msg,
            r.debug == self.debug,
            r.rm == self.rm,
            r.mrl == self.mrl,
            r.er == self.er,
    {
        let mut b = self;
        b.parse_options = ParseOptions::position(position);
        b
    }

    /// Consumes the builder and validates the assembled configuration: a
    /// pool of zero workers is refused with `InvalidPoolSize`, and an error
    /// text that cannot be framed within the maximum response length with
    /// `FrameTooLarge`. Everything else becomes the immutable snapshot the
    /// server runs on.
    pub fn create_cfg(self) -> (r: Result<Config<C, W>, BunkerError>)
        requires
            self.read_buffer_size >= 1,
            self.mrl >= 1,
            self.rm.wf(),
        ensures
            self.threads == 0 ==> (r matches Err(BunkerError::InvalidPoolSize(n)) && n == 0),
            self.threads >= 1 && self.er@.len() + spec_digit_count(self.mrl as int) > self.mrl
                ==> (r matches Err(BunkerError::FrameTooLarge(l)) && l == self.er@.len()),
            self.threads >= 1 && self.er@.len() + spec_digit_count(self.mrl as int) <= self.mrl
                ==> (r matches Ok(cfg) && cfg.wf() && cfg.port == self.port && cfg.addr
                == self.addr && cfg.threads == self.threads && cfg.read_buffer_size
                == self.read_buffer_size && cfg.endconn_msg == self.endconn_msg
                && cfg.parse_options == self.parse_options && cfg.debug == self.debug && cfg.rm
                == self.rm && cfg.mrl == self.mrl && cfg.er == self.er),
    {
        if self.threads == 0 {
            return Err(BunkerError::InvalidPoolSize(self.threads));
        }
        let w = digit_count(self.mrl);
        let el = self.er.as_str().unicode_len();
        if w > self.mrl || el > self.mrl - w {
            return Err(BunkerError::FrameTooLarge(el));
        }
        Ok(
            Config {
                port: self.port,
                addr: self.addr,
                threads: self.threads,
                read_buffer_size: self.read_buffer_size,
                endconn_msg: self.endconn_msg,
                parse_options: self.parse_options,
                debug: self.debug,
                rm: self.rm,
                mrl: self.mrl,
                er: self.er,
            },
        )
    }
}

/// After a registration under `key`, the table holds `key`, and every
/// other key exactly as before.
proof fn lemma_register_contains<C>(before: RouteMap<C>, after: RouteMap<C>, key: Route, controller: C)
    requires
        before.contains_key(key@) ==> exists|i: int|
            0 <= i < before.entries().len() && (#[trigger] before.entries()[i]).0@ == key@
                && after.entries() == before.entries().update(i, (key, controller)),
        !before.contains_key(key@) ==> after.entries() == before.entries().push(
            (key, controller),
        ),
    ensures
        after.contains_key(key@),
        forall|k: RouteView| k != key@ ==> after.contains_key(k) == before.contains_key(k),
{
    if before.contains_key(key@) {
        let i = choose|i: int|
            0 <= i < before.entries().len() && (#[trigger] before.entries()[i]).0@ == key@
                && after.entries() == before.entries().update(i, (key, controller));
        assert((after.entries()[i]).0@ == key@);
        assert(after.contains_key(key@));
        assert forall|k: RouteView| k != key@ implies after.contains_key(k)
            == before.contains_key(k) by {
            if after.contains_key(k) {
                let j = choose|j: int|
                    0 <= j < after.entries().len() && (#[trigger] after.entries()[j]).0@ == k;
                assert(j != i);
                assert((before.entries()[j]).0@ == k);
                assert(before.contains_key(k));
            }
            if before.contains_key(k) {
                let j = choose|j: int|
                    0 <= j < before.entries().len() && (#[trigger] before.entries()[j]).0@ == k;
                assert(j != i);
                assert((after.entries()[j]).0@ == k);
                assert(after.contains_key(k));
            }
        }
    } else {
        let n = before.entries().len() as int;
        assert((after.entries()[n]).0@ == key@);
        assert(after.contains_key(key@));
        assert forall|k: RouteView| k != key@ implies after.contains_key(k)
            == before.contains_key(k) by {
            if after.contains_key(k) {
                let j = choose|j: int|
                    0 <= j < after.entries().len() && (#[trigger] after.entries()[j]).0@ == k;
                assert(j != n);
                assert((before.entries()[j]).0@ == k);
                assert(before.contains_key(k));
            }
            if before.contains_key(k) {
                let j = choose|j: int|
                    0 <= j < before.entries().len() && (#[trigger] before.entries()[j]).0@ == k;
                assert((after.entries()[j]).0@ == k);
                assert(after.contains_key(k));
            }
        }
    }
}

} // verus!
