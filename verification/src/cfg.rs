//! The server's immutable configuration snapshot and its two supporting
//! pieces: the level-gated debug sink and the route table.

use vstd::prelude::*;
use vstd::string::StringExecFns;

use std::io::Write;

use crate::frame::spec_digit_count;
use crate::registerable::{
    rank, writes_error, writes_primary, Controller, DebugFmt, DebugSetting, ParseOptions, Route,
    RouteView,
};

verus! {

/// Relies on `std::io::Stdout::write_all`: sends the text to the process's
/// standard output. An `Interrupted` failure is ignored, as the write may
/// simply be retried by the caller's next message; any other failure comes
/// back as its message text.
#[verifier::external_body]
fn emit_primary(text: &str) -> (r: Option<String>) {
    match std::io::stdout().write_all(text.as_bytes()) {
        Ok(()) => None,
        Err(err) => match err.kind() {
            std::io::ErrorKind::Interrupted => None,
            _ => Some(format!("IO Error: {}", err)),
        },
    }
}

/// Relies on `std::io::Stderr::write_all`: sends the text to the process's
/// standard error, with the same treatment of failures as `emit_primary`.
#[verifier::external_body]
fn emit_error(text: &str) -> (r: Option<String>) {
    match std::io::stderr().write_all(text.as_bytes()) {
        Ok(()) => None,
        Err(err) => match err.kind() {
            std::io::ErrorKind::Interrupted => None,
            _ => Some(format!("IO Error: {}", err)),
        },
    }
}

/// The debug sink: a level and a pluggable formatter. Messages go to the
/// primary channel only above level `Off`, and to the error channel only
/// above level `Standard`.
pub struct Debug<W: DebugFmt> {
    state: DebugSetting,
    w: W,
}

impl<W: DebugFmt> Debug<W> {
    /// The sink's current level.
    pub closed spec fn setting(&self) -> DebugSetting {
        self.state
    }

    /// The sink's current formatter.
    pub closed spec fn formatter(&self) -> W {
        self.w
    }

    /// Whether this sink's level is at least `other`.
    pub fn is_state(&self, other: DebugSetting) -> (r: bool)
        ensures
            r == (rank(self.setting()) >= rank(other)),
    {
        let mine = match self.state {
            DebugSetting::Off => 0usize,
            DebugSetting::Standard => 1,
            DebugSetting::Error => 2,
        };
        let theirs = match other {
            DebugSetting::Off => 0usize,
            DebugSetting::Standard => 1,
            DebugSetting::Error => 2,
        };
        mine >= theirs
    }

    /// A new sink at level `Standard`, writing through `w`.
    pub fn new(w: W) -> (r: Debug<W>)
        ensures
            r.setting() == DebugSetting::Standard,
            r.formatter() == w,
    {
        Debug { state: DebugSetting::Standard, w }
    }

    /// Swaps in another formatter of the same kind.
    pub fn replace_writer(&mut self, w: W)
        ensures
            final(self).setting() == old(self).setting(),
            final(self).formatter() == w,
    {
        self.w = w;
    }

    /// Silences both channels.
    pub fn off(&mut self)
        ensures
            final(self).setting() == DebugSetting::Off,
            final(self).formatter() == old(self).formatter(),
    {
        self.state = DebugSetting::Off;
    }

    /// Level `Standard`: primary channel only.
    pub fn standard(&mut self)
        ensures
            final(self).setting() == DebugSetting::Standard,
            final(self).formatter() == old(self).formatter(),
    {
        self.state = DebugSetting::Standard;
    }

    /// Level `Error`: both channels.
    pub fn error(&mut self)
        ensures
            final(self).setting() == DebugSetting::Error,
            final(self).formatter() == old(self).formatter(),
    {
        self.state = DebugSetting::Error;
    }

    /// The sink's current level, as a value.
    pub fn get_setting(&self) -> (r: DebugSetting)
        ensures
            r == self.setting(),
    {
        self.state
    }

    /// Whether a message handed to `write` reaches the primary channel.
    pub fn would_write(&self) -> (r: bool)
        ensures
            r == writes_primary(self.setting()),
    {
        self.is_state(DebugSetting::Standard)
    }

    /// Whether a message handed to `write_err` reaches the error channel.
    pub fn would_write_err(&self) -> (r: bool)
        ensures
            r == writes_error(self.setting()),
    {
        self.is_state(DebugSetting::Error)
    }

    /// Formats the message and writes it to the primary channel, if the
    /// level admits it. A failed write is reported once through the error
    /// channel.
    pub fn write(&self, origin: &str, message: &str) {
        if self.is_state(DebugSetting::Standard) {
            let text = self.w.debug(origin, message);
            if let Some(errmsg) = emit_primary(text.as_str()) {
                self.write_err("cfg::Debug::write", errmsg.as_str());
            }
        }
    }

    /// Formats the message and writes it to the error channel, if the level
    /// admits it. A failed write is reported through the same channel once
    /// more, and that report's own failure is ignored, so the recovery
    /// never recurses.
    pub fn write_err(&self, origin: &str, message: &str) {
        if self.is_state(DebugSetting::Error) {
            let text = self.w.debug_err(origin, message);
            if let Some(errmsg) = emit_error(text.as_str()) {
                let retry = self.w.debug_err("cfg::Debug::write_err", errmsg.as_str());
                let _ = emit_error(retry.as_str());
            }
        }
    }
}

/// The formatter used when the embedding application plugs in none of its
/// own: `origin`, a colon and line break, then the message, with an ERROR
/// marker on the error channel.
pub struct DefaultDebugger;

impl DebugFmt for DefaultDebugger {
    fn debug(&self, origin: &str, message: &str) -> String {
        let mut s = origin.to_owned();
        s.append(":\n");
        s.append(message);
        s
    }

    fn debug_err(&self, origin: &str, message: &str) -> String {
        let mut s = origin.to_owned();
        s.append(":\nERROR! ");
        s.append(message);
        s
    }
}

/// The route table: controllers keyed by `Route`, keys unique, with at most
/// one `NotFound` fallback entry. Registration is last-write-wins: a second
/// controller under the same key replaces the first.
pub struct RouteMap<C> {
    entries: Vec<(Route, C)>,
}

impl<C> RouteMap<C> {
    /// The registered entries, in registration order.
    pub closed spec fn entries(&self) -> Seq<(Route, C)> {
        self.entries@
    }

    /// No two entries share a key.
    pub open spec fn wf(&self) -> bool {
        forall|i: int, j: int|
            0 <= i < j < self.entries().len() ==> (#[trigger] self.entries()[i]).0@ != (
            #[trigger] self.entries()[j]).0@
    }

    /// Whether some entry is keyed by `k`.
    pub open spec fn contains_key(&self, k: RouteView) -> bool {
        exists|i: int| 0 <= i < self.entries().len() && (#[trigger] self.entries()[i]).0@ == k
    }

    /// An empty table.
    pub fn new() -> (r: RouteMap<C>)
        ensures
            r.entries() == Seq::<(Route, C)>::empty(),
            r.wf(),
    {
        RouteMap { entries: Vec::new() }
    }

    /// How many controllers are registered.
    pub fn len(&self) -> (r: usize)
        ensures
            r == self.entries().len(),
    {
        self.entries.len()
    }

    /// Registers `controller` under `key`. A controller already registered
    /// under the same key is replaced; otherwise the entry is appended.
    pub fn register(&mut self, key: Route, controller: C)
        requires
            old(self).wf(),
        ensures
            final(self).wf(),
            old(self).contains_key(key@) ==> exists|i: int|
                0 <= i < old(self).entries().len() && (#[trigger] old(self).entries()[i]).0@
                    == key@ && final(self).entries() == old(self).entries().update(
                    i,
                    (key, controller),
                ),
            !old(self).contains_key(key@) ==> final(self).entries() == old(
                self,
            ).entries().push((key, controller)),
    {
        let n = self.entries.len();
        let mut i: usize = 0;
        while i < n
            invariant
                self.entries@ == old(self).entries@,
                old(self).wf(),
                n == self.entries@.len(),
                i <= n,
                forall|j: int| 0 <= j < i ==> (#[trigger] self.entries@[j]).0@ != key@,
            decreases n - i,
        {
            if self.entries[i].0 == key {
                proof {
                    assert((old(self).entries()[i as int]).0@ == key@);
                    assert(old(self).contains_key(key@));
                }
                self.entries.set(i, (key, controller));
                proof {
                    assert(self.entries() =~= old(self).entries().update(
                        i as int,
                        (key, controller),
                    ));
                    assert forall|p: int, q: int|
                        0 <= p < q < self.entries().len() implies (
                    #[trigger] self.entries()[p]).0@ != (#[trigger] self.entries()[q]).0@ by {
                        assert((old(self).entries()[p]).0@ != (old(self).entries()[q]).0@);
                        assert((old(self).entries()[i as int]).0@ == key@);
                    }
                }
                return;
            }
            i = i + 1;
        }
        self.entries.push((key, controller));
        proof {
            assert(self.entries() =~= old(self).entries().push((key, controller)));
            assert(!old(self).contains_key(key@));
            assert forall|p: int, q: int|
                0 <= p < q < self.entries().len() implies (#[trigger] self.entries()[p]).0@ != (
            #[trigger] self.entries()[q]).0@ by {
                if q < old(self).entries().len() {
                    assert((old(self).entries()[p]).0@ != (old(self).entries()[q]).0@);
                } else {
                    assert((self.entries()[q]).0@ == key@);
                    assert((old(self).entries()[p]).0@ != key@);
                }
            }
        }
    }

    /// Finds the entry keyed exactly by `key`, if one is registered.
    pub fn lookup(&self, key: &Route) -> (r: Option<usize>)
        ensures
            match r {
                Some(i) => 0 <= i < self.entries().len() && self.entries()[i as int].0@ == key@,
                None => !self.contains_key(key@),
            },
    {
        let n = self.entries.len();
        let mut i: usize = 0;
        while i < n
            invariant
                n == self.entries@.len(),
                i <= n,
                forall|j: int| 0 <= j < i ==> (#[trigger] self.entries@[j]).0@ != key@,
            decreases n - i,
        {
            if self.entries[i].0 == *key {
                return Some(i);
            }
            i = i + 1;
        }
        None
    }

    /// The controller of the entry at `i`.
    pub fn get(&self, i: usize) -> (r: &C)
        requires
            i < self.entries().len(),
        ensures
            *r == self.entries()[i as int].1,
    {
        &self.entries[i].1
    }
}

/// The immutable, shared snapshot of all server parameters and the route
/// table, built once before the server starts and never mutated afterward.
pub struct Config<C: Controller, W: DebugFmt> {
    pub port: u16,
    pub addr: [u8; 4],
    pub threads: usize,
    pub read_buffer_size: usize,
    pub endconn_msg: String,
    pub parse_options: ParseOptions,
    pub debug: Debug<W>,
    pub rm: RouteMap<C>,
    pub mrl: usize,
    pub er: String,
}

impl<C: Controller, W: DebugFmt> Config<C, W> {
    /// A usable configuration: a positive worker count, a positive read
    /// buffer, a positive maximum response length that the error text plus
    /// the frame header always fits into, and a route table without
    /// duplicate keys.
    pub open spec fn wf(&self) -> bool {
        &&& self.threads >= 1
        &&& self.read_buffer_size >= 1
        &&& self.mrl >= 1
        &&& self.er@.len() + spec_digit_count(self.mrl as int) <= self.mrl
        &&& self.rm.wf()
    }
}

} // verus!
