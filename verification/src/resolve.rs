//! Event-stream resolution: a [`Resolver`] transforms parser events one at
//! a time (passing them on, dropping them, or expanding them into several)
//! before they reach a consumer.
use vstd::prelude::*;

use crate::parser::{debug_quote, debug_quoted, parse_error_text, Event, ParseError};
use crate::text::{push_str, push_string, str_to_string};

verus! {

/// Errors of event resolution.
#[derive(Debug)]
pub enum ResolveError {
    /// An error of the upstream parser.
    Parse(ParseError),
    /// An `!include` or similar file load failed.
    Include {
        /// The path that could not be loaded.
        path: String,
        /// What went wrong.
        message: String,
    },
    /// A `$ref` or cross-document reference could not be resolved.
    Ref {
        /// The reference target.
        target: String,
        /// What went wrong.
        message: String,
    },
    /// A circular reference.
    Cycle {
        /// The references that form the cycle.
        chain: Vec<String>,
    },
    /// A resource limit was exceeded.
    LimitExceeded(String),
    /// An application-defined error.
    Custom(String),
}

/// Strings joined with ` -> ` between them.
pub open spec fn join_arrows(parts: Seq<Seq<char>>) -> Seq<char>
    decreases parts.len(),
{
    if parts.len() == 0 {
        seq![]
    } else if parts.len() == 1 {
        parts[0]
    } else {
        join_arrows(parts.drop_last()) + " -> "@ + parts.last()
    }
}

/// The text of a resolution error, as it is shown to people.
pub open spec fn resolve_error_text(e: ResolveError) -> Seq<char> {
    match e {
        ResolveError::Parse(p) => parse_error_text(p),
        ResolveError::Include { path, message } => "include failed for "@ + path@ + ": "@ + message@,
        ResolveError::Ref { target, message } => "ref resolution failed for "@ + debug_quoted(target@)
            + ": "@ + message@,
        ResolveError::Cycle { chain } => "circular reference: "@ + join_arrows(
            chain@.map_values(|s: String| s@),
        ),
        ResolveError::LimitExceeded(m) => "limit exceeded: "@ + m@,
        ResolveError::Custom(m) => m@,
    }
}

impl ResolveError {
    /// Renders the error for humans.
    pub fn display(&self) -> (r: String)
        ensures
            r@ == resolve_error_text(*self),
    {
        match self {
            ResolveError::Parse(e) => e.display(),
            ResolveError::Include { path, message } => {
                let mut s = str_to_string("include failed for ");
                push_string(&mut s, path);
                push_str(&mut s, ": ");
                push_string(&mut s, message);
                s
            },
            ResolveError::Ref { target, message } => {
                let mut s = str_to_string("ref resolution failed for ");
                let q = debug_quote(target.as_str());
                push_string(&mut s, &q);
                push_str(&mut s, ": ");
                push_string(&mut s, message);
                s
            },
            ResolveError::Cycle { chain } => {
                let mut s = str_to_string("circular reference: ");
                let j = join_with_arrows(chain);
                push_string(&mut s, &j);
                s
            },
            ResolveError::LimitExceeded(m) => {
                let mut s = str_to_string("limit exceeded: ");
                push_string(&mut s, m);
                s
            },
            ResolveError::Custom(m) => str_to_string(m.as_str()),
        }
    }
}

fn join_with_arrows(parts: &Vec<String>) -> (r: String)
    ensures
        r@ == join_arrows(parts@.map_values(|s: String| s@)),
{
    let ghost v = parts@.map_values(|s: String| s@);
    let mut out = String::new();
    let mut i: usize = 0;
    while i < parts.len()
        invariant
            v == parts@.map_values(|s: String| s@),
            i <= parts@.len(),
            out@ == join_arrows(v.take(i as int)),
        decreases parts@.len() - i,
    {
        proof {
            assert(v.take(i + 1).drop_last() =~= v.take(i as int));
            assert(v.take(i + 1).last() == parts@[i as int]@);
        }
        if i > 0 {
            push_str(&mut out, " -> ");
        }
        push_string(&mut out, &parts[i]);
        proof {
            if i == 0 {
                assert(v.take(1) =~= seq![v[0]]);
                assert(out@ =~= join_arrows(v.take(1)));
            } else {
                assert(out@ =~= join_arrows(v.take(i as int)) + " -> "@ + v[i as int]);
            }
        }
        i = i + 1;
    }
    proof {
        assert(v.take(i as int) =~= v);
    }
    out
}

impl From<ParseError> for ResolveError {
    fn from(e: ParseError) -> (r: ResolveError) {
        ResolveError::Parse(e)
    }
}

impl vstd::std_specs::convert::FromSpecImpl<ParseError> for ResolveError {
    open spec fn obeys_from_spec() -> bool {
        true
    }

    open spec fn from_spec(v: ParseError) -> ResolveError {
        ResolveError::Parse(v)
    }
}

/// Event-stream middleware: takes one event at a time and gives the events
/// to pass on — the event itself to keep it, none to drop it, or several
/// to expand it.
pub trait Resolver: Sized {
    /// Whether this resolver passes every event on unchanged, as it is and
    /// from then on (by default, nothing is promised).
    open spec fn passes_through(&self) -> bool {
        false
    }

    /// What this resolver gives for `event`: the events to pass on, or an
    /// error (by default, the event itself; a resolver that does otherwise
    /// states what it gives).
    open spec fn output(&self, event: Event) -> Result<Seq<Event>, ResolveError> {
        Ok(seq![event])
    }

    /// The resolver after it has taken `event` (by default, unchanged).
    open spec fn after(&self, event: Event) -> Self {
        *self
    }

    /// Transforms one event.
    fn on_event(&mut self, event: Event) -> (r: Result<Vec<Event>, ResolveError>)
        ensures
            old(self).passes_through() ==> final(self).passes_through() && (r matches Ok(v) && v@ == seq![event]),
            match r {
                Ok(v) => old(self).output(event) == Ok::<Seq<Event>, ResolveError>(v@),
                Err(e) => old(self).output(event) == Err::<Seq<Event>, ResolveError>(e),
            },
            *final(self) == old(self).after(event),
    ;
}

/// One step of an event resolver over upstream results: the result handed
/// out, the resolver after it, the upstream results left, and the resolved
/// events left waiting. Events the resolver drops are skipped; an upstream
/// error is handed out as it is.
pub open spec fn resolve_step<R: Resolver>(res: R, pending: Seq<Result<Event, ResolveError>>) -> (
    Option<Result<Event, ResolveError>>,
    R,
    Seq<Result<Event, ResolveError>>,
    Seq<Event>,
)
    decreases pending.len(),
{
    if pending.len() == 0 {
        (None, res, pending, Seq::empty())
    } else {
        match pending[0] {
            Err(e) => (Some(Err(e)), res, pending.drop_first(), Seq::empty()),
            Ok(ev) => match res.output(ev) {
                Err(e) => (Some(Err(e)), res.after(ev), pending.drop_first(), Seq::empty()),
                Ok(out) => if out.len() > 0 {
                    (Some(Ok(out[0])), res.after(ev), pending.drop_first(), out.drop_first())
                } else {
                    resolve_step(res.after(ev), pending.drop_first())
                },
            },
        }
    }
}

/// A resolver that passes every event on unchanged.
#[derive(Clone, Copy, Debug, Default)]
pub struct NoopResolver;

impl Resolver for NoopResolver {
    open spec fn passes_through(&self) -> bool {
        true
    }

    open spec fn output(&self, event: Event) -> Result<Seq<Event>, ResolveError> {
        Ok(seq![event])
    }

    open spec fn after(&self, event: Event) -> Self {
        *self
    }

    fn on_event(&mut self, event: Event) -> (r: Result<Vec<Event>, ResolveError>)
        ensures
            r matches Ok(v) && v@ == seq![event],
    {
        let mut v: Vec<Event> = Vec::new();
        v.push(event);
        Ok(v)
    }
}

/// Applies a [`Resolver`] to an upstream stream of results: each upstream
/// event goes through the resolver; what it gives is handed out one at a
/// time, and an event it drops is skipped over.
pub struct ResolvedEvents<R: Resolver> {
    /// The upstream results not taken yet, last one first.
    upstream: Vec<Result<Event, ResolveError>>,
    resolver: R,
    buffer: std::collections::VecDeque<Event>,
}

impl<R: Resolver> ResolvedEvents<R> {
    /// The upstream results not taken yet, in order.
    pub closed spec fn pending(&self) -> Seq<Result<Event, ResolveError>> {
        self.upstream@.reverse()
    }

    /// Resolved events waiting to be handed out, in order.
    pub closed spec fn buffered(&self) -> Seq<Event> {
        self.buffer@
    }

    /// The resolver in its current state.
    pub closed spec fn resolver_state(&self) -> R {
        self.resolver
    }

    /// Whether the resolver passes every event on unchanged.
    pub closed spec fn transparent(&self) -> bool {
        self.resolver.passes_through()
    }

    /// An adapter over the given upstream results.
    pub fn new(upstream: Vec<Result<Event, ResolveError>>, resolver: R) -> (r: Self)
        ensures
            r.pending() == upstream@,
            r.buffered() == Seq::<Event>::empty(),
            r.transparent() == resolver.passes_through(),
            r.resolver_state() == resolver,
    {
        let mut rev: Vec<Result<Event, ResolveError>> = Vec::new();
        let mut up = upstream;
        let ghost all = up@;
        while up.len() > 0
            invariant
                up@ + rev@.reverse() == all,
            decreases up@.len(),
        {
            let ghost before = up@;
            match up.pop() {
                Some(x) => {
                    rev.push(x);
                    proof {
                        assert(rev@.reverse() =~= seq![x] + rev@.drop_last().reverse());
                        assert(before =~= up@.push(x));
                    }
                },
                None => {},
            }
        }
        assert(rev@.reverse() =~= all);
        ResolvedEvents { upstream: rev, resolver, buffer: std::collections::VecDeque::new() }
    }

    /// Takes what the resolver gave for one event: nothing means the event
    /// was dropped; otherwise the first event is handed out and the rest
    /// wait in the buffer.
    pub fn take_output(&mut self, events: Vec<Event>) -> (r: Option<Event>)
        ensures
            final(self).pending() == old(self).pending(),
            final(self).transparent() == old(self).transparent(),
            final(self).resolver_state() == old(self).resolver_state(),
            events@.len() == 0 ==> r is None && final(self).buffered() == old(self).buffered(),
            events@.len() > 0 ==> r == Some(events@[0]) && final(self).buffered() == old(
                self,
            ).buffered() + events@.drop_first(),
    {
        if events.len() == 0 {
            return None;
        }
        let mut rest = events;
        let ghost all = rest@;
        let mut rev: Vec<Event> = Vec::new();
        while rest.len() > 1
            invariant
                rest@.len() >= 1,
                rest@ + rev@.reverse() == all,
            decreases rest@.len(),
        {
            let ghost before = rest@;
            match rest.pop() {
                Some(x) => {
                    rev.push(x);
                    proof {
                        assert(rev@.reverse() =~= seq![x] + rev@.drop_last().reverse());
                        assert(before =~= rest@.push(x));
                    }
                },
                None => {},
            }
        }
        let ghost buf0 = self.buffer@;
        while rev.len() > 0
            invariant
                self.upstream == old(self).upstream,
                self.resolver == old(self).resolver,
                buf0 == old(self).buffer@,
                self.buffer@ + rev@.reverse() == buf0 + all.drop_first(),
                rest@.len() == 1,
                rest@[0] == all[0],
            decreases rev@.len(),
        {
            let ghost before = rev@;
            match rev.pop() {
                Some(x) => {
                    let ghost b = self.buffer@;
                    self.buffer.push_back(x);
                    proof {
                        assert(before.reverse() =~= seq![x] + rev@.reverse());
                        assert(self.buffer@ =~= b.push(x));
                    }
                },
                None => {},
            }
        }
        proof {
            assert(rev@.reverse() =~= Seq::<Event>::empty());
            assert(self.buffer@ =~= buf0 + all.drop_first());
        }
        rest.pop()
    }

    /// The next resolved event, or an upstream or resolver error; `None`
    /// once the upstream is exhausted and nothing is buffered.
    pub fn next(&mut self) -> (r: Option<Result<Event, ResolveError>>)
        ensures
            old(self).buffered().len() > 0 ==> r == Some(Ok::<Event, ResolveError>(old(self).buffered()[0]))
                && final(self).buffered() == old(self).buffered().drop_first() && final(self).pending()
                == old(self).pending(),
            old(self).buffered().len() == 0 && old(self).pending().len() == 0 ==> r is None
                && final(self).pending().len() == 0 && final(self).buffered().len() == 0,
            old(self).buffered().len() == 0 && old(self).pending().len() > 0 && old(self).pending()[0] is Err
                ==> r == Some(old(self).pending()[0]) && final(self).pending() == old(self).pending().drop_first()
                && final(self).buffered().len() == 0,
            old(self).buffered().len() == 0 && old(self).pending().len() > 0 ==> exists|k: int|
                1 <= k <= old(self).pending().len() && final(self).pending() == old(self).pending().skip(k),
            r is None ==> final(self).pending().len() == 0 && final(self).buffered().len() == 0,
            old(self).transparent() ==> final(self).transparent(),
            old(self).transparent() && old(self).buffered().len() == 0 ==> final(self).buffered().len() == 0
                && (old(self).pending().len() > 0 ==> r == Some(old(self).pending()[0]) && final(self).pending()
                == old(self).pending().drop_first()),
            old(self).buffered().len() > 0 ==> final(self).resolver_state() == old(self).resolver_state(),
            old(self).buffered().len() == 0 ==> (r, final(self).resolver_state(), final(self).pending(), final(self).buffered())
                == resolve_step(old(self).resolver_state(), old(self).pending()),
    {
        if self.buffer.len() > 0 {
            match self.buffer.pop_front() {
                Some(e) => {
                    return Some(Ok(e));
                },
                None => {},
            }
        }
        let ghost p0 = self.pending();
        let ghost mut taken: int = 0;
        while self.upstream.len() > 0
            invariant
                self.buffer@.len() == 0,
                0 <= taken <= p0.len(),
                self.pending() == p0.skip(taken),
                old(self).buffered().len() == 0 ==> p0 == old(self).pending(),
                old(self).buffered().len() > 0 ==> false,
                p0.len() > 0 && p0[0] is Err ==> taken == 0,
                old(self).transparent() ==> self.transparent() && taken == 0,
                old(self).buffered().len() == 0 ==> resolve_step(self.resolver_state(), self.pending())
                    == resolve_step(old(self).resolver_state(), old(self).pending()),
            decreases self.upstream@.len(),
        {
            let ghost before = self.upstream@;
            let ghost step0 = resolve_step(self.resolver_state(), self.pending());
            let item = self.upstream.pop();
            proof {
                taken = taken + 1;
                assert(before.reverse()[0] == before.last());
                assert(self.upstream@.reverse() =~= before.reverse().drop_first());
                assert(p0.skip(taken - 1).drop_first() =~= p0.skip(taken));
                assert(p0.skip(taken - 1)[0] == p0[taken - 1]);
                assert(item == Some(p0[taken - 1]));
            }
            match item {
                Some(Ok(event)) => {
                    match self.resolver.on_event(event) {
                        Ok(events) => {
                            match self.take_output(events) {
                                Some(e) => {
                                    return Some(Ok(e));
                                },
                                None => {},
                            }
                        },
                        Err(e) => {
                            return Some(Err(e));
                        },
                    }
                },
                Some(Err(e)) => {
                    return Some(Err(e));
                },
                None => {},
            }
        }
        proof {
            assert(self.pending() =~= Seq::<Result<Event, ResolveError>>::empty());
        }
        None
    }
}

} // verus!
