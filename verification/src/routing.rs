//! The router: which resolver answers which name.
//!
//! A router holds three things: hosts with a fixed address, resolvers
//! registered for suffixes, and a resolver of last resort. For a name it
//! looks, in this order, for the host itself among the fixed addresses, for
//! the longest registered suffix that the host ends with after a dot (the
//! whole host counts as a suffix of itself), and for the resolver of last
//! resort. It decides once: the resolver it picks gives the answer, error or
//! not, and no other resolver is asked after it.
use vstd::prelude::*;
use std::sync::Arc;
use crate::addr::Address;
use crate::error::Error;
use crate::mem::{is_answer, mem_answer, MemResolver, MemSubscription};
use crate::name::Name;
use crate::net::IpAddr;
use crate::resolver::{Resolve, Subscribe};
use crate::stream_once::StreamOnce;
use crate::table::Table;
use crate::text::{chars_of, find, lemma_until, until};

verus! {

/// The tables of a router.
struct Inner<R> {
    names: MemResolver,
    suffixes: Table<R>,
    fallback: Option<R>,
}

/// Collects the tables of a [`Router`].
pub struct RouterBuilder<R>(Inner<R>);

/// Resolves each name with the resolver that its tables assign to it.
///
/// A router is made by a [`RouterBuilder`] and never changes. A clone shares
/// the tables with the router it came from.
pub struct Router<R>(Arc<Inner<R>>);

/// What the tables of a router hold.
pub ghost struct Tables<R> {
    /// The hosts with a fixed address.
    pub names: Map<Seq<char>, IpAddr>,
    /// The resolvers registered for suffixes. A suffix is written without
    /// the dot before it.
    pub suffixes: Map<Seq<char>, R>,
    /// The resolver of last resort.
    pub fallback: Option<R>,
}

/// Where a name goes.
pub ghost enum Route<R> {
    /// To the fixed address of the host.
    Exact(IpAddr),
    /// To the resolver registered for the suffix that starts at this place
    /// of the host.
    Suffix(int, R),
    /// To the resolver of last resort.
    Fallback(R),
    /// Nowhere: the name is not found.
    NotFound,
}

/// Whether a suffix of `host` may start at `start`: at the start of the
/// host, or right after a dot.
pub open spec fn is_boundary(host: Seq<char>, start: int) -> bool {
    start == 0 || (0 < start <= host.len() && host[start - 1] == '.')
}

/// Whether the part of `host` from `start` on is a registered suffix of it.
pub open spec fn matches_at(keys: Set<Seq<char>>, host: Seq<char>, start: int) -> bool {
    is_boundary(host, start) && keys.contains(host.skip(start))
}

/// The first place at or after `from` where a registered suffix of `host`
/// starts. The first such place starts the longest such suffix.
pub open spec fn first_match(keys: Set<Seq<char>>, host: Seq<char>, from: int) -> Option<int>
    decreases host.len() + 1 - from,
{
    if from < 0 || from > host.len() {
        None
    } else if matches_at(keys, host, from) {
        Some(from)
    } else {
        first_match(keys, host, from + 1)
    }
}

/// Where the tables send `host`.
pub open spec fn route<R>(tables: Tables<R>, host: Seq<char>) -> Route<R> {
    if tables.names.contains_key(host) {
        Route::Exact(tables.names[host])
    } else {
        match first_match(tables.suffixes.dom(), host, 0) {
            Some(start) => Route::Suffix(start, tables.suffixes[host.skip(start)]),
            None => match tables.fallback {
                Some(r) => Route::Fallback(r),
                None => Route::NotFound,
            },
        }
    }
}

/// What `first_match` finds: a place where a registered suffix starts, with
/// no such place between `from` and it; and nothing only where there is no
/// such place from `from` on.
pub proof fn lemma_first_match(keys: Set<Seq<char>>, host: Seq<char>, from: int)
    requires
        0 <= from,
    ensures
        match first_match(keys, host, from) {
            Some(start) => from <= start <= host.len() && matches_at(keys, host, start)
                && forall|p: int| from <= p < start ==> !matches_at(keys, host, p),
            None => forall|p: int| from <= p <= host.len() ==> !matches_at(keys, host, p),
        },
    decreases host.len() + 1 - from,
{
    if from <= host.len() && !matches_at(keys, host, from) {
        lemma_first_match(keys, host, from + 1);
    }
}

/// Places where no suffix may start are passed over.
proof fn lemma_pass_over(keys: Set<Seq<char>>, host: Seq<char>, from: int, to: int)
    requires
        0 <= from <= to,
        forall|p: int| from <= p < to ==> !is_boundary(host, p),
    ensures
        first_match(keys, host, from) == first_match(keys, host, to),
    decreases to - from,
{
    if from < to {
        lemma_pass_over(keys, host, from + 1, to);
        if from > host.len() {
            assert(first_match(keys, host, from + 1) is None);
        }
    } else {
    }
}

/// The order of the tables: a host with a fixed address goes there, whatever
/// else is registered; a host without one goes to a registered suffix where
/// it ends with one; a host without either goes to the resolver of last
/// resort; and where there is none, the name is not found.
pub proof fn lemma_precedence<R>(tables: Tables<R>, host: Seq<char>)
    ensures
        tables.names.contains_key(host) ==> route(tables, host) == Route::<R>::Exact(
            tables.names[host],
        ),
        !tables.names.contains_key(host) && (exists|p: int|
            0 <= p <= host.len() && matches_at(tables.suffixes.dom(), host, p)) ==> route(
            tables,
            host,
        ) is Suffix,
        !tables.names.contains_key(host) && (forall|p: int|
            0 <= p <= host.len() ==> !matches_at(tables.suffixes.dom(), host, p)) ==> route(
            tables,
            host,
        ) == match tables.fallback {
            Some(r) => Route::Fallback(r),
            None => Route::NotFound,
        },
{
    lemma_first_match(tables.suffixes.dom(), host, 0);
}

/// The longest suffix wins: where the host has no fixed address and ends
/// with the registered suffix that starts at `start`, the name goes to the
/// resolver of a registered suffix that is at least as long, and to that of
/// the suffix at `start` only where no longer one is registered.
pub proof fn lemma_longest_suffix_wins<R>(tables: Tables<R>, host: Seq<char>, start: int)
    requires
        !tables.names.contains_key(host),
        0 <= start <= host.len(),
        matches_at(tables.suffixes.dom(), host, start),
    ensures
        route(tables, host) is Suffix,
        ({
            let chosen = route(tables, host)->Suffix_0;
            &&& 0 <= chosen <= start
            &&& matches_at(tables.suffixes.dom(), host, chosen)
            &&& host.skip(chosen).len() >= host.skip(start).len()
            &&& route(tables, host)->Suffix_1 == tables.suffixes[host.skip(chosen)]
            &&& forall|p: int| 0 <= p < chosen ==> !matches_at(tables.suffixes.dom(), host, p)
        }),
{
    lemma_first_match(tables.suffixes.dom(), host, 0);
}

/// Where a name goes, with the resolver that it goes to.
#[derive(Debug)]
pub enum Routed<'a, R> {
    /// To the fixed address of the host.
    Exact(IpAddr),
    /// To the resolver registered for a suffix of the host.
    Suffix(&'a R),
    /// To the resolver of last resort.
    Fallback(&'a R),
    /// Nowhere: the name is not found.
    NotFound,
}

impl<'a, R> Routed<'a, R> {
    /// Whether this is the route `route`.
    pub open spec fn is_route(self, route: Route<R>) -> bool {
        match route {
            Route::Exact(ip) => self == Routed::<R>::Exact(ip),
            Route::Suffix(_, r) => self is Suffix && *self->Suffix_0 == r,
            Route::Fallback(r) => self is Fallback && *self->Fallback_0 == r,
            Route::NotFound => self is NotFound,
        }
    }
}

impl<R> Inner<R> {
    spec fn tables(&self) -> Tables<R> {
        Tables { names: self.names@, suffixes: self.suffixes@, fallback: self.fallback }
    }

    /// Where `host` goes.
    fn route(&self, host: &str) -> (r: Routed<'_, R>)
        ensures
            r.is_route(route(self.tables(), host@)),
    {
        let chars = chars_of(host);
        let ghost keys = self.suffixes@.dom();
        match self.names.lookup(chars.as_slice()) {
            Some(ip) => {
                return Routed::Exact(ip);
            },
            None => {},
        }
        let mut start: usize = 0;
        loop
            invariant
                start <= chars.len(),
                chars@ == host@,
                keys == self.suffixes@.dom(),
                !self.names@.contains_key(host@),
                is_boundary(host@, start as int),
                first_match(keys, host@, 0) == first_match(keys, host@, start as int),
            decreases chars.len() - start,
        {
            let rest = vstd::slice::slice_subrange(chars.as_slice(), start, chars.len());
            proof {
                assert(rest@ =~= host@.skip(start as int));
            }
            match self.suffixes.get(rest) {
                Some(resolver) => {
                    return Routed::Suffix(resolver);
                },
                None => {},
            }
            let dot = find(chars.as_slice(), start, '.');
            proof {
                lemma_until(host@.skip(start as int), '.');
                assert forall|p: int| start < p < dot + 1 implies !is_boundary(host@, p) by {
                    assert(host@.skip(start as int)[p - 1 - start] == host@[p - 1]);
                }
                lemma_pass_over(keys, host@, start + 1, dot + 1);
            }
            if dot >= chars.len() {
                proof {
                    assert(first_match(keys, host@, dot + 1) is None);
                }
                match &self.fallback {
                    Some(resolver) => {
                        return Routed::Fallback(resolver);
                    },
                    None => {
                        return Routed::NotFound;
                    },
                }
            }
            proof {
                assert(host@.skip(start as int)[dot - start] == host@[dot as int]);
            }
            start = dot + 1;
        }
    }
}

impl<R> View for RouterBuilder<R> {
    type V = Tables<R>;

    closed spec fn view(&self) -> Tables<R> {
        self.0.tables()
    }
}

impl<R> View for Router<R> {
    type V = Tables<R>;

    closed spec fn view(&self) -> Tables<R> {
        (*self.0).tables()
    }
}

impl<R> RouterBuilder<R> {
    /// The builder of a router that finds no name at all.
    pub fn new() -> (r: RouterBuilder<R>)
        ensures
            r@ == (Tables::<R> { names: Map::empty(), suffixes: Map::empty(), fallback: None }),
    {
        RouterBuilder(Inner { names: MemResolver::new(), suffixes: Table::new(), fallback: None })
    }

    /// Gives the host `name` the fixed address `ip`, in place of an earlier
    /// one.
    pub fn add_ip(&mut self, name: &str, ip: IpAddr) -> (r: &mut Self)
        ensures
            r@ == (Tables { names: old(self)@.names.insert(name@, ip), ..old(self)@ }),
            *final(self) == *final(r),
    {
        self.0.names.add_host(name, ip);
        self
    }

    /// Registers `resolver` for the hosts that end with `suffix` after a
    /// dot, and for the host `suffix` itself. The suffix is written without
    /// the dot before it. A later registration for the same suffix takes
    /// the place of an earlier one.
    pub fn add_suffix(&mut self, suffix: &str, resolver: R) -> (r: &mut Self)
        ensures
            r@ == (Tables {
                suffixes: old(self)@.suffixes.insert(suffix@, resolver),
                ..old(self)@
            }),
            *final(self) == *final(r),
    {
        self.0.suffixes.insert(chars_of(suffix), resolver);
        self
    }

    /// Makes `resolver` the resolver of last resort, in place of an earlier
    /// one.
    pub fn add_default(&mut self, resolver: R) -> (r: &mut Self)
        ensures
            r@ == (Tables { fallback: Some(resolver), ..old(self)@ }),
            *final(self) == *final(r),
    {
        self.0.fallback = Some(resolver);
        self
    }

    /// The router with the tables as they stand.
    pub fn into_resolver(self) -> (r: Router<R>)
        ensures
            r@ == self@,
    {
        Router(Arc::new(self.0))
    }
}

/// The pending answer of a router.
#[derive(Debug)]
pub enum RouterFuture<F> {
    /// The router knows the answer itself.
    Done(Result<Address, Error>),
    /// The resolver that the name went to hands out this pending answer.
    Pending(F),
}

/// The subscription that a router hands out.
#[derive(Debug)]
pub enum RouterStream<S> {
    /// The host has a fixed address: the subscription yields it once.
    Fixed(MemSubscription),
    /// The resolver that the name went to hands out this subscription.
    Delegated(S),
    /// The name is not found: the subscription yields that error once.
    NotFound(StreamOnce<Result<Address, Error>>),
}

impl<R> Router<R> {
    /// Where `name` goes, and to which resolver.
    pub fn route(&self, name: &Name) -> (r: Routed<'_, R>)
        ensures
            r.is_route(route(self@, name@.host)),
    {
        self.0.route(name.host())
    }
}

impl<R> Clone for Router<R> {
    /// One more owner of the same tables.
    fn clone(&self) -> (r: Router<R>)
        ensures
            r@ == self@,
    {
        Router(crate::text::share(&self.0))
    }
}

impl<R: Resolve> Resolve for Router<R> {
    type Future = RouterFuture<R::Future>;

    /// The answer of the route: the fixed address with the port of the name,
    /// what the resolver of the route hands out, or `NameNotFound`.
    open spec fn answer(&self, name: Name, answer: Self::Future) -> bool {
        match route(self@, name@.host) {
            Route::Exact(_) => answer is Done && is_answer(
                answer->Done_0,
                mem_answer(self@.names, name@.host, name@.port),
            ),
            Route::Suffix(_, r) => answer is Pending && r.answer(name, answer->Pending_0),
            Route::Fallback(r) => answer is Pending && r.answer(name, answer->Pending_0),
            Route::NotFound => answer == RouterFuture::<R::Future>::Done(
                Err(Error::NameNotFound),
            ),
        }
    }

    fn resolve(&self, name: &Name) -> (answer: Self::Future) {
        match self.route(name) {
            Routed::Exact(_) => RouterFuture::Done(self.0.names.resolve(name)),
            Routed::Suffix(resolver) => RouterFuture::Pending(resolver.resolve(name)),
            Routed::Fallback(resolver) => RouterFuture::Pending(resolver.resolve(name)),
            Routed::NotFound => RouterFuture::Done(Err(Error::NameNotFound)),
        }
    }
}

impl<R: Subscribe> Subscribe for Router<R> {
    type Stream = RouterStream<R::Stream>;

    /// The subscription of the route: the fixed address with the port of
    /// the name, once; what the resolver of the route hands out; or
    /// `NameNotFound`, once.
    open spec fn subscription(&self, name: Name, stream: Self::Stream) -> bool {
        match route(self@, name@.host) {
            Route::Exact(_) => stream is Fixed && match mem_answer(
                self@.names,
                name@.host,
                name@.port,
            ) {
                Ok(levels) => stream->Fixed_0.0 is Some && stream->Fixed_0.0->0@ == levels,
                Err(_) => stream->Fixed_0.0 is None,
            },
            Route::Suffix(_, r) => stream is Delegated && r.subscription(name, stream->Delegated_0),
            Route::Fallback(r) => stream is Delegated && r.subscription(name, stream->Delegated_0),
            Route::NotFound => stream is NotFound && stream->NotFound_0.future == Some(
                Err::<Address, Error>(Error::NameNotFound),
            ),
        }
    }

    fn subscribe(&self, name: &Name) -> (stream: Self::Stream) {
        match self.route(name) {
            Routed::Exact(_) => RouterStream::Fixed(self.0.names.subscribe(name)),
            Routed::Suffix(resolver) => RouterStream::Delegated(resolver.subscribe(name)),
            Routed::Fallback(resolver) => RouterStream::Delegated(resolver.subscribe(name)),
            Routed::NotFound => RouterStream::NotFound(StreamOnce::new(Err(Error::NameNotFound))),
        }
    }
}

} // verus!
