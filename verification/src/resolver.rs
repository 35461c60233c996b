//! The decisions of the resolver client.
//!
//! A reader asks one resolver server, chosen at random, to resolve or list
//! paths; a writer keeps one connection per resolver server, publishes
//! paths on all of them and keeps the connection alive with heartbeats.
//! Sockets, timers, tasks and the security context are driven by the
//! caller; this module decides what to do at each step and what each reply
//! of a server means.

use crate::pathset::{lemma_view_set_push, no_dup_views, view_set, PathSet};
use rand::Rng;
use std::collections::HashMap;
use vstd::prelude::*;

verus! {

/// How a request to the resolver failed.
#[derive(Debug, Clone, PartialEq, Eq)]
pub enum ResolverError {
    /// The server refused the request.
    Denied,
    /// The server answered with a reply that does not fit the request.
    Unexpected,
    /// The server reported an error.
    Error(String),
}

/// The authentication a client asks for.
#[derive(Debug, Clone)]
pub enum Auth {
    Anonymous,
    Krb5 { upn: Option<String>, spn: Option<String> },
}

/// The time to live, in seconds, that a writer assumes before a server has
/// told it another one.
pub const TTL: u64 = 120;

/// A reply of a resolver server to a reader. `R` is what a resolution
/// gives back.
#[derive(Debug, Clone)]
pub enum FromRead<R> {
    Resolved(R),
    List(Vec<String>),
    Denied,
    Error(String),
}

/// A request of a writer to a resolver server.
#[derive(Debug, Clone)]
pub enum ToWrite {
    Publish(Vec<String>),
    Unpublish(Vec<String>),
    Clear,
    Heartbeat,
}

/// A reply of a resolver server to a writer.
#[derive(Debug, Clone)]
pub enum FromWrite {
    Published,
    Unpublished,
    Denied,
    Error(String),
}

/// What a reply to a resolution means: the resolution, or why there is
/// none.
pub open spec fn resolve_outcome<R>(reply: FromRead<R>) -> Result<R, ResolverError> {
    match reply {
        FromRead::Resolved(r) => Ok(r),
        FromRead::Denied => Err(ResolverError::Denied),
        FromRead::Error(e) => Err(ResolverError::Error(e)),
        _ => Err(ResolverError::Unexpected),
    }
}

/// What a reply to a listing means.
pub open spec fn list_outcome<R>(reply: FromRead<R>) -> Result<Vec<String>, ResolverError> {
    match reply {
        FromRead::List(v) => Ok(v),
        FromRead::Denied => Err(ResolverError::Denied),
        FromRead::Error(e) => Err(ResolverError::Error(e)),
        _ => Err(ResolverError::Unexpected),
    }
}

/// What a reply of a writer's server means, where `expected` is the reply
/// that acknowledges the request.
pub open spec fn write_outcome(reply: FromWrite, expected: FromWrite) -> Result<(), ResolverError> {
    match reply {
        FromWrite::Denied => Err(ResolverError::Denied),
        FromWrite::Error(e) => Err(ResolverError::Error(e)),
        _ => if reply == expected {
            Ok(())
        } else {
            Err(ResolverError::Unexpected)
        },
    }
}

/// The answer to a resolution request, taken from the server's reply.
pub fn resolve_reply<R>(reply: FromRead<R>) -> (res: Result<R, ResolverError>)
    ensures
        res == resolve_outcome(reply),
{
    match reply {
        FromRead::Resolved(r) => Ok(r),
        FromRead::Denied => Err(ResolverError::Denied),
        FromRead::Error(e) => Err(ResolverError::Error(e)),
        _ => Err(ResolverError::Unexpected),
    }
}

/// The answer to a listing request, taken from the server's reply.
pub fn list_reply<R>(reply: FromRead<R>) -> (res: Result<Vec<String>, ResolverError>)
    ensures
        res == list_outcome(reply),
{
    match reply {
        FromRead::List(v) => Ok(v),
        FromRead::Denied => Err(ResolverError::Denied),
        FromRead::Error(e) => Err(ResolverError::Error(e)),
        _ => Err(ResolverError::Unexpected),
    }
}

/// The answer to a publication request: a publication is acknowledged by
/// `Published`.
pub fn publish_reply(reply: FromWrite) -> (res: Result<(), ResolverError>)
    ensures
        res == write_outcome(reply, FromWrite::Published),
{
    match reply {
        FromWrite::Published => Ok(()),
        FromWrite::Denied => Err(ResolverError::Denied),
        FromWrite::Error(e) => Err(ResolverError::Error(e)),
        _ => Err(ResolverError::Unexpected),
    }
}

/// The answer to a request to withdraw paths: it is acknowledged by
/// `Unpublished`.
pub fn unpublish_reply(reply: FromWrite) -> (res: Result<(), ResolverError>)
    ensures
        res == write_outcome(reply, FromWrite::Unpublished),
{
    match reply {
        FromWrite::Unpublished => Ok(()),
        FromWrite::Denied => Err(ResolverError::Denied),
        FromWrite::Error(e) => Err(ResolverError::Error(e)),
        _ => Err(ResolverError::Unexpected),
    }
}

/// The answer to a request to withdraw everything a writer published: it
/// is acknowledged by `Unpublished`.
pub fn clear_reply(reply: FromWrite) -> (res: Result<(), ResolverError>)
    ensures
        res == write_outcome(reply, FromWrite::Unpublished),
{
    unpublish_reply(reply)
}

/// The larger of one and `x`.
pub open spec fn at_least_one(x: int) -> int {
    if x < 1 { 1 } else { x }
}

/// The linger and heartbeat intervals, in seconds, for a time to live of
/// `ttl` seconds: an idle connection is dropped after a tenth of it, and a
/// heartbeat goes out every half of it, never less than every second.
pub fn ttl_intervals(ttl: u64) -> (r: (u64, u64))
    ensures
        r.0 == at_least_one((ttl / 10) as int),
        r.1 == at_least_one((ttl / 2) as int),
        1 <= r.0 <= r.1,
{
    let linger = if ttl / 10 < 1 { 1 } else { ttl / 10 };
    let heartbeat = if ttl / 2 < 1 { 1 } else { ttl / 2 };
    (linger, heartbeat)
}

/// The linger and heartbeat intervals of a writer before any server has
/// told it its time to live.
pub fn initial_intervals() -> (r: (u64, u64))
    ensures
        r.0 == TTL / 10,
        r.1 == TTL / 2,
{
    (TTL / 10, TTL / 2)
}

/// The authentication that the client's configuration offers for the
/// resolver servers: none, or Kerberos with the service principal of each
/// server, by the server's id.
#[derive(Debug, Clone)]
pub enum ConfigAuth {
    Anonymous,
    Krb5 { target_spns: HashMap<u64, String> },
}

/// Why connecting to a resolver server is given up rather than retried.
#[derive(Debug, Clone, PartialEq, Eq)]
pub enum ConnectError {
    /// Kerberos was asked for, and the configuration offers none.
    AuthUnavailable,
    /// The configuration names no service principal for this server.
    NoTargetSpn(u64),
    /// The server that authenticated is not the one that was dialled.
    ResolverIdMismatch,
    /// A new security context gave no token to open it with.
    NoInitialToken,
}

/// How a reader authenticates in its hello.
#[derive(Debug, Clone, PartialEq, Eq)]
pub enum ReadAuthPlan {
    Anonymous,
    /// Reuse the security context the server knows by this id.
    Reuse(u64),
    /// Start a security context for `upn` with the server's principal.
    Initiate { upn: Option<String>, target_spn: String },
}

/// How a writer authenticates in its hello.
#[derive(Debug, Clone, PartialEq, Eq)]
pub enum WriteAuthPlan {
    Anonymous,
    /// Reuse the security context already set up with this server.
    Reuse,
    /// Start a security context for `upn` with the server's principal,
    /// announcing `spn` as the principal the writer publishes under.
    Initiate { upn: Option<String>, target_spn: String, spn: Option<String> },
}

/// A server's hello to a reader.
#[derive(Debug, Clone, PartialEq, Eq)]
pub enum ServerHelloRead {
    Anonymous,
    Reused,
    /// The server accepted the context, with its token and the id under
    /// which it keeps the context.
    Accepted(Vec<u8>, u64),
}

/// The authentication part of a server's hello to a writer.
#[derive(Debug, Clone, PartialEq, Eq)]
pub enum ServerAuthWrite {
    Anonymous,
    Reused,
    /// The server accepted the context, with its token.
    Accepted(Vec<u8>),
}

/// A server's hello to a writer.
#[derive(Debug, Clone)]
pub struct ServerHelloWrite {
    pub ttl_expired: bool,
    pub ttl: u64,
    pub resolver_id: u64,
    pub auth: ServerAuthWrite,
}

/// What a client does once it has a server's hello.
#[derive(Debug, Clone, PartialEq, Eq)]
pub enum HelloOutcome {
    /// The connection is ready as it is.
    Ready,
    /// The connection is ready; traffic is encrypted with the context that
    /// was reused.
    Encrypt,
    /// Hand the server's token to the context; if it takes it, the context
    /// is kept under `id` and the connection is ready. If not, retry.
    Complete { token: Vec<u8>, id: u64 },
    /// The server does not agree on the authentication: try again.
    Retry,
}

/// The service principal the configuration gives for server `rid`.
pub open spec fn target_spn_of(target_spns: Map<u64, String>, rid: u64) -> Option<String> {
    if target_spns.contains_key(rid) {
        Some(target_spns[rid])
    } else {
        None
    }
}

/// How a reader authenticates with server `rid`, given the context id it
/// may already share with the servers.
pub open spec fn read_auth_plan_spec(
    desired: Auth,
    config: ConfigAuth,
    cached: Option<u64>,
    rid: u64,
) -> Result<ReadAuthPlan, ConnectError> {
    match desired {
        Auth::Anonymous => Ok(ReadAuthPlan::Anonymous),
        Auth::Krb5 { upn, spn } => match config {
            ConfigAuth::Anonymous => Err(ConnectError::AuthUnavailable),
            ConfigAuth::Krb5 { target_spns } => match cached {
                Some(id) => Ok(ReadAuthPlan::Reuse(id)),
                None => match target_spn_of(target_spns@, rid) {
                    None => Err(ConnectError::NoTargetSpn(rid)),
                    Some(t) => Ok(ReadAuthPlan::Initiate { upn: upn, target_spn: t }),
                },
            },
        },
    }
}

/// How a writer authenticates with server `rid`, given whether it already
/// has a context with that server. The principal it announces is its
/// `spn`, or else its `upn`.
pub open spec fn write_auth_plan_spec(
    desired: Auth,
    config: ConfigAuth,
    has_ctx: bool,
    rid: u64,
) -> Result<WriteAuthPlan, ConnectError> {
    match desired {
        Auth::Anonymous => Ok(WriteAuthPlan::Anonymous),
        Auth::Krb5 { upn, spn } => match config {
            ConfigAuth::Anonymous => Err(ConnectError::AuthUnavailable),
            ConfigAuth::Krb5 { target_spns } => if has_ctx {
                Ok(WriteAuthPlan::Reuse)
            } else {
                match target_spn_of(target_spns@, rid) {
                    None => Err(ConnectError::NoTargetSpn(rid)),
                    Some(t) => Ok(
                        WriteAuthPlan::Initiate {
                            upn: upn,
                            target_spn: t,
                            spn: if spn is Some { spn } else { upn },
                        },
                    ),
                }
            },
        },
    }
}

/// What a reader does with the authentication in a server's hello.
pub open spec fn read_hello_spec(desired: Auth, reply: ServerHelloRead) -> HelloOutcome {
    match (desired, reply) {
        (Auth::Anonymous, ServerHelloRead::Anonymous) => HelloOutcome::Ready,
        (Auth::Anonymous, _) => HelloOutcome::Retry,
        (Auth::Krb5 { .. }, ServerHelloRead::Anonymous) => HelloOutcome::Retry,
        (Auth::Krb5 { .. }, ServerHelloRead::Reused) => HelloOutcome::Ready,
        (Auth::Krb5 { .. }, ServerHelloRead::Accepted(tok, id)) => HelloOutcome::Complete {
            token: tok,
            id: id,
        },
    }
}

/// What a writer does with the authentication in a server's hello. A
/// writer keeps an accepted context under the id of the server that sent
/// it.
pub open spec fn write_hello_spec(desired: Auth, hello: ServerHelloWrite) -> HelloOutcome {
    match (desired, hello.auth) {
        (Auth::Anonymous, ServerAuthWrite::Anonymous) => HelloOutcome::Ready,
        (Auth::Anonymous, _) => HelloOutcome::Retry,
        (Auth::Krb5 { .. }, ServerAuthWrite::Anonymous) => HelloOutcome::Retry,
        (Auth::Krb5 { .. }, ServerAuthWrite::Reused) => HelloOutcome::Encrypt,
        (Auth::Krb5 { .. }, ServerAuthWrite::Accepted(tok)) => HelloOutcome::Complete {
            token: tok,
            id: hello.resolver_id,
        },
    }
}

fn clone_opt_string(o: &Option<String>) -> (r: Option<String>)
    ensures
        r == *o,
{
    match o {
        Some(s) => Some(s.clone()),
        None => None,
    }
}

fn lookup_target_spn(target_spns: &HashMap<u64, String>, rid: u64) -> (r: Option<String>)
    ensures
        r == target_spn_of(target_spns@, rid),
{
    broadcast use vstd::std_specs::hash::group_hash_axioms;

    match target_spns.get(&rid) {
        Some(t) => Some(t.clone()),
        None => None,
    }
}

/// How a reader authenticates with server `rid`; `cached` is the id of
/// the security context it already shares with the servers, if any.
pub fn read_auth_plan(desired: &Auth, config: &ConfigAuth, cached: Option<u64>, rid: u64) -> (r:
    Result<ReadAuthPlan, ConnectError>)
    ensures
        r == read_auth_plan_spec(*desired, *config, cached, rid),
{
    match desired {
        Auth::Anonymous => Ok(ReadAuthPlan::Anonymous),
        Auth::Krb5 { upn, spn: _ } => match config {
            ConfigAuth::Anonymous => Err(ConnectError::AuthUnavailable),
            ConfigAuth::Krb5 { target_spns } => match cached {
                Some(id) => Ok(ReadAuthPlan::Reuse(id)),
                None => match lookup_target_spn(target_spns, rid) {
                    None => Err(ConnectError::NoTargetSpn(rid)),
                    Some(t) => Ok(ReadAuthPlan::Initiate { upn: clone_opt_string(upn), target_spn: t }),
                },
            },
        },
    }
}

/// How a writer authenticates with server `rid`; `has_ctx` tells whether
/// it already has a security context with that server.
pub fn write_auth_plan(desired: &Auth, config: &ConfigAuth, has_ctx: bool, rid: u64) -> (r:
    Result<WriteAuthPlan, ConnectError>)
    ensures
        r == write_auth_plan_spec(*desired, *config, has_ctx, rid),
{
    match desired {
        Auth::Anonymous => Ok(WriteAuthPlan::Anonymous),
        Auth::Krb5 { upn, spn } => match config {
            ConfigAuth::Anonymous => Err(ConnectError::AuthUnavailable),
            ConfigAuth::Krb5 { target_spns } => if has_ctx {
                Ok(WriteAuthPlan::Reuse)
            } else {
                match lookup_target_spn(target_spns, rid) {
                    None => Err(ConnectError::NoTargetSpn(rid)),
                    Some(t) => {
                        let announced = match spn {
                            Some(_) => clone_opt_string(spn),
                            None => clone_opt_string(upn),
                        };
                        Ok(
                            WriteAuthPlan::Initiate {
                                upn: clone_opt_string(upn),
                                target_spn: t,
                                spn: announced,
                            },
                        )
                    },
                }
            },
        },
    }
}

/// What a reader does with the authentication in a server's hello.
pub fn read_hello(desired: &Auth, reply: ServerHelloRead) -> (r: HelloOutcome)
    ensures
        r == read_hello_spec(*desired, reply),
{
    match (desired, reply) {
        (Auth::Anonymous, ServerHelloRead::Anonymous) => HelloOutcome::Ready,
        (Auth::Anonymous, _) => HelloOutcome::Retry,
        (Auth::Krb5 { .. }, ServerHelloRead::Anonymous) => HelloOutcome::Retry,
        (Auth::Krb5 { .. }, ServerHelloRead::Reused) => HelloOutcome::Ready,
        (Auth::Krb5 { .. }, ServerHelloRead::Accepted(tok, id)) => HelloOutcome::Complete {
            token: tok,
            id: id,
        },
    }
}

/// What a writer does with the authentication in a server's hello.
pub fn write_hello(desired: &Auth, hello: ServerHelloWrite) -> (r: HelloOutcome)
    ensures
        r == write_hello_spec(*desired, hello),
{
    let rid = hello.resolver_id;
    match (desired, hello.auth) {
        (Auth::Anonymous, ServerAuthWrite::Anonymous) => HelloOutcome::Ready,
        (Auth::Anonymous, _) => HelloOutcome::Retry,
        (Auth::Krb5 { .. }, ServerAuthWrite::Anonymous) => HelloOutcome::Retry,
        (Auth::Krb5 { .. }, ServerAuthWrite::Reused) => HelloOutcome::Encrypt,
        (Auth::Krb5 { .. }, ServerAuthWrite::Accepted(tok)) => HelloOutcome::Complete {
            token: tok,
            id: rid,
        },
    }
}

/// Whether a writer keeps a context accepted by server `accepted_by` on
/// the connection it dialled to server `dialled`: it gives up when they
/// differ, as the configuration is then wrong.
pub fn check_resolver_id(accepted_by: u64, dialled: u64) -> (r: Result<(), ConnectError>)
    ensures
        r is Ok <==> accepted_by == dialled,
        r is Err ==> r == Err::<(), ConnectError>(ConnectError::ResolverIdMismatch),
{
    if accepted_by != dialled {
        Err(ConnectError::ResolverIdMismatch)
    } else {
        Ok(())
    }
}

/// A new security context is made for the principal the client asked to
/// authenticate as, and for no other: in the plan that starts a context,
/// the principal is the desired `upn` exactly (none when none is given,
/// whatever the `spn`), and the target is the configured principal of the
/// server dialled. A writer announces its `spn`, or its `upn` when it has
/// no `spn`.
pub proof fn lemma_initiate_uses_desired_upn(desired: Auth, config: ConfigAuth, cached: Option<u64>, has_ctx: bool, rid: u64)
    ensures
        read_auth_plan_spec(desired, config, cached, rid) matches Ok(ReadAuthPlan::Initiate { upn, target_spn }) ==> (
        desired matches Auth::Krb5 { upn: u, .. } && upn == u) && (config matches ConfigAuth::Krb5 { target_spns }
            && target_spns@.contains_key(rid) && target_spns@[rid] == target_spn),
        write_auth_plan_spec(desired, config, has_ctx, rid) matches Ok(WriteAuthPlan::Initiate { upn, target_spn, spn }) ==> (
        desired matches Auth::Krb5 { upn: u, spn: sp } && upn == u && spn == (if sp is Some { sp } else { u }))
            && (config matches ConfigAuth::Krb5 { target_spns } && target_spns@.contains_key(rid)
            && target_spns@[rid] == target_spn),
{
}

/// A uniformly drawn index below `n`, from the thread's random number
/// generator (`rand::Rng::gen_range` on `rand::thread_rng()`, which panics
/// when the range is empty and otherwise returns a value in `[0, n)`).
#[verifier::external_body]
fn random_index(n: usize) -> (r: usize)
    requires
        n > 0,
    ensures
        r < n,
{
    rand::thread_rng().gen_range(0, n)
}

/// The server a reader talks to: one of the configured servers, chosen at
/// random.
pub fn choose_read_addr<T: Copy>(servers: &Vec<T>) -> (r: T)
    requires
        servers.len() > 0,
    ensures
        servers@.contains(r),
{
    let i = random_index(servers.len());
    let r = servers[i];
    assert(servers@[i as int] == r);
    r
}

/// The token that opens a security context: the first step of a new
/// context must produce one, else connecting is given up.
pub fn initial_token(first_step: Option<Vec<u8>>) -> (r: Result<Vec<u8>, ConnectError>)
    ensures
        match first_step {
            Some(t) => r == Ok::<Vec<u8>, ConnectError>(t),
            None => r == Err::<Vec<u8>, ConnectError>(ConnectError::NoInitialToken),
        },
{
    match first_step {
        Some(t) => Ok(t),
        None => Err(ConnectError::NoInitialToken),
    }
}

/// The delays between attempts to connect: the first attempt is made at
/// once, and each later one waits a second longer than the one before.
#[derive(Debug, Clone, Copy, PartialEq, Eq)]
pub struct Backoff {
    pub attempts: u64,
}

impl Backoff {
    pub fn new() -> (r: Self)
        ensures
            r.attempts == 0,
    {
        Backoff { attempts: 0 }
    }

    /// Counts one more attempt and gives the number of seconds to wait
    /// before making it.
    pub fn next_delay(&mut self) -> (d: u64)
        requires
            old(self).attempts < u64::MAX,
        ensures
            d == old(self).attempts,
            final(self).attempts == old(self).attempts + 1,
    {
        let d = self.attempts;
        self.attempts = self.attempts + 1;
        d
    }
}

/// What a writer does once authenticated: when the server's time to live
/// for its paths has expired and it has published paths, it publishes them
/// again before the connection is ready.
pub fn republish_needed(ttl_expired: bool, published_count: usize) -> (r: bool)
    ensures
        r == (ttl_expired && published_count > 0),
{
    ttl_expired && published_count > 0
}

/// Whether the reply to a republication makes the connection ready; any
/// other reply makes the writer connect again.
pub fn republish_accepted(reply: &FromWrite) -> (r: bool)
    ensures
        r == (*reply is Published),
{
    match reply {
        FromWrite::Published => true,
        _ => false,
    }
}

/// The paths a writer has published: what it publishes again when a
/// server has forgotten them. Paths join it when a server acknowledges
/// their publication and never leave it.
pub struct PublishedSet {
    paths: PathSet,
}

impl View for PublishedSet {
    type V = Set<Seq<char>>;

    closed spec fn view(&self) -> Set<Seq<char>> {
        self.paths@
    }
}

impl PublishedSet {
    pub fn new() -> (r: Self)
        ensures
            r@ == Set::<Seq<char>>::empty(),
    {
        PublishedSet { paths: PathSet::new() }
    }

    /// How many paths are published.
    pub fn len(&self) -> (r: usize)
        ensures
            r as nat == self@.len(),
    {
        self.paths.len()
    }

    /// Whether `p` is published.
    pub fn contains(&self, p: &String) -> (r: bool)
        ensures
            r == self@.contains(p@),
    {
        self.paths.contains(p)
    }

    /// The published paths, each once, to publish again.
    pub fn names(&self) -> (r: Vec<String>)
        ensures
            view_set(r@) == self@,
            no_dup_views(r@),
    {
        self.paths.to_vec()
    }

    /// Records the outcome of a request the writer sent to its servers:
    /// the paths of a publication that a server acknowledged join the
    /// published paths; nothing else changes them.
    pub fn record(&mut self, req: &ToWrite, reply: &FromWrite)
        ensures
            (match (*req, *reply) {
                (ToWrite::Publish(paths), FromWrite::Published) => final(self)@ == old(self)@.union(
                    view_set(paths@),
                ),
                _ => final(self)@ == old(self)@,
            }),
    {
        match (req, reply) {
            (ToWrite::Publish(paths), FromWrite::Published) => {
                let mut i: usize = 0;
                while i < paths.len()
                    invariant
                        i <= paths.len(),
                        self@ == old(self)@.union(view_set(paths@.take(i as int))),
                    decreases paths.len() - i,
                {
                    let p = paths[i].clone();
                    self.paths.insert(p);
                    proof {
                        assert(paths@.take(i + 1) =~= paths@.take(i as int).push(paths@[i as int]));
                        lemma_view_set_push(paths@.take(i as int), paths@[i as int]);
                        assert(self@ =~= old(self)@.union(view_set(paths@.take(i + 1))));
                    }
                    i = i + 1;
                }
                assert(paths@.take(paths.len() as int) =~= paths@);
            },
            _ => {},
        }
    }
}

/// What a writer's connection to one server is busy with.
#[derive(Debug, Clone, Copy, PartialEq, Eq)]
pub enum Pending {
    /// Waiting for a tick or a request.
    Idle,
    /// Keeping the connection alive after a heartbeat tick.
    Heartbeat,
    /// Carrying a request to the server and its reply back.
    Request,
}

/// The state of a writer's connection to one server: whether a request
/// went through it since the last linger tick, whether it is connected,
/// and what it is busy with.
#[derive(Debug, Clone, Copy, PartialEq, Eq)]
pub struct WriteConState {
    pub active: bool,
    pub connected: bool,
    pub pending: Pending,
}

/// What happens to a writer's connection.
#[derive(Debug, Clone, Copy, PartialEq, Eq)]
pub enum WriteConEvent {
    /// The linger interval elapsed.
    Linger,
    /// The heartbeat interval elapsed.
    Heartbeat,
    /// A request arrived for the server.
    Request,
    /// The connection to the server was established.
    Connected,
    /// The heartbeat went out.
    HeartbeatSent,
    /// The server replied to the request.
    Replied,
    /// Sending or receiving on the connection failed.
    Failed,
}

/// What the driver of a writer's connection does next.
#[derive(Debug, Clone, Copy, PartialEq, Eq)]
pub enum WriteConAction {
    Nothing,
    /// Close the connection.
    Disconnect,
    /// Connect to the server (and then reset the intervals to the time to
    /// live it gives).
    Connect,
    SendHeartbeat,
    /// Send the request and wait for the reply.
    SendRequest,
    /// Hand the reply to whoever made the request.
    DeliverReply,
}

/// Whether `e` can happen in state `s`: ticks and requests are taken only
/// when the connection is idle; the outcome of a connection attempt, a
/// send or a receive only while one is under way.
pub open spec fn write_con_allows(s: WriteConState, e: WriteConEvent) -> bool {
    match e {
        WriteConEvent::Linger | WriteConEvent::Heartbeat | WriteConEvent::Request => s.pending
            == Pending::Idle,
        WriteConEvent::Connected => s.pending != Pending::Idle && !s.connected,
        WriteConEvent::HeartbeatSent => s.pending == Pending::Heartbeat && s.connected,
        WriteConEvent::Replied => s.pending == Pending::Request && s.connected,
        WriteConEvent::Failed => s.pending != Pending::Idle && s.connected,
    }
}

/// The next state of a writer's connection and what to do, for an event
/// that can happen in `s`.
///
/// A linger tick clears the activity mark, and drops a connection that saw
/// no request since the previous tick. A heartbeat tick does nothing on an
/// active connection; on an idle one it sends a heartbeat, or connects when
/// there is no connection. A request marks the connection active and goes
/// out, after connecting if need be. A failed send or receive drops the
/// connection and connects again.
pub open spec fn write_con_next(s: WriteConState, e: WriteConEvent) -> (
    WriteConState,
    WriteConAction,
) {
    match e {
        WriteConEvent::Linger => if s.active {
            (WriteConState { active: false, ..s }, WriteConAction::Nothing)
        } else if s.connected {
            (WriteConState { connected: false, ..s }, WriteConAction::Disconnect)
        } else {
            (s, WriteConAction::Nothing)
        },
        WriteConEvent::Heartbeat => if s.active {
            (s, WriteConAction::Nothing)
        } else if s.connected {
            (WriteConState { pending: Pending::Heartbeat, ..s }, WriteConAction::SendHeartbeat)
        } else {
            (WriteConState { pending: Pending::Heartbeat, ..s }, WriteConAction::Connect)
        },
        WriteConEvent::Request => (
            WriteConState { active: true, pending: Pending::Request, ..s },
            if s.connected {
                WriteConAction::SendRequest
            } else {
                WriteConAction::Connect
            },
        ),
        WriteConEvent::Connected => if s.pending == Pending::Request {
            (WriteConState { connected: true, ..s }, WriteConAction::SendRequest)
        } else {
            (
                WriteConState { connected: true, pending: Pending::Idle, ..s },
                WriteConAction::Nothing,
            )
        },
        WriteConEvent::HeartbeatSent => (
            WriteConState { pending: Pending::Idle, ..s },
            WriteConAction::Nothing,
        ),
        WriteConEvent::Replied => (
            WriteConState { pending: Pending::Idle, ..s },
            WriteConAction::DeliverReply,
        ),
        WriteConEvent::Failed => (WriteConState { connected: false, ..s }, WriteConAction::Connect),
    }
}

impl WriteConState {
    /// A writer's connection before anything happened: idle, inactive and
    /// not connected.
    pub fn new() -> (r: Self)
        ensures
            r == (WriteConState { active: false, connected: false, pending: Pending::Idle }),
    {
        WriteConState { active: false, connected: false, pending: Pending::Idle }
    }

    /// Takes event `e` and says what to do next. An event that cannot
    /// happen in the current state is ignored.
    pub fn step(&mut self, e: WriteConEvent) -> (a: WriteConAction)
        ensures
            write_con_allows(*old(self), e) ==> (*final(self), a) == write_con_next(*old(self), e),
            !write_con_allows(*old(self), e) ==> *final(self) == *old(self) && a
                == WriteConAction::Nothing,
    {
        let s = *self;
        let allowed = match e {
            WriteConEvent::Linger | WriteConEvent::Heartbeat | WriteConEvent::Request => match s.pending {
                Pending::Idle => true,
                _ => false,
            },
            WriteConEvent::Connected => match s.pending {
                Pending::Idle => false,
                _ => !s.connected,
            },
            WriteConEvent::HeartbeatSent => match s.pending {
                Pending::Heartbeat => s.connected,
                _ => false,
            },
            WriteConEvent::Replied => match s.pending {
                Pending::Request => s.connected,
                _ => false,
            },
            WriteConEvent::Failed => match s.pending {
                Pending::Idle => false,
                _ => s.connected,
            },
        };
        if !allowed {
            return WriteConAction::Nothing;
        }
        let (n, a) = match e {
            WriteConEvent::Linger => if s.active {
                (WriteConState { active: false, ..s }, WriteConAction::Nothing)
            } else if s.connected {
                (WriteConState { connected: false, ..s }, WriteConAction::Disconnect)
            } else {
                (s, WriteConAction::Nothing)
            },
            WriteConEvent::Heartbeat => if s.active {
                (s, WriteConAction::Nothing)
            } else if s.connected {
                (WriteConState { pending: Pending::Heartbeat, ..s }, WriteConAction::SendHeartbeat)
            } else {
                (WriteConState { pending: Pending::Heartbeat, ..s }, WriteConAction::Connect)
            },
            WriteConEvent::Request => (
                WriteConState { active: true, pending: Pending::Request, ..s },
                if s.connected {
                    WriteConAction::SendRequest
                } else {
                    WriteConAction::Connect
                },
            ),
            WriteConEvent::Connected => match s.pending {
                Pending::Request => (
                    WriteConState { connected: true, ..s },
                    WriteConAction::SendRequest,
                ),
                _ => (
                    WriteConState { connected: true, pending: Pending::Idle, ..s },
                    WriteConAction::Nothing,
                ),
            },
            WriteConEvent::HeartbeatSent => (
                WriteConState { pending: Pending::Idle, ..s },
                WriteConAction::Nothing,
            ),
            WriteConEvent::Replied => (
                WriteConState { pending: Pending::Idle, ..s },
                WriteConAction::DeliverReply,
            ),
            WriteConEvent::Failed => (
                WriteConState { connected: false, ..s },
                WriteConAction::Connect,
            ),
        };
        *self = n;
        a
    }
}

/// A connection that saw no request is gone after two linger ticks: of two
/// consecutive linger ticks on an idle connection, the second finds it
/// disconnected, whatever it was before.
pub proof fn lemma_idle_connection_dropped(s: WriteConState)
    requires
        s.pending == Pending::Idle,
    ensures
        write_con_allows(write_con_next(s, WriteConEvent::Linger).0, WriteConEvent::Linger),
        !write_con_next(write_con_next(s, WriteConEvent::Linger).0, WriteConEvent::Linger).0.connected,
{
}

/// A request keeps its connection through the next linger tick: once the
/// request is answered, the connection stays up at that tick, and only
/// loses its activity mark.
pub proof fn lemma_request_keeps_connection(s: WriteConState)
    requires
        s.pending == Pending::Idle,
    ensures
        ({
            let s1 = write_con_next(s, WriteConEvent::Request).0;
            let s2 = if s1.connected {
                s1
            } else {
                write_con_next(s1, WriteConEvent::Connected).0
            };
            let s3 = write_con_next(s2, WriteConEvent::Replied);
            let s4 = write_con_next(s3.0, WriteConEvent::Linger);
            &&& write_con_allows(s2, WriteConEvent::Replied)
            &&& s3.1 == WriteConAction::DeliverReply
            &&& write_con_allows(s3.0, WriteConEvent::Linger)
            &&& s4.0.connected
            &&& !s4.0.active
            &&& s4.1 == WriteConAction::Nothing
        }),
{
}

/// A request on a live connection goes out on that connection: it stays
/// up and the request is sent. A new connection is asked for only when
/// there is none, and a request never drops a connection.
pub proof fn lemma_request_uses_live_connection(s: WriteConState)
    requires
        s.pending == Pending::Idle,
    ensures
        s.connected ==> write_con_next(s, WriteConEvent::Request).1 == WriteConAction::SendRequest,
        write_con_next(s, WriteConEvent::Request).0.connected == s.connected,
        write_con_next(s, WriteConEvent::Request).1 == WriteConAction::Connect <==> !s.connected,
        write_con_next(s, WriteConEvent::Request).0.active,
        write_con_next(s, WriteConEvent::Request).0.pending == Pending::Request,
{
}

/// A heartbeat goes out only on a connection that is up and saw no request
/// since the last linger tick, and every heartbeat tick on such a
/// connection sends one.
pub proof fn lemma_heartbeat_only_when_idle(s: WriteConState)
    requires
        write_con_allows(s, WriteConEvent::Heartbeat),
    ensures
        write_con_next(s, WriteConEvent::Heartbeat).1 == WriteConAction::SendHeartbeat <==> (
        !s.active && s.connected),
        s.active ==> write_con_next(s, WriteConEvent::Heartbeat) == (s, WriteConAction::Nothing),
{
}

/// The connection is never left waiting on itself: an event that leaves it
/// busy always asks the driver to act.
pub proof fn lemma_busy_means_action(s: WriteConState, e: WriteConEvent)
    requires
        write_con_allows(s, e),
    ensures
        write_con_next(s, e).0.pending != Pending::Idle ==> write_con_next(s, e).1
            != WriteConAction::Nothing,
{
}

} // verus!
