use netidx::resolver::{
    check_resolver_id, choose_read_addr, clear_reply, initial_intervals, initial_token,
    list_reply, publish_reply, read_auth_plan, read_hello, republish_accepted, republish_needed,
    resolve_reply, ttl_intervals, unpublish_reply, write_auth_plan, write_hello, Auth, Backoff,
    ConfigAuth, ConnectError, FromRead, FromWrite, HelloOutcome, PublishedSet, ReadAuthPlan,
    ResolverError, ServerAuthWrite, ServerHelloRead, ServerHelloWrite, ToWrite, WriteAuthPlan,
    WriteConAction, WriteConEvent, WriteConState, Pending, TTL,
};
use std::collections::HashMap;
use WriteConAction as A;
use WriteConEvent as E;

fn krb5(upn: Option<&str>, spn: Option<&str>) -> Auth {
    Auth::Krb5 { upn: upn.map(String::from), spn: spn.map(String::from) }
}

fn krb5_config() -> ConfigAuth {
    let mut target_spns = HashMap::new();
    target_spns.insert(1u64, String::from("host/r1@REALM"));
    target_spns.insert(2u64, String::from("host/r2@REALM"));
    ConfigAuth::Krb5 { target_spns }
}

#[test]
fn resolve_reply_outcomes() {
    assert_eq!(resolve_reply(FromRead::<u32>::Resolved(7)), Ok(7));
    assert_eq!(resolve_reply(FromRead::<u32>::Denied), Err(ResolverError::Denied));
    assert_eq!(
        resolve_reply(FromRead::<u32>::Error(String::from("boom"))),
        Err(ResolverError::Error(String::from("boom")))
    );
    assert_eq!(resolve_reply(FromRead::<u32>::List(vec![])), Err(ResolverError::Unexpected));
}

#[test]
fn list_reply_outcomes() {
    let paths = vec![String::from("/a"), String::from("/b")];
    assert_eq!(list_reply(FromRead::<u32>::List(paths.clone())), Ok(paths));
    assert_eq!(list_reply(FromRead::<u32>::Resolved(1)), Err(ResolverError::Unexpected));
    assert_eq!(list_reply(FromRead::<u32>::Denied), Err(ResolverError::Denied));
    assert_eq!(
        list_reply(FromRead::<u32>::Error(String::from("no"))),
        Err(ResolverError::Error(String::from("no")))
    );
}

#[test]
fn write_reply_outcomes() {
    assert_eq!(publish_reply(FromWrite::Published), Ok(()));
    assert_eq!(publish_reply(FromWrite::Unpublished), Err(ResolverError::Unexpected));
    assert_eq!(publish_reply(FromWrite::Denied), Err(ResolverError::Denied));
    assert_eq!(
        publish_reply(FromWrite::Error(String::from("e"))),
        Err(ResolverError::Error(String::from("e")))
    );
    assert_eq!(unpublish_reply(FromWrite::Unpublished), Ok(()));
    assert_eq!(unpublish_reply(FromWrite::Published), Err(ResolverError::Unexpected));
    assert_eq!(unpublish_reply(FromWrite::Denied), Err(ResolverError::Denied));
    assert_eq!(clear_reply(FromWrite::Unpublished), Ok(()));
    assert_eq!(clear_reply(FromWrite::Published), Err(ResolverError::Unexpected));
    assert_eq!(
        clear_reply(FromWrite::Error(String::from("x"))),
        Err(ResolverError::Error(String::from("x")))
    );
}

#[test]
fn intervals() {
    assert_eq!(TTL, 120);
    assert_eq!(initial_intervals(), (12, 60));
    assert_eq!(ttl_intervals(120), (12, 60));
    assert_eq!(ttl_intervals(600), (60, 300));
    assert_eq!(ttl_intervals(15), (1, 7));
    assert_eq!(ttl_intervals(1), (1, 1));
    assert_eq!(ttl_intervals(0), (1, 1));
    assert_eq!(ttl_intervals(u64::MAX), (u64::MAX / 10, u64::MAX / 2));
}

#[test]
fn backoff_grows_by_a_second() {
    let mut b = Backoff::new();
    assert_eq!(b.next_delay(), 0);
    assert_eq!(b.next_delay(), 1);
    assert_eq!(b.next_delay(), 2);
    assert_eq!(b.attempts, 3);
}

#[test]
fn read_addr_is_one_of_the_servers() {
    let servers = vec![(1u64, 10u16), (2, 20), (3, 30)];
    for _ in 0..50 {
        let s = choose_read_addr(&servers);
        assert!(servers.contains(&s));
    }
    assert_eq!(choose_read_addr(&vec![(9u64, 99u16)]), (9, 99));
}

#[test]
fn read_auth_plans() {
    assert_eq!(
        read_auth_plan(&Auth::Anonymous, &ConfigAuth::Anonymous, None, 1),
        Ok(ReadAuthPlan::Anonymous)
    );
    assert_eq!(
        read_auth_plan(&Auth::Anonymous, &krb5_config(), Some(4), 1),
        Ok(ReadAuthPlan::Anonymous)
    );
    assert_eq!(
        read_auth_plan(&krb5(Some("me"), None), &ConfigAuth::Anonymous, None, 1),
        Err(ConnectError::AuthUnavailable)
    );
    assert_eq!(
        read_auth_plan(&krb5(Some("me"), None), &krb5_config(), Some(4), 1),
        Ok(ReadAuthPlan::Reuse(4))
    );
    assert_eq!(
        read_auth_plan(&krb5(Some("me"), None), &krb5_config(), None, 2),
        Ok(ReadAuthPlan::Initiate {
            upn: Some(String::from("me")),
            target_spn: String::from("host/r2@REALM")
        })
    );
    assert_eq!(
        read_auth_plan(&krb5(None, None), &krb5_config(), None, 3),
        Err(ConnectError::NoTargetSpn(3))
    );
}

#[test]
fn write_auth_plans() {
    assert_eq!(
        write_auth_plan(&Auth::Anonymous, &krb5_config(), true, 1),
        Ok(WriteAuthPlan::Anonymous)
    );
    assert_eq!(
        write_auth_plan(&krb5(None, None), &ConfigAuth::Anonymous, false, 1),
        Err(ConnectError::AuthUnavailable)
    );
    assert_eq!(
        write_auth_plan(&krb5(None, None), &krb5_config(), true, 1),
        Ok(WriteAuthPlan::Reuse)
    );
    // the announced principal is the spn when there is one
    assert_eq!(
        write_auth_plan(&krb5(Some("me"), Some("svc")), &krb5_config(), false, 1),
        Ok(WriteAuthPlan::Initiate {
            upn: Some(String::from("me")),
            target_spn: String::from("host/r1@REALM"),
            spn: Some(String::from("svc")),
        })
    );
    // and the upn otherwise
    assert_eq!(
        write_auth_plan(&krb5(Some("me"), None), &krb5_config(), false, 1),
        Ok(WriteAuthPlan::Initiate {
            upn: Some(String::from("me")),
            target_spn: String::from("host/r1@REALM"),
            spn: Some(String::from("me")),
        })
    );
    assert_eq!(
        write_auth_plan(&krb5(Some("me"), None), &krb5_config(), false, 7),
        Err(ConnectError::NoTargetSpn(7))
    );
}

#[test]
fn read_hellos() {
    let anon = Auth::Anonymous;
    let k = krb5(None, None);
    assert_eq!(read_hello(&anon, ServerHelloRead::Anonymous), HelloOutcome::Ready);
    assert_eq!(read_hello(&anon, ServerHelloRead::Reused), HelloOutcome::Retry);
    assert_eq!(read_hello(&anon, ServerHelloRead::Accepted(vec![1], 2)), HelloOutcome::Retry);
    assert_eq!(read_hello(&k, ServerHelloRead::Anonymous), HelloOutcome::Retry);
    assert_eq!(read_hello(&k, ServerHelloRead::Reused), HelloOutcome::Ready);
    assert_eq!(
        read_hello(&k, ServerHelloRead::Accepted(vec![1, 2], 9)),
        HelloOutcome::Complete { token: vec![1, 2], id: 9 }
    );
}

fn hello(auth: ServerAuthWrite, rid: u64) -> ServerHelloWrite {
    ServerHelloWrite { ttl_expired: false, ttl: 60, resolver_id: rid, auth }
}

#[test]
fn write_hellos() {
    let anon = Auth::Anonymous;
    let k = krb5(None, None);
    assert_eq!(write_hello(&anon, hello(ServerAuthWrite::Anonymous, 1)), HelloOutcome::Ready);
    assert_eq!(write_hello(&anon, hello(ServerAuthWrite::Reused, 1)), HelloOutcome::Retry);
    assert_eq!(write_hello(&k, hello(ServerAuthWrite::Anonymous, 1)), HelloOutcome::Retry);
    assert_eq!(write_hello(&k, hello(ServerAuthWrite::Reused, 1)), HelloOutcome::Encrypt);
    assert_eq!(
        write_hello(&k, hello(ServerAuthWrite::Accepted(vec![5]), 3)),
        HelloOutcome::Complete { token: vec![5], id: 3 }
    );
    assert_eq!(check_resolver_id(3, 3), Ok(()));
    assert_eq!(check_resolver_id(3, 4), Err(ConnectError::ResolverIdMismatch));
}

#[test]
fn first_token() {
    assert_eq!(initial_token(Some(vec![1, 2, 3])), Ok(vec![1, 2, 3]));
    assert_eq!(initial_token(None), Err(ConnectError::NoInitialToken));
}

#[test]
fn republication() {
    assert!(!republish_needed(false, 3));
    assert!(!republish_needed(true, 0));
    assert!(republish_needed(true, 1));
    assert!(republish_accepted(&FromWrite::Published));
    assert!(!republish_accepted(&FromWrite::Unpublished));
    assert!(!republish_accepted(&FromWrite::Denied));
}

#[test]
fn published_paths_grow_on_acknowledged_publication() {
    let mut p = PublishedSet::new();
    assert_eq!(p.len(), 0);
    let req = ToWrite::Publish(vec![String::from("/a"), String::from("/b"), String::from("/a")]);
    p.record(&req, &FromWrite::Denied);
    assert_eq!(p.len(), 0);
    p.record(&req, &FromWrite::Published);
    assert_eq!(p.len(), 2);
    assert!(p.contains(&String::from("/a")));
    assert!(p.contains(&String::from("/b")));
    assert!(!p.contains(&String::from("/c")));
    // withdrawing paths does not change what is published again
    p.record(&ToWrite::Unpublish(vec![String::from("/a")]), &FromWrite::Unpublished);
    assert_eq!(p.len(), 2);
    p.record(&ToWrite::Publish(vec![String::from("/c")]), &FromWrite::Published);
    let mut names = p.names();
    names.sort();
    assert_eq!(names, vec![String::from("/a"), String::from("/b"), String::from("/c")]);
}

fn drive(s: &mut WriteConState, events: &[WriteConEvent]) -> Vec<WriteConAction> {
    events.iter().map(|e| s.step(*e)).collect()
}

#[test]
fn idle_connection_dropped_after_two_linger_ticks() {
    let mut s = WriteConState::new();
    let acts = drive(&mut s, &[E::Request, E::Connected, E::Replied]);
    assert_eq!(acts, vec![A::Connect, A::SendRequest, A::DeliverReply]);
    assert!(s.active && s.connected);
    // the first tick finds the connection active and keeps it
    assert_eq!(s.step(E::Linger), A::Nothing);
    assert!(s.connected && !s.active);
    // the second finds it idle and drops it
    assert_eq!(s.step(E::Linger), A::Disconnect);
    assert!(!s.connected);
    assert_eq!(s.step(E::Linger), A::Nothing);
}

#[test]
fn heartbeats() {
    let mut s = WriteConState::new();
    // with no connection, a heartbeat tick connects
    assert_eq!(s.step(E::Heartbeat), A::Connect);
    assert_eq!(s.pending, Pending::Heartbeat);
    assert_eq!(s.step(E::Connected), A::Nothing);
    assert_eq!(s.pending, Pending::Idle);
    // connected and idle: a heartbeat goes out
    assert_eq!(s.step(E::Heartbeat), A::SendHeartbeat);
    assert_eq!(s.step(E::HeartbeatSent), A::Nothing);
    // a failed heartbeat reconnects
    assert_eq!(s.step(E::Heartbeat), A::SendHeartbeat);
    assert_eq!(s.step(E::Failed), A::Connect);
    assert!(!s.connected);
    assert_eq!(s.step(E::Connected), A::Nothing);
    // an active connection sends no heartbeat
    drive(&mut s, &[E::Request, E::Replied]);
    assert_eq!(s.step(E::Heartbeat), A::Nothing);
}

#[test]
fn failed_request_is_retried() {
    let mut s = WriteConState::new();
    let acts = drive(&mut s, &[E::Request, E::Connected, E::Failed, E::Connected, E::Replied]);
    assert_eq!(acts, vec![A::Connect, A::SendRequest, A::Connect, A::SendRequest, A::DeliverReply]);
    assert_eq!(s, WriteConState { active: true, connected: true, pending: Pending::Idle });
}

#[test]
fn events_out_of_turn_are_ignored() {
    let mut s = WriteConState::new();
    let before = s;
    assert_eq!(s.step(E::Replied), A::Nothing);
    assert_eq!(s.step(E::HeartbeatSent), A::Nothing);
    assert_eq!(s.step(E::Connected), A::Nothing);
    assert_eq!(s.step(E::Failed), A::Nothing);
    assert_eq!(s, before);
    s.step(E::Request);
    // while a request is under way, ticks wait
    assert_eq!(s.step(E::Linger), A::Nothing);
    assert_eq!(s.step(E::Heartbeat), A::Nothing);
    assert_eq!(s.pending, Pending::Request);
}
