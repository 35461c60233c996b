use netidx::subscriber::{
    is_blank, is_white_space, out_line, parse_in, parse_req, state_change, value_text, write_allowed,
    write_target, DvState, In, InError, Req, RequestBatch, StateReport, Subscriptions,
    WriteTarget,
};

fn s(x: &str) -> String {
    String::from(x)
}

fn sorted(mut v: Vec<String>) -> Vec<String> {
    v.sort();
    v
}

#[derive(Debug, Clone, PartialEq)]
enum Val {
    U32(u32),
    Str(String),
}

#[derive(Debug, Clone, Copy, PartialEq)]
enum Typ {
    U32,
    Str,
}

fn typ(t: String) -> Result<Typ, String> {
    match t.as_str() {
        "u32" => Ok(Typ::U32),
        "string" => Ok(Typ::Str),
        _ => Err(format!("unknown type {}", t)),
    }
}

fn val(t: Typ, v: String) -> Result<Val, String> {
    match t {
        Typ::U32 => v.parse::<u32>().map(Val::U32).map_err(|e| e.to_string()),
        Typ::Str => Ok(Val::Str(v)),
    }
}

fn parse(l: &str) -> Result<In<Val>, InError<String>> {
    parse_in(l, typ, val)
}

#[test]
fn parse_add_and_drop() {
    assert_eq!(parse("ADD|/foo/bar"), Ok(In::Add(s("/foo/bar"))));
    assert_eq!(parse("DROP|/foo"), Ok(In::Drop(s("/foo"))));
    assert_eq!(parse("ADD|a|b"), Ok(In::Add(s("a|b"))));
    assert_eq!(parse("ADD|/é"), Ok(In::Add(s("/é"))));
}

#[test]
fn parse_needs_something_after_the_command() {
    assert_eq!(parse("ADD|"), Err(InError::Unknown));
    assert_eq!(parse("DROP|"), Err(InError::Unknown));
    assert_eq!(parse("WRITE|"), Err(InError::Unknown));
    assert_eq!(parse("add|/foo"), Err(InError::Unknown));
    assert_eq!(parse(""), Err(InError::Unknown));
    assert_eq!(parse("ADD"), Err(InError::Unknown));
}

#[test]
fn parse_write() {
    assert_eq!(parse("WRITE|/foo|u32|42"), Ok(In::Write(s("/foo"), Val::U32(42))));
    // the value is the rest of the line
    assert_eq!(parse("WRITE|/foo|string|a|b"), Ok(In::Write(s("/foo"), Val::Str(s("a|b")))));
    assert_eq!(parse("WRITE|/foo|string|"), Ok(In::Write(s("/foo"), Val::Str(s("")))));
    assert_eq!(parse("WRITE|/foo"), Err(InError::ExpectedType));
    assert_eq!(parse("WRITE|/foo|u32"), Err(InError::ExpectedValue));
}

#[test]
fn parse_write_checks_type_and_value() {
    // the type is read before the value is looked for
    assert_eq!(parse("WRITE|/foo|u33"), Err(InError::BadType(s("unknown type u33"))));
    assert_eq!(parse("WRITE|/foo|u33|1"), Err(InError::BadType(s("unknown type u33"))));
    assert!(matches!(parse("WRITE|/foo|u32|x"), Err(InError::BadValue(_))));
    assert!(matches!(parse("WRITE|/foo|u32|4294967296"), Err(InError::BadValue(_))));
}

#[test]
fn blank_lines() {
    assert!(is_blank(""));
    assert!(is_blank("  \t \r"));
    assert!(is_blank("\u{a0}\u{2003}"));
    assert!(!is_blank(" ADD|/a "));
}

#[test]
fn white_space_is_what_std_says() {
    for x in 0u32..0x11_0000 {
        if let Some(c) = char::from_u32(x) {
            assert_eq!(is_white_space(c), c.is_whitespace(), "{:#x}", x);
        }
    }
}

#[test]
fn parse_requests() {
    assert_eq!(parse_req("/foo/bar"), Ok(Req::Add(s("/foo/bar"))));
    assert_eq!(parse_req("drop: /foo"), Ok(Req::Drop(s("/foo"))));
    assert_eq!(parse_req("drop: "), Err(s("path is not absolute drop: ")));
    assert_eq!(parse_req("foo"), Err(s("path is not absolute foo")));
    assert_eq!(parse_req(""), Err(s("path is not absolute ")));
    assert_eq!(parse_req("drop: x"), Ok(Req::Drop(s("x"))));
}

#[test]
fn add_and_drop_cancel_within_a_batch() {
    let mut b: RequestBatch<u32> = RequestBatch::new();
    b.request_add(s("/a"));
    b.request_drop(s("/a"));
    let (drops, adds, writes) = b.take();
    assert!(drops.is_empty());
    assert!(adds.is_empty());
    assert!(writes.is_empty());

    let mut b: RequestBatch<u32> = RequestBatch::new();
    b.request_drop(s("/a"));
    b.request_add(s("/a"));
    let (drops, adds, _) = b.take();
    assert!(drops.is_empty());
    assert!(adds.is_empty());
}

#[test]
fn batch_gathers_requests() {
    let mut b: RequestBatch<u32> = RequestBatch::new();
    b.request_add(s("/a"));
    b.request_add(s("/a"));
    b.request_add(s("/b"));
    b.request_drop(s("/c"));
    b.request_drop(s("/c"));
    b.request_write(1);
    b.request_write(2);
    b.request_drop(s("/b"));
    let (drops, adds, writes) = b.take();
    assert_eq!(drops, vec![s("/c")]);
    assert_eq!(adds, vec![s("/a")]);
    assert_eq!(writes, vec![1, 2]);
    // the batch is empty afterwards
    let (drops, adds, writes) = b.take();
    assert!(drops.is_empty() && adds.is_empty() && writes.is_empty());
}

#[test]
fn end_of_batch_updates_subscriptions() {
    let mut subs = Subscriptions::new();
    assert!(subs.insert(s("/a"), 1));
    assert!(subs.insert(s("/b"), 2));
    assert!(!subs.insert(s("/a"), 3));
    assert_eq!(subs.id_of(&s("/a")), Some(1));
    let fresh = subs.end_batch(&vec![s("/b"), s("/z")], &vec![s("/a"), s("/c"), s("/d")]);
    assert_eq!(sorted(fresh), vec![s("/c"), s("/d")]);
    assert_eq!(subs.id_of(&s("/b")), None);
    assert_eq!(subs.path_of(2), None);
    assert_eq!(subs.id_of(&s("/a")), Some(1));
    assert!(subs.insert(s("/c"), 4));
    assert!(subs.insert(s("/d"), 5));
    assert_eq!(subs.path_of(5), Some(s("/d")));
    assert_eq!(subs.remove_path(&s("/c")), Some(4));
    assert_eq!(subs.remove_path(&s("/c")), None);
    assert_eq!(subs.remove_id(1), Some(s("/a")));
    assert_eq!(subs.remove_id(1), None);
    assert_eq!(subs.id_of(&s("/d")), Some(5));
}

#[test]
fn writes_go_to_subscribed_paths() {
    let mut subs = Subscriptions::new();
    subs.insert(s("/a"), 7);
    assert_eq!(write_target(&subs, &s("/a")), WriteTarget::Subscription(7));
    assert_eq!(write_target(&subs, &s("/b")), WriteTarget::Unknown);
    assert!(write_allowed(&DvState::Subscribed));
    assert!(!write_allowed(&DvState::Unsubscribed));
    assert!(!write_allowed(&DvState::FatalError(s("gone"))));
}

#[test]
fn state_changes() {
    let mut subs = Subscriptions::new();
    subs.insert(s("/a"), 7);
    assert_eq!(state_change(&mut subs, 7, DvState::Subscribed), StateReport::Subscribed(Some(s("/a"))));
    assert_eq!(state_change(&mut subs, 8, DvState::Unsubscribed), StateReport::Unsubscribed(None));
    assert_eq!(
        state_change(&mut subs, 7, DvState::Unsubscribed),
        StateReport::Unsubscribed(Some(s("/a")))
    );
    assert_eq!(
        state_change(&mut subs, 7, DvState::FatalError(s("dead"))),
        StateReport::Dead(s("/a"), s("dead"))
    );
    assert_eq!(subs.id_of(&s("/a")), None);
    assert_eq!(state_change(&mut subs, 7, DvState::FatalError(s("dead"))), StateReport::Nothing);
}

#[test]
fn output_lines() {
    assert_eq!(out_line("/a/b", Some("u32"), "42"), "/a/b|u32|42\n");
    assert_eq!(out_line("/a", None, "null"), "/a|none|null\n");
    assert_eq!(value_text("/a|b", "{\"x\":1}"), "/a\\|b|{\"x\":1}");
    assert_eq!(value_text("/plain", "1"), "/plain|1");
}
