use plumtuna::contact::ContactService;
use plumtuna::error::{http_status, Error, ErrorKind};
use plumtuna::forget::ForgetQueue;
use plumtuna::global::{Action, Contact, GlobalNode, Message as GlobalMessage};
use plumtuna::http::{
    get_attr_key, get_study_id, get_study_name, get_step, get_subscribe_id, get_trial_id,
    parse_u32, path_segment, percent_decode,
};
use plumtuna::ids::{
    MessageId, NodeRef, StudyDirection, StudyId, StudyName, StudyNameAndId, TrialId, TrialState,
};
use plumtuna::message::UnionMessage;
use plumtuna::operation::{AcceptDecision, Operation, OperationKey, OperationLedger};
use plumtuna::study::{Message, StudyNode};
use plumtuna::subscriber::{SubscribeId, Subscriber, Subscribers, HEARTBEAT_WINDOW_MS};
use plumtuna::time::{deadline_after, Timestamp};
use plumtuna::trial::{is_nan, order_key, Trial};

fn node(host: u128, seq: u64) -> MessageId {
    MessageId { origin: NodeRef { host, port: 7364, local_id: 1 }, seq }
}

fn ts(secs: u64) -> Timestamp {
    Timestamp { secs, nanos: 0 }
}

fn study(name: &str, id: u128) -> StudyNameAndId {
    StudyNameAndId { study_name: StudyName::new(name.to_string()), study_id: StudyId(id) }
}

fn new_node() -> StudyNode {
    StudyNode::new(study("alpha", 42), 0, ts(100))
}

fn trial(n: u128) -> TrialId {
    TrialId::new(StudyId(42), n)
}

#[test]
fn status_codes_follow_error_kind() {
    assert_eq!(http_status(ErrorKind::AlreadyExists), 409);
    assert_eq!(http_status(ErrorKind::NotFound), 404);
    assert_eq!(http_status(ErrorKind::Other), 500);
    assert_eq!(Error::not_found().kind(), ErrorKind::NotFound);
    assert_eq!(Error::already_exists().kind(), ErrorKind::AlreadyExists);
    assert_eq!(Error::new("boom".to_string()).kind(), ErrorKind::Other);
}

#[test]
fn percent_decode_replaces_escapes() {
    assert_eq!(percent_decode("a%20b").unwrap(), "a b");
    assert_eq!(percent_decode("%41%62c").unwrap(), "Abc");
    assert_eq!(percent_decode("").unwrap(), "");
    assert_eq!(percent_decode("plain").unwrap(), "plain");
    assert_eq!(percent_decode("%C3%A9").unwrap(), "\u{e9}");
    assert_eq!(percent_decode("caf%c3%a9").unwrap(), "caf\u{e9}");
    assert_eq!(percent_decode("\u{e9}t\u{e9}").unwrap(), "\u{e9}t\u{e9}");
}

#[test]
fn percent_decode_rejects_bad_escapes() {
    assert_eq!(percent_decode("%4").unwrap_err().kind(), ErrorKind::Other);
    assert_eq!(percent_decode("abc%").unwrap_err().kind(), ErrorKind::Other);
    assert_eq!(percent_decode("%zz").unwrap_err().kind(), ErrorKind::Other);
    assert_eq!(percent_decode("%-1").unwrap_err().kind(), ErrorKind::Other);
    assert_eq!(percent_decode("%e9").unwrap_err().kind(), ErrorKind::Other);
    assert_eq!(percent_decode("%+F").unwrap_err().kind(), ErrorKind::Other);
    assert_eq!(percent_decode("%C3").unwrap_err().kind(), ErrorKind::Other);
}

#[test]
fn path_segments_are_split_on_slashes() {
    assert_eq!(path_segment("/studies/abc/trials", 0).unwrap(), "studies");
    assert_eq!(path_segment("/studies/abc/trials", 1).unwrap(), "abc");
    assert_eq!(path_segment("/studies/abc/trials", 2).unwrap(), "trials");
    assert_eq!(path_segment("/studies//x", 1).unwrap(), "");
    assert!(path_segment("/studies/abc/trials", 3).is_err());
    assert!(path_segment("studies", 0).is_err());
    assert!(path_segment("", 0).is_err());
}

#[test]
fn attr_key_is_percent_decoded() {
    assert_eq!(get_attr_key("/studies/x/user_attrs/a%2Fb").unwrap(), "a/b");
    assert!(get_attr_key("/studies/x/user_attrs").is_err());
}

#[test]
fn steps_and_subscriber_ids_are_decimal() {
    assert_eq!(get_step("/trials/t/intermediate_values/12").unwrap(), 12);
    assert_eq!(get_step("/trials/t/intermediate_values/+7").unwrap(), 7);
    assert!(get_step("/trials/t/intermediate_values/4294967296").is_err());
    assert!(get_step("/trials/t/intermediate_values/x1").is_err());
    assert_eq!(get_subscribe_id("/studies/s/subscribe/3").unwrap(), SubscribeId(3));
    assert_eq!(parse_u32("4294967295").unwrap(), u32::MAX);
    assert!(parse_u32("+").is_err());
    assert!(parse_u32("").is_err());
}

#[test]
fn study_ids_and_names_come_from_the_path() {
    let id = get_study_id("/studies/550e8400-e29b-41d4-a716-446655440000").unwrap();
    assert_eq!(id, StudyId(0x550e8400_e29b_41d4_a716_446655440000));
    assert_eq!(get_study_id("/studies/not-a-uuid").unwrap_err().kind(), ErrorKind::Other);
    assert_eq!(get_study_name("/study_names/y").unwrap().as_str(), "y");
}

#[test]
fn trial_id_text_round_trips() {
    let t = TrialId::new(StudyId(5), 7);
    let text = t.to_text();
    assert_eq!(
        text,
        "00000000-0000-0000-0000-000000000005.00000000-0000-0000-0000-000000000007"
    );
    assert_eq!(TrialId::parse(&text), Some(t));
    assert_eq!(t.get_study_id(), StudyId(5));
    assert_eq!(TrialId::parse("abc"), None);
    assert_eq!(TrialId::parse("abc.def"), None);
    let path = format!("/trials/{}/value", text);
    assert_eq!(get_trial_id(&path).unwrap(), t);
    assert_eq!(StudyId(5).to_text(), "00000000-0000-0000-0000-000000000005");
    assert_eq!(
        StudyId(0x0123456789abcdef0123456789abcdef).to_text(),
        "01234567-89ab-cdef-0123-456789abcdef"
    );
}

#[test]
fn fresh_ids_differ() {
    assert_ne!(StudyId::new(), StudyId::new());
    let a = TrialId::random(StudyId(1));
    assert_eq!(a.study, StudyId(1));
}

#[test]
fn fresh_ids_are_version_four() {
    let u = StudyId::new().as_uuid();
    assert_eq!((u >> 76) & 0xf, 4);
    assert_eq!((u >> 62) & 0x3, 2);
    let t = TrialId::random(StudyId(1)).local;
    assert_eq!((t >> 76) & 0xf, 4);
    assert_eq!((t >> 62) & 0x3, 2);
}

#[test]
fn ledger_keeps_the_newest_write() {
    let mut ledger = OperationLedger::new();
    let m_old = Message::SetStudyDirection { direction: StudyDirection::Minimize, timestamp: ts(1) };
    let m_new = Message::SetStudyDirection { direction: StudyDirection::Maximize, timestamp: ts(2) };
    let op_old = Operation::new(node(1, 1), &m_old);
    let op_new = Operation::new(node(2, 1), &m_new);
    let r = ledger.observe(OperationKey::from_message(&m_old), op_old);
    assert_eq!(r, (AcceptDecision::Accept, None));
    let r = ledger.observe(OperationKey::from_message(&m_new), op_new);
    assert_eq!(r, (AcceptDecision::Accept, Some(node(1, 1))));
    let r = ledger.observe(OperationKey::from_message(&m_old), op_old);
    assert_eq!(r, (AcceptDecision::Reject, Some(node(1, 1))));
    let r = ledger.observe(OperationKey::from_message(&m_new), op_new);
    assert_eq!(r, (AcceptDecision::Reject, None));
    assert_eq!(ledger.get(&OperationKey::from_message(&m_old)), Some(op_new));
}

#[test]
fn equal_timestamps_break_ties_by_message_id() {
    let mut ledger = OperationLedger::new();
    let m = Message::SetStudyDirection { direction: StudyDirection::Minimize, timestamp: ts(5) };
    let a = Operation::new(node(1, 9), &m);
    let b = Operation::new(node(2, 0), &m);
    assert!(a.lt(&b));
    ledger.observe(OperationKey::from_message(&m), b);
    let r = ledger.observe(OperationKey::from_message(&m), a);
    assert_eq!(r.0, AcceptDecision::Reject);
}

#[test]
fn direction_converges_in_either_order() {
    let x = Message::SetStudyDirection { direction: StudyDirection::Minimize, timestamp: ts(1) };
    let y = Message::SetStudyDirection { direction: StudyDirection::Maximize, timestamp: ts(2) };
    let mut p = new_node();
    let mut q = new_node();
    p.handle_message(node(1, 1), Message::SetStudyDirection { direction: StudyDirection::Minimize, timestamp: ts(1) }, 0);
    p.handle_message(node(2, 1), y, 0);
    q.handle_message(node(2, 1), Message::SetStudyDirection { direction: StudyDirection::Maximize, timestamp: ts(2) }, 0);
    let (accepted, _) = q.handle_message(node(1, 1), x, 0);
    assert!(!accepted);
    assert_eq!(p.get_summary().direction, StudyDirection::Maximize);
    assert_eq!(q.get_summary().direction, StudyDirection::Maximize);
}

#[test]
fn new_study_has_empty_summary() {
    let n = new_node();
    let s = n.get_summary();
    assert_eq!(s.study_name.as_str(), "alpha");
    assert_eq!(s.study_id, StudyId(42));
    assert_eq!(s.direction, StudyDirection::NotSet);
    assert_eq!(s.n_trials, 0);
    assert!(s.best_trial.is_none());
    assert_eq!(s.datetime_start, ts(100));
    assert_eq!(s.user_attrs.len(), 0);
}

#[test]
fn set_attr_then_summary_shows_it() {
    let mut n = new_node();
    n.handle_message(node(1, 1), Message::SetStudyUserAttr { key: "k".to_string(), value: "1".to_string(), timestamp: ts(1) }, 0);
    n.handle_message(node(1, 2), Message::SetStudyUserAttr { key: "k".to_string(), value: "\"two\"".to_string(), timestamp: ts(2) }, 0);
    n.handle_message(node(1, 3), Message::SetStudySystemAttr { key: "s".to_string(), value: "true".to_string(), timestamp: ts(3) }, 0);
    let s = n.get_summary();
    assert_eq!(s.user_attrs.get(&"k".to_string()).unwrap(), "\"two\"");
    assert_eq!(s.user_attrs.len(), 1);
    assert_eq!(s.system_attrs.get(&"s".to_string()).unwrap(), "true");
}

#[test]
fn out_of_order_value_waits_for_creation() {
    let mut n = new_node();
    let t = trial(1);
    n.handle_message(node(1, 1), Message::SetTrialValue { trial_id: t, value: 3.14f64.to_bits(), timestamp: ts(2) }, 0);
    assert_eq!(n.get_trial(t).unwrap_err().kind(), ErrorKind::NotFound);
    assert_eq!(n.get_trials().len(), 0);
    n.handle_message(node(1, 2), Message::CreateTrial { trial_id: t, timestamp: ts(1) }, 0);
    let got = n.get_trial(t).unwrap();
    assert_eq!(got.value, Some(3.14f64.to_bits()));
    assert_eq!(got.state, TrialState::Running);
    assert_eq!(got.datetime_start, Some(ts(1)));
    assert_eq!(n.get_trials().len(), 1);
    assert_eq!(n.get_summary().n_trials, 1);
}

#[test]
fn unknown_trial_is_not_found() {
    let n = new_node();
    assert_eq!(n.get_trial(trial(9)).unwrap_err().kind(), ErrorKind::NotFound);
}

#[test]
fn complete_without_value_reads_as_running() {
    let mut n = new_node();
    let t = trial(1);
    n.handle_message(node(1, 1), Message::CreateTrial { trial_id: t, timestamp: ts(1) }, 0);
    n.handle_message(node(1, 2), Message::SetTrialState { trial_id: t, state: TrialState::Complete, timestamp: ts(2) }, 0);
    let got = n.get_trial(t).unwrap();
    assert_eq!(got.state, TrialState::Running);
    assert_eq!(got.datetime_end, None);
    n.handle_message(node(1, 3), Message::SetTrialValue { trial_id: t, value: 1.0f64.to_bits(), timestamp: ts(3) }, 0);
    let got = n.get_trial(t).unwrap();
    assert_eq!(got.state, TrialState::Complete);
    assert_eq!(got.datetime_end, Some(ts(2)));
}

fn add_trial(n: &mut StudyNode, id: u128, value: f64, state: TrialState, seq: u64) {
    let t = trial(id);
    n.handle_message(node(1, seq), Message::CreateTrial { trial_id: t, timestamp: ts(1) }, 0);
    n.handle_message(node(1, seq + 1), Message::SetTrialValue { trial_id: t, value: value.to_bits(), timestamp: ts(1) }, 0);
    n.handle_message(node(1, seq + 2), Message::SetTrialState { trial_id: t, state, timestamp: ts(1) }, 0);
}

#[test]
fn best_trial_is_smallest_complete_number() {
    let mut n = new_node();
    n.handle_message(node(9, 1), Message::SetStudyDirection { direction: StudyDirection::Minimize, timestamp: ts(1) }, 0);
    add_trial(&mut n, 1, 1.0, TrialState::Complete, 10);
    add_trial(&mut n, 2, f64::NAN, TrialState::Complete, 20);
    add_trial(&mut n, 3, 0.5, TrialState::Running, 30);
    let best = n.get_summary().best_trial.unwrap();
    assert_eq!(best.trial_id, trial(1));
    assert_eq!(n.get_summary().n_trials, 3);
}

#[test]
fn best_trial_under_maximize_is_largest() {
    let mut n = new_node();
    n.handle_message(node(9, 1), Message::SetStudyDirection { direction: StudyDirection::Maximize, timestamp: ts(1) }, 0);
    add_trial(&mut n, 1, -2.0, TrialState::Complete, 10);
    add_trial(&mut n, 2, 7.5, TrialState::Complete, 20);
    add_trial(&mut n, 3, 3.0, TrialState::Complete, 30);
    assert_eq!(n.get_summary().best_trial.unwrap().trial_id, trial(2));
}

#[test]
fn best_trial_ties_keep_the_first() {
    let mut n = new_node();
    add_trial(&mut n, 1, -0.0, TrialState::Complete, 10);
    add_trial(&mut n, 2, 0.0, TrialState::Complete, 20);
    add_trial(&mut n, 3, -1.5, TrialState::Pruned, 30);
    assert_eq!(n.get_summary().best_trial.unwrap().trial_id, trial(1));
}

#[test]
fn no_best_trial_without_complete_numbers() {
    let mut n = new_node();
    add_trial(&mut n, 1, f64::NAN, TrialState::Complete, 10);
    add_trial(&mut n, 2, 1.0, TrialState::Fail, 20);
    assert!(n.get_summary().best_trial.is_none());
}

#[test]
fn float_keys_order_like_numbers() {
    let vals = [f64::NEG_INFINITY, -3.5, -1.0, -0.0, 0.0, 1e-300, 2.0, f64::INFINITY];
    for w in vals.windows(2) {
        assert!(order_key(w[0].to_bits()) <= order_key(w[1].to_bits()));
    }
    assert_eq!(order_key((-0.0f64).to_bits()), order_key(0.0f64.to_bits()));
    assert!(is_nan(f64::NAN.to_bits()));
    assert!(!is_nan(f64::INFINITY.to_bits()));
    assert!(!is_nan(1.0f64.to_bits()));
}

#[test]
fn trial_state_change_records_end() {
    let mut t = Trial::new(trial(1));
    assert_eq!(t.state(), TrialState::Running);
    t.set_state(TrialState::Running, ts(3));
    assert_eq!(t.datetime_end, None);
    t.set_state(TrialState::Fail, ts(4));
    assert_eq!(t.datetime_end, Some(ts(4)));
    t.set_state(TrialState::Running, ts(5));
    assert_eq!(t.datetime_end, None);
    t.set_state(TrialState::Fail, ts(4));
    assert!(!t.is_complete());
    assert!(t.adjust().is_none());
}

#[test]
fn subscriber_sees_each_accepted_mutation_once() {
    let mut n = new_node();
    let sid = n.subscribe(0, Vec::new()).unwrap();
    assert_eq!(sid, SubscribeId(0));
    let m = Message::SetStudyDirection { direction: StudyDirection::Minimize, timestamp: ts(1) };
    n.handle_message(node(1, 1), m, 0);
    let late = n.subscribe(0, Vec::new()).unwrap();
    assert_eq!(late, SubscribeId(1));
    n.handle_message(node(1, 1), Message::SetStudyDirection { direction: StudyDirection::Minimize, timestamp: ts(1) }, 0);
    let first = n.poll_events(sid, 10).unwrap();
    assert_eq!(first.len(), 1);
    assert!(matches!(first[0], Message::SetStudyDirection { direction: StudyDirection::Minimize, .. }));
    assert_eq!(n.poll_events(sid, 20).unwrap().len(), 0);
    assert_eq!(n.poll_events(late, 20).unwrap().len(), 0);
}

#[test]
fn subscriber_starts_with_history() {
    let mut n = new_node();
    let history = vec![Message::CreateTrial { trial_id: trial(1), timestamp: ts(1) }];
    let sid = n.subscribe(0, history).unwrap();
    assert_eq!(n.poll_events(sid, 1).unwrap().len(), 1);
}

#[test]
fn polling_unknown_subscriber_is_not_found() {
    let mut n = new_node();
    assert_eq!(n.poll_events(SubscribeId(7), 0).unwrap_err().kind(), ErrorKind::NotFound);
}

#[test]
fn polled_subscriber_never_expires() {
    let mut n = new_node();
    let sid = n.subscribe(0, Vec::new()).unwrap();
    let idle = n.subscribe(0, Vec::new()).unwrap();
    let mut now = 0;
    for _ in 0..5 {
        now += HEARTBEAT_WINDOW_MS - 1;
        n.poll_events(sid, now).unwrap();
        n.sweep_subscribers(now);
    }
    assert!(n.poll_events(sid, now).is_ok());
    assert_eq!(n.poll_events(idle, now).unwrap_err().kind(), ErrorKind::NotFound);
}

#[test]
fn subscriber_expiry_follows_heartbeat() {
    let mut s = Subscriber::new(0);
    assert!(!s.has_expired(HEARTBEAT_WINDOW_MS - 1));
    assert!(s.has_expired(HEARTBEAT_WINDOW_MS));
    s.heartbeat(10);
    assert!(!s.has_expired(HEARTBEAT_WINDOW_MS + 9));
    assert!(s.has_expired(HEARTBEAT_WINDOW_MS + 10));
    s.push_message(Message::CreateTrial { trial_id: trial(1), timestamp: ts(1) });
    assert_eq!(s.pop_messages().len(), 1);
    assert_eq!(s.pop_messages().len(), 0);
}

#[test]
fn subscribe_ids_are_dense() {
    let mut subs = Subscribers::new();
    assert_eq!(subs.subscribe(0, Vec::new()), Some(SubscribeId(0)));
    assert_eq!(subs.subscribe(0, Vec::new()), Some(SubscribeId(1)));
    assert_eq!(subs.len(), 2);
    let mut id = SubscribeId::new();
    assert_eq!(id.next(), SubscribeId(0));
    assert_eq!(id.next(), SubscribeId(1));
    subs.next_id = SubscribeId(u32::MAX);
    assert_eq!(subs.subscribe(0, Vec::new()), None);
}

#[test]
fn node_expires_after_idle_ttl() {
    let mut n = new_node();
    assert!(!n.has_expired(3_600_000));
    assert!(n.has_expired(3_600_001));
    n.touch(1_000);
    assert!(!n.has_expired(3_601_000));
}

#[test]
fn received_messages_are_forgotten_later() {
    let mut n = new_node();
    n.handle_message(node(1, 1), Message::CreateTrial { trial_id: trial(1), timestamp: ts(1) }, 0);
    n.handle_message(node(1, 2), Message::CreateTrial { trial_id: trial(2), timestamp: ts(1) }, 10);
    assert_eq!(n.due_forgets(60_000).len(), 0);
    assert_eq!(n.due_forgets(60_005), vec![node(1, 1)]);
    assert_eq!(n.due_forgets(60_010).len(), 0);
    assert_eq!(n.due_forgets(60_011), vec![node(1, 2)]);
    let mut q = ForgetQueue::new();
    q.push(u64::MAX - 1, node(3, 3));
    assert_eq!(q.entries[0].0, u64::MAX);
}

#[test]
fn uncontested_create_resolves_to_its_id() {
    let mut g = GlobalNode::new();
    let a = g.create_study(StudyName::new("alpha".to_string()), StudyId(7), 1000, 1, 0);
    assert!(matches!(&a[..], [Action::Broadcast(GlobalMessage::CreateStudy { id: StudyId(7), .. })]));
    assert_eq!(g.handle_creatings(999).len(), 0);
    let a = g.handle_creatings(1000);
    assert_eq!(a.len(), 2);
    assert!(matches!(&a[0], Action::Spawn { contact: None, study } if study.study_id == StudyId(7)));
    assert!(matches!(&a[1], Action::ReplyCreate { ticket: 1, result: Ok(StudyId(7)) }));
    let a = g.join_study(StudyName::new("alpha".to_string()), 1500, 2, 1000);
    assert!(matches!(&a[..], [Action::ReplyJoin { ticket: 2, result: Ok(StudyId(7)) }]));
    let studies = g.get_studies();
    assert_eq!(studies.len(), 1);
    assert_eq!(studies[0].study_name.as_str(), "alpha");
}

#[test]
fn second_create_of_same_name_is_refused() {
    let mut g = GlobalNode::new();
    g.create_study(StudyName::new("x".to_string()), StudyId(1), 1000, 1, 0);
    let a = g.create_study(StudyName::new("x".to_string()), StudyId(2), 1000, 2, 0);
    assert!(matches!(&a[..], [Action::ReplyCreate { ticket: 2, result: Err(ErrorKind::AlreadyExists) }]));
}

#[test]
fn concurrent_create_smaller_id_wins() {
    let mut a = GlobalNode::new();
    let mut b = GlobalNode::new();
    a.create_study(StudyName::new("x".to_string()), StudyId(5), 1000, 1, 0);
    b.create_study(StudyName::new("x".to_string()), StudyId(9), 1000, 1, 0);
    let from_b = GlobalMessage::CreateStudy { name: StudyName::new("x".to_string()), id: StudyId(9) };
    let from_a = GlobalMessage::CreateStudy { name: StudyName::new("x".to_string()), id: StudyId(5) };
    let ra = a.handle_message(node(2, 1), from_b, 10);
    assert!(matches!(&ra[..], [Action::Notify { contact: Contact::ClusterNode, study, .. }] if study.study_id == StudyId(5)));
    let rb = b.handle_message(node(1, 1), from_a, 10);
    assert!(matches!(&rb[..], [Action::ReplyCreate { ticket: 1, result: Err(ErrorKind::AlreadyExists) }]));
    assert_eq!(b.creatings.len(), 0);
    let listed = b.get_studies();
    assert_eq!(listed.len(), 1);
    assert_eq!(listed[0].study_name.as_str(), "x");
    assert_eq!(listed[0].study_id, StudyId(5));
    let r = b.join_study(StudyName::new("x".to_string()), 1500, 7, 20);
    assert!(matches!(&r[..], [Action::ReplyJoin { ticket: 7, result: Ok(StudyId(5)) }]));
    let ra = a.handle_creatings(1000);
    assert!(matches!(ra.last(), Some(Action::ReplyCreate { result: Ok(StudyId(5)), .. })));
    let again = a.handle_message(node(1, 2), GlobalMessage::CreateStudy { name: StudyName::new("x".to_string()), id: StudyId(5) }, 20);
    assert_eq!(again.len(), 0);
}

#[test]
fn hosted_name_is_never_changed_by_broadcasts() {
    let mut g = GlobalNode::new();
    g.create_study(StudyName::new("x".to_string()), StudyId(5), 0, 1, 0);
    g.handle_creatings(0);
    let r = g.handle_message(node(2, 1), GlobalMessage::CreateStudy { name: StudyName::new("x".to_string()), id: StudyId(1) }, 1);
    assert!(matches!(&r[..], [Action::Notify { contact: Contact::HostedStudy, study, .. }] if study.study_id == StudyId(5)));
    assert_eq!(g.get_studies()[0].study_id, StudyId(5));
}

#[test]
fn lookup_finds_a_study_hosted_elsewhere() {
    let mut host = GlobalNode::new();
    host.create_study(StudyName::new("y".to_string()), StudyId(3), 0, 1, 0);
    host.handle_creatings(0);
    let r = host.handle_message(node(2, 1), GlobalMessage::JoinStudy { name: StudyName::new("y".to_string()) }, 1);
    assert!(matches!(&r[..], [Action::Notify { to, contact: Contact::HostedStudy, study }] if *to == node(2, 1) && study.study_id == StudyId(3)));

    let mut b = GlobalNode::new();
    let r = b.join_study(StudyName::new("y".to_string()), 1500, 4, 0);
    assert!(matches!(&r[..], [Action::Broadcast(GlobalMessage::JoinStudy { .. })]));
    let contact = NodeRef { host: 1, port: 7364, local_id: 3 };
    let r = b.notify_study(study("y", 3), Some(contact));
    assert_eq!(r.len(), 2);
    assert!(matches!(&r[0], Action::Spawn { contact: Some(c), .. } if *c == contact));
    assert!(matches!(&r[1], Action::ReplyJoin { ticket: 4, result: Ok(StudyId(3)) }));
    assert_eq!(b.joinings.len(), 0);
    assert_eq!(b.get_studies().len(), 1);
}

#[test]
fn lookup_of_a_name_being_created_waits_for_it() {
    let mut g = GlobalNode::new();
    g.create_study(StudyName::new("z".to_string()), StudyId(8), 100, 1, 0);
    let r = g.handle_message(node(2, 4), GlobalMessage::JoinStudy { name: StudyName::new("z".to_string()) }, 1);
    assert_eq!(r.len(), 0);
    let r = g.handle_creatings(100);
    assert_eq!(r.len(), 3);
    assert!(matches!(&r[1], Action::Notify { to, contact: Contact::HostedStudy, .. } if *to == node(2, 4)));
}

#[test]
fn lookup_gives_up_after_wait() {
    let mut g = GlobalNode::new();
    g.join_study(StudyName::new("nope".to_string()), 1500, 9, 0);
    assert_eq!(g.handle_joinings(1499).len(), 0);
    let r = g.handle_joinings(1500);
    assert!(matches!(&r[..], [Action::ReplyJoin { ticket: 9, result: Err(ErrorKind::NotFound) }]));
}

#[test]
fn notification_overturns_creation_in_flight() {
    let mut g = GlobalNode::new();
    g.create_study(StudyName::new("x".to_string()), StudyId(9), 1000, 1, 0);
    let r = g.notify_study(study("x", 5), None);
    assert!(matches!(&r[..], [Action::ReplyCreate { ticket: 1, result: Err(ErrorKind::AlreadyExists) }]));
    assert_eq!(g.creatings.len(), 0);
    assert_eq!(g.get_studies()[0].study_id, StudyId(5));
    assert_eq!(g.study_names.len(), 0);
}

#[test]
fn creating_a_hosted_name_is_refused() {
    let mut g = GlobalNode::new();
    g.create_study(StudyName::new("x".to_string()), StudyId(5), 0, 1, 0);
    assert!(g.id_in_use(StudyId(5)));
    g.handle_creatings(0);
    assert!(g.id_in_use(StudyId(5)));
    assert!(!g.id_in_use(StudyId(6)));
    let a = g.create_study(StudyName::new("x".to_string()), StudyId(6), 0, 2, 1);
    assert!(matches!(&a[..], [Action::ReplyCreate { ticket: 2, result: Err(ErrorKind::AlreadyExists) }]));
    assert_eq!(g.creatings.len(), 0);
}

#[test]
fn creating_a_name_known_elsewhere_replaces_the_record() {
    let mut g = GlobalNode::new();
    g.notify_study(study("x", 5), None);
    assert_eq!(g.known.len(), 1);
    let a = g.create_study(StudyName::new("x".to_string()), StudyId(6), 100, 2, 0);
    assert!(matches!(&a[..], [Action::Broadcast(GlobalMessage::CreateStudy { id: StudyId(6), .. })]));
    assert_eq!(g.known.len(), 0);
    let r = g.handle_creatings(100);
    assert!(matches!(r.last(), Some(Action::ReplyCreate { ticket: 2, result: Ok(StudyId(6)) })));
    let studies = g.get_studies();
    assert_eq!(studies.len(), 1);
    assert_eq!(studies[0].study_id, StudyId(6));
}

#[test]
fn study_node_down_forgets_the_name() {
    let mut g = GlobalNode::new();
    g.create_study(StudyName::new("x".to_string()), StudyId(9), 0, 1, 0);
    g.handle_creatings(0);
    g.notify_study_node_down(&study("x", 9));
    assert_eq!(g.get_studies().len(), 0);
    assert_eq!(g.due_forgets(0).len(), 0);
}

#[test]
fn union_message_unwraps_by_kind() {
    let g = UnionMessage::from_global(GlobalMessage::JoinStudy { name: StudyName::new("a".to_string()) });
    assert!(g.into_study_message().is_err());
    let g = UnionMessage::from_global(GlobalMessage::JoinStudy { name: StudyName::new("a".to_string()) });
    assert!(g.into_global_message().is_ok());
    let s = UnionMessage::from_study(Message::CreateTrial { trial_id: trial(1), timestamp: ts(1) });
    assert_eq!(s.into_global_message().unwrap_err().kind(), ErrorKind::Other);
    let s = UnionMessage::from_study(Message::CreateTrial { trial_id: trial(1), timestamp: ts(1) });
    assert_eq!(s.into_study_message().unwrap().timestamp(), ts(1));
}

#[test]
fn contact_waiters_are_released_in_order() {
    let mut c = ContactService::new();
    assert_eq!(c.get_contact_node_id(1), None);
    assert_eq!(c.get_contact_node_id(2), None);
    let id = NodeRef { host: 9, port: 1, local_id: 2 };
    assert_eq!(c.set_contact_node_id(id), vec![1, 2]);
    assert_eq!(c.get_contact_node_id(3), Some(id));
    assert_eq!(c.waitings.len(), 0);
}

#[test]
fn timestamps_and_deadlines() {
    assert!(ts(1).lt(&ts(2)));
    assert!(Timestamp { secs: 1, nanos: 5 }.lt(&Timestamp { secs: 1, nanos: 6 }));
    assert!(!ts(2).lt(&ts(2)));
    assert_eq!(Timestamp { secs: 2, nanos: 1_500_000 }.to_micros(), 2_001_500);
    assert_eq!(deadline_after(5, 10), 15);
    assert_eq!(deadline_after(u64::MAX - 1, 10), u64::MAX);
    let now = Timestamp::now();
    assert!(now.nanos < 1_000_000_000);
    assert!(now.secs > 1_600_000_000);
}
