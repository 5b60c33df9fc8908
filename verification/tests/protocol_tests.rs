use bogoforge::metrics::Metrics;
use bogoforge::net::protocol::{
    apply_server_message, message_kind, Banned, Credited, Job, MessageKind, NetAction, ProtocolError, Rejected,
    ServerMessage, Welcome,
};

#[test]
fn kinds_from_type_field() {
    assert_eq!(message_kind("welcome"), MessageKind::Welcome);
    assert_eq!(message_kind("job"), MessageKind::Job);
    assert_eq!(message_kind("credited"), MessageKind::Credited);
    assert_eq!(message_kind("rejected"), MessageKind::Rejected);
    assert_eq!(message_kind("client_outdated"), MessageKind::ClientOutdated);
    assert_eq!(message_kind("banned"), MessageKind::Banned);
    assert_eq!(message_kind("contributions_closed"), MessageKind::ContributionsClosed);
    assert_eq!(message_kind(""), MessageKind::Unknown);
    assert_eq!(message_kind("Job"), MessageKind::Unknown);
}

#[test]
fn welcome_updates_lifetime_and_best() {
    let mut m = Metrics::new();
    let r = apply_server_message(
        &mut m,
        ServerMessage::Welcome(Welcome { lifetime_shuffles: 500, all_time_best: 9, code: Some("abc".to_string()) }),
    );
    assert!(matches!(r, Ok(NetAction::RecoveryCode(ref c)) if c == "abc"));
    assert_eq!(m.lifetime_shuffles, 500);
    assert_eq!(m.all_time_best, 9);
    assert_eq!(m.status, "waiting for lease");
    let r = apply_server_message(&mut m, ServerMessage::Welcome(Welcome { lifetime_shuffles: 1, all_time_best: 0, code: None }));
    assert!(matches!(r, Ok(NetAction::Continue)));
    // A zero best is not taken over.
    assert_eq!(m.all_time_best, 9);
}

#[test]
fn job_becomes_lease() {
    let mut m = Metrics::new();
    let seed = "18446744073709551615".to_string();
    match apply_server_message(&mut m, ServerMessage::Job(Job { seed: seed.clone(), count: 1000 })) {
        Ok(NetAction::StartLease(l)) => {
            assert_eq!(l.seed, u64::MAX);
            assert_eq!(l.seed_str, seed);
            assert_eq!(l.count, 1000);
        }
        _ => panic!("a valid job must give a lease"),
    }
    assert_eq!(m.status, "computing");
}

#[test]
fn job_with_bad_seed_is_an_error() {
    let mut m = Metrics::new();
    match apply_server_message(&mut m, ServerMessage::Job(Job { seed: "12x".to_string(), count: 1 })) {
        Err(e) => {
            assert!(matches!(e, ProtocolError::InvalidSeed(ref s) if s == "12x"));
            assert_eq!(e.message(), "job seed is not a valid u64: 12x");
        }
        Ok(_) => panic!("a bad seed must be refused"),
    }
    assert_eq!(m.status, "starting");
}

#[test]
fn credited_updates_counters() {
    let mut m = Metrics::new();
    let c = Credited { credit: 1, lifetime_shuffles: 77, batch_best: None, my_session_best: None, all_time_best: Some(12) };
    assert!(matches!(apply_server_message(&mut m, ServerMessage::Credited(c)), Ok(NetAction::Continue)));
    assert_eq!((m.lifetime_shuffles, m.all_time_best), (77, 12));
    let c = Credited { credit: 1, lifetime_shuffles: 78, batch_best: Some(1), my_session_best: None, all_time_best: None };
    apply_server_message(&mut m, ServerMessage::Credited(c)).ok();
    assert_eq!((m.lifetime_shuffles, m.all_time_best), (78, 12));
}

#[test]
fn other_messages_pass_through() {
    let mut m = Metrics::new();
    assert!(matches!(
        apply_server_message(&mut m, ServerMessage::Rejected(Rejected { reason: "late".to_string() })),
        Ok(NetAction::Rejected(ref r)) if r == "late"
    ));
    assert!(matches!(apply_server_message(&mut m, ServerMessage::ClientOutdated), Ok(NetAction::Outdated)));
    assert!(matches!(
        apply_server_message(&mut m, ServerMessage::Banned(Banned { reason: "spam".to_string() })),
        Ok(NetAction::Banned(ref r)) if r == "spam"
    ));
    assert!(matches!(apply_server_message(&mut m, ServerMessage::ContributionsClosed), Ok(NetAction::Closed)));
    assert!(matches!(
        apply_server_message(&mut m, ServerMessage::Unknown("ping".to_string())),
        Ok(NetAction::Unknown(ref t)) if t == "ping"
    ));
    assert_eq!(m.status, "starting");
    assert_eq!(m.lifetime_shuffles, 0);
}
