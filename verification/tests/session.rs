use network::broadcast::FanOut;
use network::error::BroadcastError;
use network::error::BroadcastErrorKind;
use network::error::EncodingErrorKind;
use network::error::LayoutError;
use network::message::Message;
use network::registry::Services;
use network::session::CloseReason;
use network::session::Frame;
use network::session::Session;
use network::session::SessionState;
use network::session::Step;

fn three() -> Services<&'static str> {
    let mut services = Services::new();
    assert_eq!(services.add_listener("a"), 0);
    assert_eq!(services.add_listener("b"), 1);
    assert_eq!(services.add_listener("c"), 2);
    services
}

#[test]
fn identifiers_ascend_from_zero() {
    let mut services: Services<u8> = Services::new();
    assert_eq!(services.len(), 0);
    assert!(services.has_room());
    for expected in 0..50usize {
        assert_eq!(services.add_listener(0), expected);
    }
    assert_eq!(services.len(), 50);
}

#[test]
fn identifiers_are_not_reused() {
    let mut services = three();
    assert_eq!(services.remove_listener(2), Some("c"));
    assert_eq!(services.remove_listener(0), Some("a"));
    assert_eq!(services.add_listener("d"), 3);
    assert_eq!(services.peers(usize::MAX), vec![1usize, 3]);
    assert_eq!(services.sink(3), Some(&"d"));
    assert_eq!(services.sink(0), None);
}

#[test]
fn removal_is_idempotent() {
    let mut services = three();
    assert_eq!(services.remove_listener(1), Some("b"));
    assert_eq!(services.remove_listener(1), None);
    assert_eq!(services.remove_listener(1), None);
    assert_eq!(services.remove_listener(77), None);
    assert_eq!(services.len(), 2);
    assert_eq!(services.peers(usize::MAX), vec![0usize, 2]);
}

#[test]
fn sender_is_excluded() {
    let services = three();
    assert_eq!(services.peers(0), vec![1usize, 2]);
    assert_eq!(services.peers(1), vec![0usize, 2]);
    assert_eq!(services.peers(2), vec![0usize, 1]);
    assert_eq!(services.peers(3), vec![0usize, 1, 2]);
    let empty: Services<u8> = Services::new();
    assert_eq!(empty.peers(0), Vec::<usize>::new());
}

#[test]
fn play_from_the_middle_connection_reaches_the_others() {
    let mut services: Services<Vec<String>> = Services::new();
    let mut sessions = Vec::new();
    for _ in 0..3 {
        let mut session = Session::new();
        assert_eq!(session.current(), SessionState::Connecting);
        let id = session.register(&mut services, Vec::new());
        assert_eq!(session.current(), SessionState::Active(id));
        sessions.push(session);
    }
    let inbound = Message::Play(vec![7, 8, 9]).encode_text();
    let step = sessions[1].on_frame(&services, Frame::Text(inbound));
    assert_eq!(sessions[1].current(), SessionState::Active(1));
    let mut plan = match step {
        Step::Dispatch(plan) => plan,
        Step::Stop(reason) => panic!("stopped: {:?}", reason),
    };
    assert_eq!(plan.peers(), &vec![0usize, 2]);
    let mut inboxes: Vec<Vec<String>> = vec![Vec::new(), Vec::new(), Vec::new()];
    while let Some(peer) = plan.next_peer() {
        assert!(services.sink(peer).is_some());
        inboxes[peer].push(plan.frame().to_string());
        plan.delivered();
    }
    assert!(plan.into_failures().is_empty());
    assert_eq!(inboxes[1].len(), 0);
    for peer in [0usize, 2] {
        assert_eq!(inboxes[peer].len(), 1);
        assert_eq!(
            Message::decode_text(&inboxes[peer][0]).unwrap(),
            Message::Play(vec![7, 8, 9])
        );
    }
}

#[test]
fn each_kind_is_passed_on_as_itself() {
    let services = three();
    let plan = services.set_bios(0, vec![1]);
    assert_eq!(plan.frame(), Message::Bios(vec![1]).encode_text());
    assert_eq!(plan.peers(), &vec![1usize, 2]);
    let plan = services.set_rom(1, vec![2]);
    assert_eq!(plan.frame(), Message::Rom(vec![2]).encode_text());
    assert_eq!(plan.peers(), &vec![0usize, 2]);
    let plan = services.broadcast_play(2, vec![3]);
    assert_eq!(plan.frame(), Message::Play(vec![3]).encode_text());
    assert_eq!(plan.peers(), &vec![0usize, 1]);
    let plan = services.broadcast_snapshot(9, vec![4]);
    assert_eq!(plan.frame(), Message::Snapshot(vec![4]).encode_text());
    assert_eq!(plan.peers(), &vec![0usize, 1, 2]);
    let delta = network::delta::DeltaSnapshot::new(&[1, 2], &[1, 3]);
    let plan = services.broadcast_delta_snapshot(0, delta);
    assert_eq!(plan.frame(), "AwAAAAECAQAAAAAAAAAAAQAAAAAAAAABAw==");
    let plan = services.broadcast(1, &Message::Play(vec![7, 8, 9]));
    assert_eq!(plan.frame(), "AgAAAAMAAAAAAAAABwgJ");
    let plan = services.fan_out(1, String::from("x"));
    assert_eq!(plan.frame(), "x");
    assert_eq!(plan.peers(), &vec![0usize, 2]);
}

#[test]
fn a_failed_send_does_not_stop_the_fan_out() {
    let mut plan = FanOut::new(String::from("text"), vec![4, 5, 6]);
    assert_eq!(plan.next_peer(), Some(4));
    plan.undelivered(BroadcastError::from_transport(String::from("gone")));
    assert_eq!(plan.next_peer(), Some(5));
    plan.delivered();
    assert_eq!(plan.next_peer(), Some(6));
    plan.undelivered(BroadcastError::from(LayoutError::UnexpectedEnd));
    assert_eq!(plan.next_peer(), None);
    let failures = plan.into_failures();
    assert_eq!(failures.len(), 2);
    assert_eq!(failures[0].0, 4);
    assert!(matches!(failures[0].1.kind(), BroadcastErrorKind::Warp(account) if account == "gone"));
    assert_eq!(failures[1].0, 6);
    assert!(matches!(
        failures[1].1.kind(),
        BroadcastErrorKind::Bincode(LayoutError::UnexpectedEnd)
    ));
}

fn active(services: &mut Services<u8>) -> Session {
    let mut session = Session::new();
    session.register(services, 0);
    session
}

#[test]
fn malformed_text_ends_the_session() {
    let mut services: Services<u8> = Services::new();
    let mut session = active(&mut services);
    let step = session.on_frame(&services, Frame::Text(String::from("not base64!")));
    assert!(matches!(
        step,
        Step::Stop(CloseReason::Malformed(ref error))
            if matches!(error.kind(), EncodingErrorKind::Base64(_))
    ));
    assert_eq!(session.current(), SessionState::Closing(0));

    let mut session = active(&mut services);
    let step = session.on_frame(&services, Frame::Text(String::from("CQAAAA==")));
    assert!(matches!(
        step,
        Step::Stop(CloseReason::Malformed(ref error))
            if matches!(error.kind(), EncodingErrorKind::Bincode(LayoutError::UnknownVariant(9)))
    ));
    assert_eq!(session.current(), SessionState::Closing(1));
}

#[test]
fn other_frames_end_the_session() {
    let mut services: Services<u8> = Services::new();
    let mut session = active(&mut services);
    assert!(matches!(
        session.on_frame(&services, Frame::NonText(12)),
        Step::Stop(CloseReason::NonText(12))
    ));
    assert_eq!(session.current(), SessionState::Closing(0));
    let mut session = active(&mut services);
    assert!(matches!(
        session.on_frame(&services, Frame::Failed),
        Step::Stop(CloseReason::ReadFailed)
    ));
    assert_eq!(session.current(), SessionState::Closing(1));
    let mut session = active(&mut services);
    assert!(matches!(
        session.on_frame(&services, Frame::Closed),
        Step::Stop(CloseReason::EndOfStream)
    ));
    assert_eq!(session.current(), SessionState::Closing(2));
}

#[test]
fn closing_deregisters_once() {
    let mut services: Services<u8> = Services::new();
    let mut first = Session::new();
    first.register(&mut services, 10);
    let mut second = Session::new();
    second.register(&mut services, 20);
    first.on_frame(&services, Frame::Closed);
    assert_eq!(first.close(&mut services), Some(10));
    assert_eq!(first.current(), SessionState::Closed);
    assert_eq!(services.peers(usize::MAX), vec![1usize]);

    second.on_frame(&services, Frame::Failed);
    assert_eq!(services.remove_listener(1), Some(20));
    assert_eq!(second.close(&mut services), None);
    assert_eq!(second.current(), SessionState::Closed);
    assert_eq!(services.len(), 0);
}

#[test]
fn on_decoded_dispatches_a_message() {
    let mut services: Services<u8> = Services::new();
    let mut session = active(&mut services);
    let mut other = active(&mut services);
    let step = session.on_decoded(&services, Ok(Message::Rom(vec![5])));
    match step {
        Step::Dispatch(plan) => {
            assert_eq!(plan.peers(), &vec![1usize]);
            assert_eq!(plan.frame(), "AQAAAAEAAAAAAAAABQ==");
        }
        Step::Stop(reason) => panic!("stopped: {:?}", reason),
    }
    assert_eq!(session.current(), SessionState::Active(0));
    let failed = Message::decode_text("?");
    let step = other.on_decoded(&services, failed);
    assert!(matches!(step, Step::Stop(CloseReason::Malformed(_))));
    assert_eq!(other.current(), SessionState::Closing(1));
}
