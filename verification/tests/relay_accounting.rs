use procy::addr::IpAddress;
use procy::addr::ProxyPair;
use procy::addr::ResolvedAddress;
use procy::relay::dir_is_done;
use procy::relay::dir_on_data;
use procy::relay::dir_on_eof;
use procy::relay::dir_on_error;
use procy::relay::dir_start;
use procy::relay::relay_outcome;
use procy::relay::relay_start;
use procy::relay::relay_step;
use procy::relay::DirEvent;
use procy::relay::RelayEvent;
use procy::supervisor::on_event;
use procy::supervisor::SupervisorAction;
use procy::supervisor::SupervisorEvent;

fn sample_pair() -> ProxyPair {
    ProxyPair {
        listen: ResolvedAddress { ip: IpAddress::V4(0, 0, 0, 0), port: 8080 },
        remote: ResolvedAddress { ip: IpAddress::V4(127, 0, 0, 1), port: 9000 },
        local: None,
    }
}

#[test]
fn relay_counts_both_directions_exactly() {
    // Side A sends 7 bytes (3 + 4) and closes its write half; side B
    // sends 9 bytes (2 + 7) afterwards. The counts are exactly 7 and 9.
    let mut st = relay_start();
    assert!(!relay_step(&mut st, RelayEvent::AToB(DirEvent::Data(3))));
    assert!(!relay_step(&mut st, RelayEvent::BToA(DirEvent::Data(2))));
    assert!(!relay_step(&mut st, RelayEvent::AToB(DirEvent::Data(4))));
    // A's end does not terminate the B-to-A direction: no shutdown yet.
    assert!(!relay_step(&mut st, RelayEvent::AToB(DirEvent::SourceClosed)));
    // B keeps sending after A ended.
    assert!(!relay_step(&mut st, RelayEvent::BToA(DirEvent::Data(7))));
    let shutdown = relay_step(&mut st, RelayEvent::BToA(DirEvent::SourceClosed));
    // Only after both directions ended are the streams shut down.
    assert!(shutdown);
    let out = relay_outcome(&st);
    assert_eq!(out.bytes_a_to_b, 7);
    assert_eq!(out.bytes_b_to_a, 9);
    assert!(!out.io_error);
}

#[test]
fn relay_error_keeps_partial_counts() {
    let mut st = relay_start();
    assert!(!relay_step(&mut st, RelayEvent::AToB(DirEvent::Data(5))));
    assert!(!relay_step(&mut st, RelayEvent::AToB(DirEvent::IoFailed)));
    assert!(!relay_step(&mut st, RelayEvent::BToA(DirEvent::Data(11))));
    assert!(relay_step(&mut st, RelayEvent::BToA(DirEvent::SourceClosed)));
    let out = relay_outcome(&st);
    // The error is reported, the bytes already moved stay accounted.
    assert!(out.io_error);
    assert_eq!(out.bytes_a_to_b, 5);
    assert_eq!(out.bytes_b_to_a, 11);
}

#[test]
fn dir_progress_follows_events() {
    let mut p = dir_start();
    assert!(!dir_is_done(&p));
    dir_on_data(&mut p, 100);
    dir_on_data(&mut p, 23);
    assert_eq!(p.bytes, 123);
    dir_on_eof(&mut p);
    assert!(dir_is_done(&p));
    assert_eq!(p.bytes, 123);

    let mut q = dir_start();
    dir_on_data(&mut q, 42);
    dir_on_error(&mut q);
    assert!(dir_is_done(&q));
    assert_eq!(q.bytes, 42);
}

#[test]
fn connections_are_independent() {
    // Two connections accepted on the same pair: forcing an outbound
    // connect failure on one must not affect byte delivery on the other.
    let pair = sample_pair();

    // Connection one: the outbound connect fails. Only that inbound
    // connection is closed; the listener stays.
    let step = on_event(&pair, SupervisorEvent::OutboundConnectFailed);
    assert_eq!(step.action, SupervisorAction::CloseInbound);
    assert!(step.keep_listening);

    // Connection two relays unaffected, with exact counts.
    let mut st = relay_start();
    relay_step(&mut st, RelayEvent::AToB(DirEvent::Data(10)));
    relay_step(&mut st, RelayEvent::AToB(DirEvent::SourceClosed));
    relay_step(&mut st, RelayEvent::BToA(DirEvent::Data(20)));
    assert!(relay_step(&mut st, RelayEvent::BToA(DirEvent::SourceClosed)));
    let out = relay_outcome(&st);
    assert_eq!(out.bytes_a_to_b, 10);
    assert_eq!(out.bytes_b_to_a, 20);
    assert!(!out.io_error);
}

#[test]
fn accept_failure_keeps_listening() {
    // A single accept failure never terminates the listener.
    let pair = sample_pair();
    let step = on_event(&pair, SupervisorEvent::AcceptFailed);
    assert_eq!(step.action, SupervisorAction::LogAndContinue);
    assert!(step.keep_listening);

    // Every event of the loop keeps the listener alive.
    let events = [
        SupervisorEvent::Accepted,
        SupervisorEvent::AcceptFailed,
        SupervisorEvent::OutboundConnected,
        SupervisorEvent::OutboundConnectFailed,
        SupervisorEvent::RelayFinished,
        SupervisorEvent::RelayFailed,
    ];
    for ev in events {
        assert!(on_event(&pair, ev).keep_listening);
    }
}

#[test]
fn accepted_connection_opens_outbound_to_remote() {
    let pair = sample_pair();
    let step = on_event(&pair, SupervisorEvent::Accepted);
    assert_eq!(
        step.action,
        SupervisorAction::OpenOutbound { remote: pair.remote, local: pair.local }
    );
    let step = on_event(&pair, SupervisorEvent::OutboundConnected);
    assert_eq!(step.action, SupervisorAction::StartRelay);
    let step = on_event(&pair, SupervisorEvent::RelayFinished);
    assert_eq!(step.action, SupervisorAction::LogConnectionClosed);
    let step = on_event(&pair, SupervisorEvent::RelayFailed);
    assert_eq!(step.action, SupervisorAction::LogConnectionFailed);
}
