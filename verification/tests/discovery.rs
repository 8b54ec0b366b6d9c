use godot_lsp_bridge::discovery::{
    ambiguity_message, candidate_ports, choose_port, open_ports, Backoff, PortChoice, Retry, CANDIDATE_PORT_FIRST,
    CANDIDATE_PORT_LAST, DEFAULT_RETRY_TIMEOUT_SECS, INITIAL_BACKOFF_NANOS, MAX_BACKOFF_NANOS,
};

#[test]
fn candidate_ports_range() {
    let ports: Vec<u16> = candidate_ports();
    assert_eq!(ports.first(), Some(&6005));
    assert_eq!(ports.last(), Some(&6014));
    assert_eq!(ports.len(), 10);
}

#[test]
fn candidate_port_constants() {
    assert_eq!(CANDIDATE_PORT_FIRST, 6005);
    assert_eq!(CANDIDATE_PORT_LAST, 6014);
    assert_eq!(DEFAULT_RETRY_TIMEOUT_SECS, 300);
}

#[test]
fn open_ports_keeps_order() {
    let ports = candidate_ports();
    let mut open = vec![false; ports.len()];
    open[1] = true;
    open[7] = true;
    assert_eq!(open_ports(&ports, &open), vec![6006, 6012]);
}

#[test]
fn choose_port_cases() {
    assert_eq!(choose_port(&vec![]), PortChoice::Waiting(6005));
    assert_eq!(choose_port(&vec![6007]), PortChoice::Single(6007));
    assert_eq!(choose_port(&vec![6006, 6009]), PortChoice::Ambiguous(6006));
    assert_eq!(choose_port(&vec![6006, 6009]).port(), 6006);
    assert_eq!(choose_port(&vec![]).port(), 6005);
}

#[test]
fn ambiguity_message_text() {
    assert_eq!(
        ambiguity_message(&vec![6005, 6006]),
        "godot-lsp-bridge: multiple Godot LSP instances detected on ports [6005, 6006].\n\
         Connecting to port 6005 (the lowest-numbered instance).\n\
         Run with --port <N> to connect to a specific instance."
    );
}

#[test]
fn backoff_doubles_and_caps() {
    let mut b = Backoff::new();
    assert_eq!(b.delay_nanos, INITIAL_BACKOFF_NANOS);
    let big: u128 = 1_000_000_000_000;
    assert_eq!(b.on_failure(big), Retry::Wait(500_000_000));
    assert_eq!(b.on_failure(big), Retry::Wait(1_000_000_000));
    assert_eq!(b.on_failure(big), Retry::Wait(2_000_000_000));
    for _ in 0..10 {
        b.on_failure(big);
    }
    assert_eq!(b.delay_nanos, MAX_BACKOFF_NANOS);
    assert_eq!(b.on_failure(big), Retry::Wait(30_000_000_000));
}

#[test]
fn backoff_never_waits_past_deadline() {
    let mut b = Backoff::new();
    assert_eq!(b.on_failure(100), Retry::Wait(100));
    assert_eq!(b.on_failure(0), Retry::GiveUp);
}

#[test]
fn backoff_schedule_closed_form() {
    // The k-th delay is min(500 ms * 2^k, 30 s).
    let mut b = Backoff::new();
    let big: u128 = u128::MAX;
    for k in 0..12u32 {
        let doubled = 500_000_000u64 * 2u64.pow(k);
        let expected = if doubled < 30_000_000_000u64 { doubled } else { 30_000_000_000u64 };
        assert_eq!(b.delay_nanos, expected);
        assert_eq!(b.on_failure(big), Retry::Wait(expected));
    }
}
