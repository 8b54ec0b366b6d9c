//! Godot LSP auto-discovery: candidate ports, the choice among open ports, and the
//! connection backoff schedule.
//!
//! - When Godot is not running yet, connection attempts are retried on an exponential
//!   schedule ([`Backoff`]): the first attempt is immediate, then the delay starts at
//!   500 ms and doubles after each failure, capped at 30 s, until the timeout.
//! - When Godot is already running, the first probe succeeds.
//! - When several instances are running, all open candidate ports are reported and
//!   the lowest one is used ([`choose_port`]).
//!
//! Probing and connecting are the caller's; this module decides.

use vstd::prelude::*;
use crate::text::{decimal, push_decimal, push_str};
use vstd::arithmetic::power2::{lemma_pow2_unfold, pow2};

verus! {

/// The first port scanned during auto-discovery (Godot's LSP default).
pub const CANDIDATE_PORT_FIRST: u16 = 6005;

/// The last port scanned during auto-discovery.
pub const CANDIDATE_PORT_LAST: u16 = 6014;

/// Default total time for connection retries before giving up, in seconds.
pub const DEFAULT_RETRY_TIMEOUT_SECS: u64 = 300;

/// The first retry delay, in nanoseconds (500 ms).
pub const INITIAL_BACKOFF_NANOS: u64 = 500_000_000;

/// The largest retry delay, in nanoseconds (30 s).
pub const MAX_BACKOFF_NANOS: u64 = 30_000_000_000;

/// Per-port probe timeout, in milliseconds.
pub const PROBE_TIMEOUT_MILLIS: u64 = 200;

/// The candidate ports, in ascending order: `CANDIDATE_PORT_FIRST..=CANDIDATE_PORT_LAST`.
pub open spec fn spec_candidate_ports() -> Seq<u16> {
    Seq::new(
        (CANDIDATE_PORT_LAST - CANDIDATE_PORT_FIRST + 1) as nat,
        |i: int| (CANDIDATE_PORT_FIRST + i) as u16,
    )
}

/// Ports scanned during auto-discovery, in ascending order.
pub fn candidate_ports() -> (r: Vec<u16>)
    ensures
        r@ == spec_candidate_ports(),
{
    let mut v: Vec<u16> = Vec::new();
    let mut p: u16 = CANDIDATE_PORT_FIRST;
    while p <= CANDIDATE_PORT_LAST
        invariant
            CANDIDATE_PORT_FIRST <= p <= CANDIDATE_PORT_LAST + 1,
            v@ == spec_candidate_ports().take(p - CANDIDATE_PORT_FIRST),
        decreases CANDIDATE_PORT_LAST + 1 - p,
    {
        v.push(p);
        p = p + 1;
        assert(v@ =~= spec_candidate_ports().take(p - CANDIDATE_PORT_FIRST));
    }
    assert(spec_candidate_ports().take(spec_candidate_ports().len() as int) =~= spec_candidate_ports());
    v
}

/// The ports among `ports` whose probe succeeded (`open[i]` for `ports[i]`), in order.
pub open spec fn spec_open_ports(ports: Seq<u16>, open: Seq<bool>) -> Seq<u16>
    decreases ports.len(),
{
    if ports.len() == 0 || open.len() < ports.len() {
        Seq::empty()
    } else {
        let rest = spec_open_ports(ports.drop_last(), open.take(ports.len() - 1));
        if open[ports.len() - 1] {
            rest.push(ports.last())
        } else {
            rest
        }
    }
}

/// Keeps the ports whose probe succeeded, in the order they were probed.
pub fn open_ports(ports: &Vec<u16>, open: &Vec<bool>) -> (r: Vec<u16>)
    requires
        open@.len() == ports@.len(),
    ensures
        r@ == spec_open_ports(ports@, open@),
{
    let mut out: Vec<u16> = Vec::new();
    let mut i: usize = 0;
    while i < ports.len()
        invariant
            i <= ports@.len() == open@.len(),
            out@ == spec_open_ports(ports@.take(i as int), open@.take(i as int)),
        decreases ports.len() - i,
    {
        assert(ports@.take(i + 1).drop_last() =~= ports@.take(i as int));
        assert(open@.take(i + 1).take(i as int) =~= open@.take(i as int));
        if open[i] {
            out.push(ports[i]);
        }
        i = i + 1;
    }
    assert(ports@.take(ports@.len() as int) =~= ports@);
    assert(open@.take(open@.len() as int) =~= open@);
    out
}

/// How the port to connect to was chosen.
#[derive(Debug, Clone, Copy, PartialEq, Eq, Structural)]
pub enum PortChoice {
    /// No candidate port is open: wait for Godot on the default port.
    Waiting(u16),
    /// Exactly one candidate port is open.
    Single(u16),
    /// Several candidate ports are open: the first one is used.
    Ambiguous(u16),
}

/// The choice among the open candidate ports `open`.
pub open spec fn spec_choose_port(open: Seq<u16>) -> PortChoice {
    if open.len() == 0 {
        PortChoice::Waiting(CANDIDATE_PORT_FIRST)
    } else if open.len() == 1 {
        PortChoice::Single(open[0])
    } else {
        PortChoice::Ambiguous(open[0])
    }
}

impl PortChoice {
    /// The port to connect to.
    pub open spec fn spec_port(self) -> u16 {
        match self {
            PortChoice::Waiting(p) => p,
            PortChoice::Single(p) => p,
            PortChoice::Ambiguous(p) => p,
        }
    }

    /// The port to connect to.
    pub fn port(&self) -> (r: u16)
        ensures
            r == self.spec_port(),
    {
        match self {
            PortChoice::Waiting(p) => *p,
            PortChoice::Single(p) => *p,
            PortChoice::Ambiguous(p) => *p,
        }
    }
}

/// Chooses the port to connect to from the open candidate ports (in ascending
/// order): none open — wait on the default port; one — use it; several — use the
/// lowest and report the ambiguity.
pub fn choose_port(open: &Vec<u16>) -> (r: PortChoice)
    ensures
        r == spec_choose_port(open@),
{
    if open.len() == 0 {
        PortChoice::Waiting(CANDIDATE_PORT_FIRST)
    } else if open.len() == 1 {
        PortChoice::Single(open[0])
    } else {
        PortChoice::Ambiguous(open[0])
    }
}

/// The ports, in decimal, separated by `", "`.
pub open spec fn port_list(ports: Seq<u16>) -> Seq<char>
    decreases ports.len(),
{
    if ports.len() == 0 {
        Seq::empty()
    } else if ports.len() == 1 {
        decimal(ports[0] as nat)
    } else {
        port_list(ports.drop_last()) + ", "@ + decimal(ports.last() as nat)
    }
}

/// The message shown when several instances are detected.
pub open spec fn spec_ambiguity_message(ports: Seq<u16>) -> Seq<char> {
    "godot-lsp-bridge: multiple Godot LSP instances detected on ports ["@ + port_list(ports)
        + "].\nConnecting to port "@ + decimal(ports[0] as nat)
        + " (the lowest-numbered instance).\nRun with --port <N> to connect to a specific instance."@
}

/// The message shown on stderr when several Godot instances are detected.
pub fn ambiguity_message(ports: &Vec<u16>) -> (r: String)
    requires
        ports@.len() > 0,
    ensures
        r@ == spec_ambiguity_message(ports@),
{
    let mut s = "godot-lsp-bridge: multiple Godot LSP instances detected on ports [".to_owned();
    let ghost s0 = s@;
    let mut i: usize = 0;
    while i < ports.len()
        invariant
            i <= ports@.len(),
            s@ == s0 + port_list(ports@.take(i as int)),
        decreases ports.len() - i,
    {
        assert(ports@.take(i + 1).drop_last() =~= ports@.take(i as int));
        if i > 0 {
            push_str(&mut s, ", ");
        }
        push_decimal(&mut s, ports[i] as u64);
        i = i + 1;
        assert(s@ =~= s0 + port_list(ports@.take(i as int)));
    }
    assert(ports@.take(ports@.len() as int) =~= ports@);
    push_str(&mut s, "].\nConnecting to port ");
    push_decimal(&mut s, ports[0] as u64);
    push_str(&mut s, " (the lowest-numbered instance).\nRun with --port <N> to connect to a specific instance.");
    s
}

/// The connection retry schedule.
#[derive(Debug, Clone, Copy, PartialEq, Eq, Structural)]
pub struct Backoff {
    /// The delay before the next retry, in nanoseconds.
    pub delay_nanos: u64,
}

/// What to do after a failed connection attempt.
#[derive(Debug, Clone, Copy, PartialEq, Eq, Structural)]
pub enum Retry {
    /// The timeout is reached: give up.
    GiveUp,
    /// Wait this many nanoseconds, then try again.
    Wait(u64),
}

/// The smaller of two numbers.
pub open spec fn min_nat(a: nat, b: nat) -> nat {
    if a <= b {
        a
    } else {
        b
    }
}

impl Backoff {
    /// The schedule is within its bounds.
    pub open spec fn wf(self) -> bool {
        INITIAL_BACKOFF_NANOS <= self.delay_nanos <= MAX_BACKOFF_NANOS
    }

    /// The schedule before the first failure.
    pub open spec fn spec_initial() -> Backoff {
        Backoff { delay_nanos: INITIAL_BACKOFF_NANOS }
    }

    /// The schedule before the first failure.
    pub fn new() -> (r: Backoff)
        ensures
            r.wf(),
            r == Backoff::spec_initial(),
            r.delay_nanos == INITIAL_BACKOFF_NANOS,
    {
        Backoff { delay_nanos: INITIAL_BACKOFF_NANOS }
    }

    /// Decides what follows a failed attempt when `remaining_nanos` are left before the
    /// deadline: give up when none is left, otherwise wait the current delay (no
    /// longer than what is left) and double the delay, up to the cap.
    pub fn on_failure(&mut self, remaining_nanos: u128) -> (r: Retry)
        requires
            old(self).wf(),
        ensures
            final(self).wf(),
            remaining_nanos == 0 ==> r == Retry::GiveUp && *final(self) == *old(self),
            remaining_nanos > 0 ==> r == Retry::Wait(
                min_nat(old(self).delay_nanos as nat, remaining_nanos as nat) as u64,
            ) && final(self).delay_nanos == min_nat(
                (2 * old(self).delay_nanos) as nat,
                MAX_BACKOFF_NANOS as nat,
            ),
    {
        if remaining_nanos == 0 {
            return Retry::GiveUp;
        }
        let wait: u64 = if (self.delay_nanos as u128) <= remaining_nanos {
            self.delay_nanos
        } else {
            remaining_nanos as u64
        };
        let doubled = self.delay_nanos * 2;
        self.delay_nanos = if doubled <= MAX_BACKOFF_NANOS {
            doubled
        } else {
            MAX_BACKOFF_NANOS
        };
        Retry::Wait(wait)
    }
}

/// Each retry waits a positive time, no longer than the time left before the
/// deadline and no longer than 30 s; the delay never shrinks and stays between
/// 500 ms and 30 s.
pub proof fn law_backoff_step(b: Backoff, after: Backoff, remaining: nat, r: Retry)
    requires
        b.wf(),
        remaining > 0,
        r == Retry::Wait(min_nat(b.delay_nanos as nat, remaining) as u64),
        after.delay_nanos == min_nat((2 * b.delay_nanos) as nat, MAX_BACKOFF_NANOS as nat),
    ensures
        r matches Retry::Wait(w) ==> w <= remaining && w <= MAX_BACKOFF_NANOS && w > 0,
        after.wf(),
        b.delay_nanos <= after.delay_nanos,
{
}

/// The delay after `k` failed attempts: 500 ms doubled `k` times, capped at 30 s.
pub open spec fn delay_after(k: nat) -> nat {
    min_nat((INITIAL_BACKOFF_NANOS as nat) * pow2(k), MAX_BACKOFF_NANOS as nat)
}

/// The schedule starts at 500 ms, and each failure moves it from the delay after `k`
/// failures to the delay after `k + 1`: the `k`-th retry waits
/// `min(500 ms · 2^k, 30 s)`, or less when the deadline is nearer.
pub proof fn law_backoff_schedule(b: Backoff, after: Backoff, k: nat)
    requires
        b.delay_nanos == delay_after(k),
        after.delay_nanos == min_nat((2 * b.delay_nanos) as nat, MAX_BACKOFF_NANOS as nat),
    ensures
        Backoff::spec_initial().delay_nanos == delay_after(0),
        after.delay_nanos == delay_after(k + 1),
{
    assert(pow2(0) == 1) by {
        vstd::arithmetic::power2::lemma2_to64();
    }
    lemma_pow2_unfold(k + 1);
    let p = pow2(k);
    assert(pow2(k + 1) == 2 * p);
    assert(INITIAL_BACKOFF_NANOS * (2 * p) == 2 * (INITIAL_BACKOFF_NANOS * p)) by (nonlinear_arith);
}

} // verus!
