//! Process supervision policy: the guardian's settings, the state of each
//! supervised process, the restart back-off, the decisions taken when a
//! process is found dead or a health probe answers, and the start order of
//! processes that depend on one another.

use crate::listing::bytes_lt;
use crate::store::{copy_opt_string, copy_string, opt_view};
use vstd::utf8::encode_utf8;
use std::time::Duration;
use vstd::arithmetic::power2::{lemma2_to64_rest, lemma_pow2_strictly_increases, lemma_pow2_unfold, pow2};
use vstd::prelude::*;

verus! {

/// Seconds between two probe rounds by default.
pub fn default_probe_interval() -> (r: u64)
    ensures
        r == 5,
{
    5
}

/// Seconds a probe may take by default.
pub fn default_probe_timeout() -> (r: u64)
    ensures
        r == 3,
{
    3
}

/// Consecutive failed probes after which a process counts as dead, by default.
pub fn default_failure_threshold() -> (r: u32)
    ensures
        r == 3,
{
    3
}

/// The first restart delay in seconds, by default.
pub fn default_backoff_base() -> (r: u64)
    ensures
        r == 1,
{
    1
}

/// The longest restart delay in seconds, by default.
pub fn default_backoff_max() -> (r: u64)
    ensures
        r == 60,
{
    60
}

/// Failures after which a process is left alone for a while, by default.
pub fn default_cooldown_after() -> (r: u32)
    ensures
        r == 10,
{
    10
}

/// Seconds a process is left alone after too many failures, by default.
pub fn default_cooldown_secs() -> (r: u64)
    ensures
        r == 300,
{
    300
}

/// How the guardian probes and restarts processes.
#[derive(Debug, Clone, Copy, PartialEq, Eq)]
pub struct GuardianSettings {
    pub probe_interval_secs: u64,
    pub probe_timeout_secs: u64,
    pub failure_threshold: u32,
    pub backoff_base_secs: u64,
    pub backoff_max_secs: u64,
    pub cooldown_after_failures: u32,
    pub cooldown_secs: u64,
}

impl Default for GuardianSettings {
    fn default() -> (r: Self)
        ensures
            r.probe_interval_secs == 5,
            r.probe_timeout_secs == 3,
            r.failure_threshold == 3,
            r.backoff_base_secs == 1,
            r.backoff_max_secs == 60,
            r.cooldown_after_failures == 10,
            r.cooldown_secs == 300,
    {
        GuardianSettings {
            probe_interval_secs: default_probe_interval(),
            probe_timeout_secs: default_probe_timeout(),
            failure_threshold: default_failure_threshold(),
            backoff_base_secs: default_backoff_base(),
            backoff_max_secs: default_backoff_max(),
            cooldown_after_failures: default_cooldown_after(),
            cooldown_secs: default_cooldown_secs(),
        }
    }
}

/// How to run one supervised process.
#[derive(Debug, Clone)]
pub struct ProcessConfig {
    pub path: String,
    pub args: Vec<String>,
    /// Environment variables, in name order.
    pub env: Vec<(String, String)>,
    /// Address of the gRPC endpoint the health probe talks to; empty for none.
    pub health_grpc: String,
    /// The process that must be healthy before this one starts.
    pub depends_on: Option<String>,
}

/// The guardian's configuration: its settings and the processes it
/// supervises, in name order.
#[derive(Debug, Clone)]
pub struct GuardianConfig {
    pub guardian: GuardianSettings,
    pub processes: Vec<(String, ProcessConfig)>,
}

/// The life-cycle state of a supervised process.
#[derive(Debug, Clone, Copy, PartialEq, Eq, Structural)]
pub enum ProcessState {
    Starting,
    Running,
    Degraded,
    Dead,
    Cooldown,
}

/// The name of a state.
pub open spec fn state_name(s: ProcessState) -> Seq<char> {
    match s {
        ProcessState::Starting => "starting"@,
        ProcessState::Running => "running"@,
        ProcessState::Degraded => "degraded"@,
        ProcessState::Dead => "dead"@,
        ProcessState::Cooldown => "cooldown"@,
    }
}

impl ProcessState {
    /// The state's name in lower case.
    pub fn as_str(&self) -> (s: &'static str)
        ensures
            s@ == state_name(*self),
    {
        match self {
            ProcessState::Starting => "starting",
            ProcessState::Running => "running",
            ProcessState::Degraded => "degraded",
            ProcessState::Dead => "dead",
            ProcessState::Cooldown => "cooldown",
        }
    }
}

/// What a health probe found.
#[derive(Debug, Clone, PartialEq, Eq)]
pub enum ProbeResult {
    Running,
    Degraded(String),
    Timeout,
    ConnectionRefused,
    ProcessGone,
}

/// 2 to the power `e`, saturated at `u64::MAX`.
pub open spec fn saturating_pow2(e: nat) -> int {
    if e < 64 {
        pow2(e) as int
    } else {
        u64::MAX as int
    }
}

/// The restart delay in seconds after `failures` consecutive failures:
/// `base * 2^(failures - 1)`, each step saturating, and no more than `max`.
pub open spec fn backoff_secs_spec(failures: u32, base: u64, max: u64) -> u64 {
    let e: nat = if failures == 0 { 0 } else { (failures - 1) as nat };
    let product: int = base * saturating_pow2(e);
    let saturated: int = if product > u64::MAX { u64::MAX as int } else { product };
    (if saturated < max { saturated } else { max as int }) as u64
}

/// The restart delay in seconds after `failures` consecutive failures.
pub fn backoff_secs(failures: u32, base_secs: u64, max_secs: u64) -> (s: u64)
    ensures
        s == backoff_secs_spec(failures, base_secs, max_secs),
        failures >= 1 && base_secs * pow2((failures - 1) as nat) <= max_secs ==>
            s == base_secs * pow2((failures - 1) as nat),
        failures == 0 ==> s == (if base_secs < max_secs { base_secs } else { max_secs }),
{
    proof { law_backoff_doubles(failures, base_secs, max_secs); }
    let e: u32 = failures.saturating_sub(1);
    let mut p: u64 = 1;
    let mut k: u32 = 0;
    proof {
        vstd::arithmetic::power2::lemma2_to64();
        lemma2_to64_rest();
    }
    while k < e && k < 63
        invariant
            k <= e,
            k <= 63,
            p == pow2(k as nat),
            pow2(63) == 0x8000000000000000,
        decreases e - k,
    {
        proof {
            lemma_pow2_unfold((k + 1) as nat);
            lemma_pow2_strictly_increases(k as nat, 63);
        }
        p = p * 2;
        k = k + 1;
    }
    if k < e {
        // 2^64 no longer fits: every further power saturates.
        p = u64::MAX;
    }
    assert(p as int == saturating_pow2(e as nat));
    let product: u64 = match base_secs.checked_mul(p) {
        Some(v) => v,
        None => u64::MAX,
    };
    if product < max_secs {
        product
    } else {
        max_secs
    }
}

/// 2 to a power grows with the power, also once saturated.
proof fn lemma_saturating_pow2_monotone(e1: nat, e2: nat)
    requires
        e1 <= e2,
    ensures
        saturating_pow2(e1) <= saturating_pow2(e2),
{
    vstd::arithmetic::power2::lemma2_to64();
    lemma2_to64_rest();
    if e2 < 64 {
        if e1 < e2 {
            lemma_pow2_strictly_increases(e1, e2);
        }
    } else if e1 < 64 {
        if e1 < 63 {
            lemma_pow2_strictly_increases(e1, 63);
        }
    }
}

/// The restart delay never shrinks as failures grow: more consecutive
/// failures wait at least as long.
pub proof fn law_backoff_never_shrinks(f1: u32, f2: u32, base: u64, max: u64)
    requires
        f1 <= f2,
    ensures
        backoff_secs_spec(f1, base, max) <= backoff_secs_spec(f2, base, max),
{
    let e1: nat = if f1 == 0 { 0 } else { (f1 - 1) as nat };
    let e2: nat = if f2 == 0 { 0 } else { (f2 - 1) as nat };
    lemma_saturating_pow2_monotone(e1, e2);
    let (p1, p2) = (saturating_pow2(e1), saturating_pow2(e2));
    assert(base * p1 <= base * p2) by (nonlinear_arith)
        requires
            p1 <= p2,
            0 <= base,
    ;
}

/// Below 64 the saturating power of two is the power of two itself: no
/// exponent that fits in a `u64` is cut short.
pub proof fn law_saturating_pow2_exact(e: nat)
    requires
        e < 64,
    ensures
        saturating_pow2(e) == pow2(e),
{
}

/// The delay doubles with each failure: after `failures >= 1` failures, when
/// `base * 2^(failures - 1)` is no more than `max`, the delay is exactly
/// that many seconds; with no failure yet it is `base`, capped at `max`.
pub proof fn law_backoff_doubles(failures: u32, base: u64, max: u64)
    ensures
        failures >= 1 && base * pow2((failures - 1) as nat) <= max ==>
            backoff_secs_spec(failures, base, max) == base * pow2((failures - 1) as nat),
        failures == 0 ==> backoff_secs_spec(failures, base, max) == (if base < max { base } else { max }),
{
    vstd::arithmetic::power2::lemma2_to64();
    lemma2_to64_rest();
    if failures >= 1 {
        let e: nat = (failures - 1) as nat;
        if e >= 64 {
            if 64 < e {
                lemma_pow2_strictly_increases(64, e);
            }
            let p = pow2(e);
            assert(p >= 0x10000000000000000);
            if base >= 1 {
                assert(base * p >= p) by (nonlinear_arith)
                    requires
                        base >= 1,
                        p >= 0,
                ;
            } else {
                assert(base * p == 0);
                assert(base * saturating_pow2(e) == 0);
            }
        }
    } else {
        assert(saturating_pow2(0) == 1);
        assert(base * saturating_pow2(0) == base);
    }
}

/// The `Duration` of `secs` whole seconds, as `Duration::from_secs` makes it.
pub uninterp spec fn duration_of_secs(secs: u64) -> Duration;

/// `Duration::from_secs`: the duration of `secs` whole seconds. Its value is
/// named by `duration_of_secs`.
#[verifier::external_body]
fn duration_from_secs(secs: u64) -> (d: Duration)
    ensures
        d == duration_of_secs(secs),
{
    Duration::from_secs(secs)
}

/// The restart delay after `failures` consecutive failures:
/// `base_secs * 2^(failures - 1)` seconds, saturating, capped at `max_secs`.
pub fn backoff_delay(failures: u32, base_secs: u64, max_secs: u64) -> (d: Duration)
    ensures
        d == duration_of_secs(backoff_secs_spec(failures, base_secs, max_secs)),
{
    duration_from_secs(backoff_secs(failures, base_secs, max_secs))
}

/// A supervised process as the policy sees it. Times are milliseconds on
/// the guardian's monotonic clock; the child process itself is held by the
/// caller, which starts and stops it as the decisions below say.
#[derive(Debug, Clone)]
pub struct GuardedProcess {
    pub name: String,
    pub config: ProcessConfig,
    pub pid: Option<u32>,
    pub state: ProcessState,
    pub failures: u32,
    pub last_failure_ms: Option<u64>,
    pub cooldown_until_ms: Option<u64>,
}

/// Whether `p` is still cooling down at `now`.
pub open spec fn in_cooldown(p: GuardedProcess, now: u64) -> bool {
    p.cooldown_until_ms matches Some(until) && now < until
}

/// The process after the dead-process decision at `now`: still cooling
/// down, it is marked so; with too many failures, a cool-down of
/// `cooldown_secs` starts; otherwise its child is to be killed.
pub open spec fn after_dead(p: GuardedProcess, settings: GuardianSettings, now: u64) -> GuardedProcess {
    if in_cooldown(p, now) {
        GuardedProcess { state: ProcessState::Cooldown, ..p }
    } else if p.failures >= settings.cooldown_after_failures {
        GuardedProcess {
            state: ProcessState::Cooldown,
            cooldown_until_ms: Some((now + settings.cooldown_secs * 1000) as u64),
            ..p
        }
    } else {
        GuardedProcess { pid: None, ..p }
    }
}

/// Whether the dead-process decision at `now` starts a cool-down, and so
/// computes its end `now + cooldown_secs * 1000`.
pub open spec fn starts_cooldown(p: GuardedProcess, settings: GuardianSettings, now: u64) -> bool {
    !in_cooldown(p, now) && p.failures >= settings.cooldown_after_failures
}

/// The end of a cool-down started at `now` fits the clock, where one starts.
pub open spec fn cooldown_end_fits(p: GuardedProcess, settings: GuardianSettings, now: u64) -> bool {
    starts_cooldown(p, settings, now) ==> now + settings.cooldown_secs * 1000 <= u64::MAX
}

/// The wait before a restart that the dead-process decision asks for, or
/// `None` when the process is not to be restarted now.
pub open spec fn dead_delay(p: GuardedProcess, settings: GuardianSettings, now: u64) -> Option<Duration> {
    if in_cooldown(p, now) || p.failures >= settings.cooldown_after_failures {
        None
    } else {
        Some(duration_of_secs(backoff_secs_spec(p.failures, settings.backoff_base_secs, settings.backoff_max_secs)))
    }
}

/// The failure count after one more failure, saturating.
pub open spec fn one_more(failures: u32) -> u32 {
    if failures == u32::MAX { failures } else { (failures + 1) as u32 }
}

impl GuardedProcess {
    /// A process not yet started.
    pub fn new(name: String, config: ProcessConfig) -> (p: Self)
        ensures
            p.name == name,
            p.config == config,
            p.pid is None,
            p.state == ProcessState::Starting,
            p.failures == 0,
            p.last_failure_ms is None,
            p.cooldown_until_ms is None,
    {
        GuardedProcess {
            name,
            config,
            pid: None,
            state: ProcessState::Starting,
            failures: 0,
            last_failure_ms: None,
            cooldown_until_ms: None,
        }
    }

    /// Whether the process is cooling down at `now_ms`.
    pub fn is_in_cooldown(&self, now_ms: u64) -> (r: bool)
        ensures
            r == in_cooldown(*self, now_ms),
    {
        match self.cooldown_until_ms {
            Some(until) => now_ms < until,
            None => false,
        }
    }

    /// Records that the process was started with `pid`: it is starting
    /// again and its failure count is cleared.
    pub fn mark_spawned(&mut self, pid: u32)
        ensures
            *final(self) == (GuardedProcess { pid: Some(pid), state: ProcessState::Starting, failures: 0, ..*old(self) }),
    {
        self.pid = Some(pid);
        self.state = ProcessState::Starting;
        self.failures = 0;
    }

    /// Records that the process's child is gone.
    pub fn mark_stopped(&mut self)
        ensures
            *final(self) == (GuardedProcess { pid: None, ..*old(self) }),
    {
        self.pid = None;
    }
}

/// Decides what to do with a process found dead at `now_ms`. Still cooling
/// down, it stays so and `None` is returned; after `cooldown_after_failures`
/// failures a cool-down starts and `None` is returned; otherwise the caller
/// kills its child and restarts it after the back-off delay returned.
pub fn handle_dead(proc: &mut GuardedProcess, settings: &GuardianSettings, now_ms: u64) -> (r: Option<Duration>)
    requires
        cooldown_end_fits(*old(proc), *settings, now_ms),
    ensures
        *final(proc) == after_dead(*old(proc), *settings, now_ms),
        r == dead_delay(*old(proc), *settings, now_ms),
{
    if proc.is_in_cooldown(now_ms) {
        proc.state = ProcessState::Cooldown;
        return None;
    }
    if proc.failures >= settings.cooldown_after_failures {
        proc.cooldown_until_ms = Some(now_ms + settings.cooldown_secs * 1000);
        proc.state = ProcessState::Cooldown;
        return None;
    }
    proc.mark_stopped();
    Some(backoff_delay(proc.failures, settings.backoff_base_secs, settings.backoff_max_secs))
}

/// A probe round on a cooling-down process: once the cool-down is over it
/// is cleared with the failure count, and `true` asks the caller to start
/// the process again; before that nothing changes.
pub fn cooldown_round(proc: &mut GuardedProcess, now_ms: u64) -> (respawn: bool)
    ensures
        respawn == !in_cooldown(*old(proc), now_ms),
        respawn ==> *final(proc) == (GuardedProcess { cooldown_until_ms: None, failures: 0, ..*old(proc) }),
        !respawn ==> *final(proc) == *old(proc),
{
    if proc.is_in_cooldown(now_ms) {
        false
    } else {
        proc.cooldown_until_ms = None;
        proc.failures = 0;
        true
    }
}

/// A probe round that found the process's pid gone: it is dead, with one
/// more failure at `now_ms`, and the dead-process decision is taken.
pub fn process_gone(proc: &mut GuardedProcess, settings: &GuardianSettings, now_ms: u64) -> (r: Option<Duration>)
    requires
        cooldown_end_fits(GuardedProcess {
            state: ProcessState::Dead,
            failures: one_more(old(proc).failures),
            last_failure_ms: Some(now_ms),
            ..*old(proc)
        }, *settings, now_ms),
    ensures
        ({
            let dead = GuardedProcess {
                state: ProcessState::Dead,
                failures: one_more(old(proc).failures),
                last_failure_ms: Some(now_ms),
                ..*old(proc)
            };
            &&& *final(proc) == after_dead(dead, *settings, now_ms)
            &&& r == dead_delay(dead, *settings, now_ms)
        }),
{
    proc.state = ProcessState::Dead;
    proc.failures = proc.failures.saturating_add(1);
    proc.last_failure_ms = Some(now_ms);
    handle_dead(proc, settings, now_ms)
}

/// The process after a probe answered `result` at `now_ms`, before any
/// dead-process decision: a healthy answer clears the failures; a failed
/// one counts one more failure at `now_ms` and marks the process dead once
/// `failure_threshold` is reached, degraded before; a vanished process is
/// dead with one more failure.
pub open spec fn after_probe(p: GuardedProcess, result: ProbeResult, settings: GuardianSettings, now: u64) -> GuardedProcess {
    match result {
        ProbeResult::Running => GuardedProcess { state: ProcessState::Running, failures: 0, ..p },
        ProbeResult::ProcessGone => GuardedProcess { state: ProcessState::Dead, failures: one_more(p.failures), ..p },
        _ => {
            let f = one_more(p.failures);
            GuardedProcess {
                state: if f >= settings.failure_threshold { ProcessState::Dead } else { ProcessState::Degraded },
                failures: f,
                last_failure_ms: Some(now),
                ..p
            }
        },
    }
}

/// Takes in a probe's answer: the process becomes `after_probe(..)`; when
/// that leaves it dead, the dead-process decision follows and its delay is
/// returned, otherwise `None`.
pub fn on_probe(proc: &mut GuardedProcess, result: &ProbeResult, settings: &GuardianSettings, now_ms: u64) -> (r: Option<Duration>)
    requires
        after_probe(*old(proc), *result, *settings, now_ms).state == ProcessState::Dead
            ==> cooldown_end_fits(after_probe(*old(proc), *result, *settings, now_ms), *settings, now_ms),
    ensures
        ({
            let probed = after_probe(*old(proc), *result, *settings, now_ms);
            if probed.state == ProcessState::Dead {
                &&& *final(proc) == after_dead(probed, *settings, now_ms)
                &&& r == dead_delay(probed, *settings, now_ms)
            } else {
                &&& *final(proc) == probed
                &&& r is None
            }
        }),
{
    match result {
        ProbeResult::Running => {
            proc.state = ProcessState::Running;
            proc.failures = 0;
            None
        },
        ProbeResult::ProcessGone => {
            proc.state = ProcessState::Dead;
            proc.failures = proc.failures.saturating_add(1);
            handle_dead(proc, settings, now_ms)
        },
        _ => {
            proc.failures = proc.failures.saturating_add(1);
            proc.last_failure_ms = Some(now_ms);
            if proc.failures >= settings.failure_threshold {
                proc.state = ProcessState::Dead;
                handle_dead(proc, settings, now_ms)
            } else {
                proc.state = ProcessState::Degraded;
                None
            }
        },
    }
}

/// A process as the start order sees it: its name and the name of the
/// process it depends on.
pub open spec fn start_entry(p: (String, ProcessConfig)) -> (Seq<char>, Option<Seq<char>>) {
    (p.0@, opt_view(p.1.depends_on))
}

/// The start-order entries of `ps`, in order.
pub open spec fn start_entries(ps: Seq<(String, ProcessConfig)>) -> Seq<(Seq<char>, Option<Seq<char>>)> {
    ps.map_values(|p: (String, ProcessConfig)| start_entry(p))
}

/// Whether an entry can start once the processes in `placed` have: it
/// depends on nothing, or on one of them.
pub open spec fn entry_ready(e: (Seq<char>, Option<Seq<char>>), placed: Seq<Seq<char>>) -> bool {
    match e.1 {
        None => true,
        Some(d) => placed.contains(d),
    }
}

/// The names of the entries of `rem` that are ready, in order.
pub open spec fn ready_names(rem: Seq<(Seq<char>, Option<Seq<char>>)>, placed: Seq<Seq<char>>) -> Seq<Seq<char>>
    decreases rem.len(),
{
    if rem.len() == 0 {
        Seq::empty()
    } else if entry_ready(rem.last(), placed) {
        ready_names(rem.drop_last(), placed).push(rem.last().0)
    } else {
        ready_names(rem.drop_last(), placed)
    }
}

/// The entries of `rem` that are not ready yet, in order.
pub open spec fn waiting(rem: Seq<(Seq<char>, Option<Seq<char>>)>, placed: Seq<Seq<char>>) -> Seq<(Seq<char>, Option<Seq<char>>)>
    decreases rem.len(),
{
    if rem.len() == 0 {
        Seq::empty()
    } else if entry_ready(rem.last(), placed) {
        waiting(rem.drop_last(), placed)
    } else {
        waiting(rem.drop_last(), placed).push(rem.last())
    }
}

/// Ready and waiting entries together are all of them.
pub proof fn lemma_ready_waiting_len(rem: Seq<(Seq<char>, Option<Seq<char>>)>, placed: Seq<Seq<char>>)
    ensures
        ready_names(rem, placed).len() + waiting(rem, placed).len() == rem.len(),
    decreases rem.len(),
{
    if rem.len() > 0 {
        lemma_ready_waiting_len(rem.drop_last(), placed);
    }
}

/// The names of the entries, in order.
pub open spec fn entry_names(rem: Seq<(Seq<char>, Option<Seq<char>>)>) -> Seq<Seq<char>> {
    rem.map_values(|e: (Seq<char>, Option<Seq<char>>)| e.0)
}

/// The start order that continues `placed` with the entries `rem`: in
/// rounds, every entry that is ready after the earlier rounds, in the
/// entries' order; when no entry is ready (a dependency cycle, or a
/// dependency on a process that is not configured), all the rest in their
/// order.
pub open spec fn start_order_from(rem: Seq<(Seq<char>, Option<Seq<char>>)>, placed: Seq<Seq<char>>) -> Seq<Seq<char>>
    decreases rem.len(),
{
    if rem.len() == 0 {
        placed
    } else if ready_names(rem, placed).len() == 0 {
        placed + entry_names(rem)
    } else {
        proof {
            lemma_ready_waiting_len(rem, placed);
        }
        start_order_from(waiting(rem, placed), placed + ready_names(rem, placed))
    }
}

/// The entries that never become ready after `placed` (a dependency cycle,
/// or a dependency on a process that is not configured): the names that
/// `start_order_from` appends after its last round.
pub open spec fn leftover(rem: Seq<(Seq<char>, Option<Seq<char>>)>, placed: Seq<Seq<char>>) -> Seq<Seq<char>>
    decreases rem.len(),
{
    if rem.len() == 0 {
        Seq::empty()
    } else if ready_names(rem, placed).len() == 0 {
        entry_names(rem)
    } else {
        proof {
            lemma_ready_waiting_len(rem, placed);
        }
        leftover(waiting(rem, placed), placed + ready_names(rem, placed))
    }
}

/// Names strictly ascending in `String` order (byte-wise on UTF-8), as the
/// keys of a `BTreeMap` come.
pub open spec fn strictly_ascending(names: Seq<Seq<char>>) -> bool {
    forall|i: int, j: int| 0 <= i < j < names.len() ==> bytes_lt(encode_utf8(#[trigger] names[i]), encode_utf8(#[trigger] names[j]))
}

/// Waiting entries are entries of `rem`, kept in their order: ascending
/// names stay ascending.
proof fn lemma_waiting_ascending(rem: Seq<(Seq<char>, Option<Seq<char>>)>, placed: Seq<Seq<char>>)
    requires
        strictly_ascending(entry_names(rem)),
    ensures
        strictly_ascending(entry_names(waiting(rem, placed))),
        forall|i: int| 0 <= i < waiting(rem, placed).len() ==>
            exists|j: int| 0 <= j < rem.len() && #[trigger] waiting(rem, placed)[i] == rem[j],
    decreases rem.len(),
{
    if rem.len() > 0 {
        let r0 = rem.drop_last();
        assert(entry_names(r0) =~= entry_names(rem).drop_last());
        lemma_waiting_ascending(r0, placed);
        let w0 = waiting(r0, placed);
        assert forall|i: int| 0 <= i < w0.len() implies exists|j: int| 0 <= j < rem.len() && #[trigger] w0[i] == rem[j] by {
            let j = choose|j: int| 0 <= j < r0.len() && w0[i] == r0[j];
            assert(rem[j] == r0[j]);
        }
        if !entry_ready(rem.last(), placed) {
            let w = w0.push(rem.last());
            assert(waiting(rem, placed) == w);
            assert forall|i: int| 0 <= i < w.len() implies exists|j: int| 0 <= j < rem.len() && #[trigger] w[i] == rem[j] by {
                if i < w0.len() {
                    assert(w[i] == w0[i]);
                } else {
                    assert(w[i] == rem[rem.len() - 1]);
                }
            }
            assert forall|a: int, b: int| 0 <= a < b < entry_names(w).len() implies
                bytes_lt(encode_utf8(#[trigger] entry_names(w)[a]), encode_utf8(#[trigger] entry_names(w)[b])) by {
                if b < w0.len() {
                    assert(entry_names(w)[a] == entry_names(w0)[a]);
                    assert(entry_names(w)[b] == entry_names(w0)[b]);
                } else {
                    assert(w[a] == w0[a]);
                    let j = choose|j: int| 0 <= j < r0.len() && w0[a] == r0[j];
                    assert(entry_names(rem)[j] == w0[a].0);
                    assert(entry_names(rem)[rem.len() - 1] == rem.last().0);
                    assert(entry_names(w)[b] == rem.last().0);
                }
            }
        }
    }
}

/// The names left over after the rounds are strictly ascending when the
/// entries' names are.
proof fn lemma_leftover_ascending(rem: Seq<(Seq<char>, Option<Seq<char>>)>, placed: Seq<Seq<char>>)
    requires
        strictly_ascending(entry_names(rem)),
    ensures
        strictly_ascending(leftover(rem, placed)),
    decreases rem.len(),
{
    if rem.len() > 0 && ready_names(rem, placed).len() > 0 {
        lemma_ready_waiting_len(rem, placed);
        lemma_waiting_ascending(rem, placed);
        lemma_leftover_ascending(waiting(rem, placed), placed + ready_names(rem, placed));
    }
}

/// The start order ends with the left-over names.
proof fn lemma_order_ends_with_leftover(rem: Seq<(Seq<char>, Option<Seq<char>>)>, placed: Seq<Seq<char>>)
    ensures
        start_order_from(rem, placed).len() >= leftover(rem, placed).len(),
        start_order_from(rem, placed).skip(start_order_from(rem, placed).len() - leftover(rem, placed).len())
            == leftover(rem, placed),
    decreases rem.len(),
{
    if rem.len() == 0 {
        assert(placed.skip(placed.len() as int) =~= Seq::<Seq<char>>::empty());
    } else if ready_names(rem, placed).len() == 0 {
        let r = placed + entry_names(rem);
        assert(r.skip(r.len() - entry_names(rem).len()) =~= entry_names(rem));
    } else {
        lemma_ready_waiting_len(rem, placed);
        lemma_order_ends_with_leftover(waiting(rem, placed), placed + ready_names(rem, placed));
    }
}

/// Processes whose dependencies never start (a cycle, or a process that is
/// not configured) are started last, after every round, and in ascending
/// name order when the names come in ascending order, as a map's keys do.
pub proof fn law_leftovers_come_last_in_name_order(ps: Seq<(String, ProcessConfig)>)
    ensures
        start_order(ps).len() >= leftover(start_entries(ps), Seq::empty()).len(),
        start_order(ps).skip(start_order(ps).len() - leftover(start_entries(ps), Seq::empty()).len())
            == leftover(start_entries(ps), Seq::empty()),
        strictly_ascending(entry_names(start_entries(ps))) ==> strictly_ascending(leftover(start_entries(ps), Seq::empty())),
{
    lemma_order_ends_with_leftover(start_entries(ps), Seq::empty());
    if strictly_ascending(entry_names(start_entries(ps))) {
        lemma_leftover_ascending(start_entries(ps), Seq::empty());
    }
}

/// The order in which the processes `ps` are started.
pub open spec fn start_order(ps: Seq<(String, ProcessConfig)>) -> Seq<Seq<char>> {
    start_order_from(start_entries(ps), Seq::empty())
}

/// The views of a list of names.
pub open spec fn name_views(v: Seq<String>) -> Seq<Seq<char>> {
    v.map_values(|s: String| s@)
}

fn contains_name(placed: &Vec<String>, name: &String) -> (r: bool)
    ensures
        r == name_views(placed@).contains(name@),
{
    let mut i: usize = 0;
    while i < placed.len()
        invariant
            i <= placed@.len(),
            forall|j: int| 0 <= j < i ==> placed@[j]@ != name@,
        decreases placed@.len() - i,
    {
        if crate::text::str_eq(placed[i].as_str(), name.as_str()) {
            assert(name_views(placed@)[i as int] == name@);
            return true;
        }
        i = i + 1;
    }
    assert(!name_views(placed@).contains(name@)) by {
        if name_views(placed@).contains(name@) {
            let j = choose|j: int| 0 <= j < name_views(placed@).len() && name_views(placed@)[j] == name@;
            assert(placed@[j]@ == name@);
        }
    }
    false
}

/// The views of the entries of a remaining list.
pub open spec fn pending_views(v: Seq<(String, Option<String>)>) -> Seq<(Seq<char>, Option<Seq<char>>)> {
    v.map_values(|e: (String, Option<String>)| (e.0@, opt_view(e.1)))
}

/// The order in which the processes are started: a process comes after the
/// process it depends on. Processes are taken in rounds, each round every
/// process whose dependency has started in an earlier round, in the order
/// given; when a round finds none ready (a dependency cycle or a dependency
/// that is not configured) the rest follow last, in the order given. Given
/// in ascending name order, as a map's keys come, those left over come in
/// ascending name order.
pub fn topological_sort(processes: &Vec<(String, ProcessConfig)>) -> (r: Vec<String>)
    ensures
        name_views(r@) == start_order(processes@),
        ({
            let left = leftover(start_entries(processes@), Seq::empty());
            &&& name_views(r@).len() >= left.len()
            &&& name_views(r@).skip(name_views(r@).len() - left.len()) == left
            &&& strictly_ascending(entry_names(start_entries(processes@))) ==> strictly_ascending(left)
        }),
{
    let r = start_order_names(processes);
    proof { law_leftovers_come_last_in_name_order(processes@); }
    r
}

/// The names of `processes` in start order; see `start_order`.
fn start_order_names(processes: &Vec<(String, ProcessConfig)>) -> (r: Vec<String>)
    ensures
        name_views(r@) == start_order(processes@),
{
    let mut remaining: Vec<(String, Option<String>)> = Vec::new();
    let mut i: usize = 0;
    while i < processes.len()
        invariant
            i <= processes@.len(),
            pending_views(remaining@) == start_entries(processes@).take(i as int),
        decreases processes@.len() - i,
    {
        let e = (copy_string(&processes[i].0), copy_opt_string(&processes[i].1.depends_on));
        let ghost old_remaining = remaining@;
        remaining.push(e);
        assert(pending_views(remaining@) =~= pending_views(old_remaining).push(start_entry(processes@[i as int])));
        assert(pending_views(remaining@)[i as int] == start_entries(processes@)[i as int]);
        assert(pending_views(remaining@) =~= start_entries(processes@).take(i + 1));
        i = i + 1;
    }
    assert(start_entries(processes@).take(i as int) =~= start_entries(processes@));
    let mut ordered: Vec<String> = Vec::new();
    assert(name_views(ordered@) =~= Seq::<Seq<char>>::empty());
    while remaining.len() > 0
        invariant
            start_order_from(pending_views(remaining@), name_views(ordered@)) == start_order(processes@),
        decreases remaining@.len(),
    {
        let ghost rem = pending_views(remaining@);
        let ghost placed = name_views(ordered@);
        let mut ready: Vec<String> = Vec::new();
        let mut rest: Vec<(String, Option<String>)> = Vec::new();
        let mut k: usize = 0;
        assert(rem.take(0) =~= Seq::<(Seq<char>, Option<Seq<char>>)>::empty());
        while k < remaining.len()
            invariant
                rem == pending_views(remaining@),
                placed == name_views(ordered@),
                k <= remaining@.len(),
                name_views(ready@) == ready_names(rem.take(k as int), placed),
                pending_views(rest@) == waiting(rem.take(k as int), placed),
            decreases remaining@.len() - k,
        {
            assert(rem.take(k + 1).drop_last() =~= rem.take(k as int));
            assert(rem.take(k + 1).last() == rem[k as int]);
            let is_ready = match &remaining[k].1 {
                None => true,
                Some(d) => contains_name(&ordered, d),
            };
            if is_ready {
                let ghost prev = ready@;
                ready.push(copy_string(&remaining[k].0));
                assert(name_views(ready@) =~= name_views(prev).push(rem[k as int].0));
                assert(name_views(ready@) =~= ready_names(rem.take(k as int), placed).push(rem[k as int].0));
            } else {
                let ghost prev = rest@;
                rest.push((copy_string(&remaining[k].0), copy_opt_string(&remaining[k].1)));
                assert(pending_views(rest@) =~= pending_views(prev).push(rem[k as int]));
                assert(pending_views(rest@) =~= waiting(rem.take(k as int), placed).push(rem[k as int]));
            }
            k = k + 1;
        }
        assert(rem.take(k as int) =~= rem);
        proof {
            lemma_ready_waiting_len(rem, placed);
        }
        if ready.len() == 0 {
            let mut j: usize = 0;
            let ghost base = name_views(ordered@);
            while j < remaining.len()
                invariant
                    rem == pending_views(remaining@),
                    j <= remaining@.len(),
                    name_views(ordered@) == base + entry_names(rem.take(j as int)),
                decreases remaining@.len() - j,
            {
                let ghost prev = ordered@;
                ordered.push(copy_string(&remaining[j].0));
                assert(name_views(ordered@) =~= name_views(prev).push(rem[j as int].0));
                assert(entry_names(rem.take(j + 1)) =~= entry_names(rem.take(j as int)).push(rem[j as int].0));
                assert(name_views(ordered@) =~= base + entry_names(rem.take(j + 1)));
                j = j + 1;
            }
            assert(rem.take(j as int) =~= rem);
            return ordered;
        }
        let mut j: usize = 0;
        let ghost base = name_views(ordered@);
        while j < ready.len()
            invariant
                j <= ready@.len(),
                name_views(ordered@) == base + name_views(ready@).take(j as int),
            decreases ready@.len() - j,
        {
            let ghost prev = ordered@;
            ordered.push(copy_string(&ready[j]));
            assert(name_views(ordered@) =~= name_views(prev).push(ready@[j as int]@));
            assert(name_views(ready@).take(j + 1) =~= name_views(ready@).take(j as int).push(ready@[j as int]@));
            assert(name_views(ordered@) =~= base + name_views(ready@).take(j + 1));
            j = j + 1;
        }
        assert(name_views(ready@).take(j as int) =~= name_views(ready@));
        remaining = rest;
    }
    assert(pending_views(remaining@) =~= Seq::<(Seq<char>, Option<Seq<char>>)>::empty());
    ordered
}

/// Whether a process named `name` is supervised under `role`: "master"
/// keeps only the process named master, "worker" all the others, and any
/// other role, or none, keeps every process.
pub open spec fn role_keeps(role: Option<Seq<char>>, name: Seq<char>) -> bool {
    match role {
        Some(r) => if r == "master"@ {
            name == "master"@
        } else if r == "worker"@ {
            name != "master"@
        } else {
            true
        },
        None => true,
    }
}

/// The processes `ps` that `role` keeps, in order.
pub open spec fn selected(ps: Seq<(String, ProcessConfig)>, role: Option<Seq<char>>) -> Seq<(String, ProcessConfig)>
    decreases ps.len(),
{
    if ps.len() == 0 {
        Seq::empty()
    } else if role_keeps(role, ps.last().0@) {
        selected(ps.drop_last(), role).push(ps.last())
    } else {
        selected(ps.drop_last(), role)
    }
}

/// The processes to supervise under `--role`: see `role_keeps`.
pub fn select_processes(processes: Vec<(String, ProcessConfig)>, role: Option<&str>) -> (r: Vec<(String, ProcessConfig)>)
    ensures
        r@ == selected(processes@, match role {
            Some(x) => Some(x@),
            None => None,
        }),
{
    let ghost rv: Option<Seq<char>> = match role {
        Some(x) => Some(x@),
        None => None,
    };
    proof {
        reveal_strlit("master");
        reveal_strlit("worker");
    }
    let ghost ps = processes@;
    let mut source = processes;
    let mut out: Vec<(String, ProcessConfig)> = Vec::new();
    let mut n: usize = 0;
    let total = source.len();
    assert(ps.take(0) =~= Seq::<(String, ProcessConfig)>::empty());
    while n < total
        invariant
            total == ps.len(),
            n <= total,
            source@ == ps.skip(n as int),
            out@ == selected(ps.take(n as int), rv),
            rv == (match role {
                Some(x) => Some(x@),
                None => None,
            }),
        decreases total - n,
    {
        assert(ps.skip(n as int)[0] == ps[n as int]);
        let p = source.remove(0);
        assert(source@ =~= ps.skip(n + 1));
        assert(ps.take(n + 1).drop_last() =~= ps.take(n as int));
        assert(ps.take(n + 1).last() == ps[n as int]);
        let keep = match role {
            Some(r) => if crate::text::str_eq(r, "master") {
                crate::text::str_eq(p.0.as_str(), "master")
            } else if crate::text::str_eq(r, "worker") {
                !crate::text::str_eq(p.0.as_str(), "master")
            } else {
                true
            },
            None => true,
        };
        assert(keep == role_keeps(rv, p.0@));
        if keep {
            out.push(p);
        }
        n = n + 1;
    }
    assert(ps.take(n as int) =~= ps);
    out
}

/// The names of the processes `ps`, in order.
pub open spec fn process_names(ps: Seq<(String, ProcessConfig)>) -> Seq<Seq<char>> {
    ps.map_values(|p: (String, ProcessConfig)| p.0@)
}

/// A round splits the remaining entries: its ready names and the names
/// still waiting are, together, the names of all of them.
proof fn lemma_round_partition(rem: Seq<(Seq<char>, Option<Seq<char>>)>, placed: Seq<Seq<char>>)
    ensures
        ready_names(rem, placed).to_multiset().add(entry_names(waiting(rem, placed)).to_multiset())
            =~= entry_names(rem).to_multiset(),
    decreases rem.len(),
{
    broadcast use vstd::seq_lib::group_to_multiset_ensures, vstd::multiset::group_multiset_axioms;
    if rem.len() == 0 {
        assert(entry_names(rem) =~= Seq::<Seq<char>>::empty());
        assert(entry_names(waiting(rem, placed)) =~= Seq::<Seq<char>>::empty());
    } else {
        let init = rem.drop_last();
        lemma_round_partition(init, placed);
        assert(entry_names(rem) =~= entry_names(init).push(rem.last().0));
        if entry_ready(rem.last(), placed) {
            assert(waiting(rem, placed) == waiting(init, placed));
        } else {
            assert(entry_names(waiting(rem, placed)) =~= entry_names(waiting(init, placed)).push(rem.last().0));
        }
    }
}

/// The start order continuing `placed` holds `placed` and the names of the
/// remaining entries, each as often as before.
proof fn lemma_start_order_from_names(rem: Seq<(Seq<char>, Option<Seq<char>>)>, placed: Seq<Seq<char>>)
    ensures
        start_order_from(rem, placed).to_multiset() =~= placed.to_multiset().add(entry_names(rem).to_multiset()),
    decreases rem.len(),
{
    broadcast use vstd::seq_lib::group_to_multiset_ensures, vstd::multiset::group_multiset_axioms;
    if rem.len() == 0 {
        assert(entry_names(rem) =~= Seq::<Seq<char>>::empty());
    } else if ready_names(rem, placed).len() == 0 {
        vstd::seq_lib::lemma_multiset_commutative(placed, entry_names(rem));
    } else {
        lemma_ready_waiting_len(rem, placed);
        let ready = ready_names(rem, placed);
        lemma_start_order_from_names(waiting(rem, placed), placed + ready);
        vstd::seq_lib::lemma_multiset_commutative(placed, ready);
        lemma_round_partition(rem, placed);
    }
}

/// Every configured process is started exactly once: the start order holds
/// each process name as often as the configuration does.
pub proof fn law_each_process_starts_once(ps: Seq<(String, ProcessConfig)>)
    ensures
        start_order(ps).to_multiset() =~= process_names(ps).to_multiset(),
{
    broadcast use vstd::seq_lib::group_to_multiset_ensures, vstd::multiset::group_multiset_axioms;
    lemma_start_order_from_names(start_entries(ps), Seq::empty());
    assert(entry_names(start_entries(ps)) =~= process_names(ps));
}


/// Up to position `c` of `order`, each process starts after the process it
/// depends on: the dependency of every entry of `all` named at a position
/// before `c` is named at an earlier position.
pub open spec fn dependencies_first(order: Seq<Seq<char>>, c: int, all: Seq<(Seq<char>, Option<Seq<char>>)>) -> bool {
    forall|i: int, k: int|
        #![trigger order[i], all[k]]
        0 <= i < c && 0 <= k < all.len() && all[k].0 == order[i] && all[k].1 is Some
            ==> order.subrange(0, i).contains(all[k].1->0)
}

/// From position `c` of `order` on, every process depends on one that had
/// not started before `c`: the processes left when no further one could
/// start.
pub open spec fn blocked_rest(order: Seq<Seq<char>>, c: int, all: Seq<(Seq<char>, Option<Seq<char>>)>) -> bool {
    forall|i: int, k: int|
        #![trigger order[i], all[k]]
        c <= i < order.len() && 0 <= k < all.len() && all[k].0 == order[i]
            ==> all[k].1 is Some && !order.subrange(0, c).contains(all[k].1->0)
}

/// The entries still waiting after a round are entries of the round that
/// were not ready.
proof fn lemma_waiting_not_ready(rem: Seq<(Seq<char>, Option<Seq<char>>)>, placed: Seq<Seq<char>>)
    ensures
        forall|e: (Seq<char>, Option<Seq<char>>)|
            #[trigger] waiting(rem, placed).contains(e) ==> rem.contains(e) && !entry_ready(e, placed),
    decreases rem.len(),
{
    if rem.len() > 0 {
        let init = rem.drop_last();
        lemma_waiting_not_ready(init, placed);
        assert forall|e: (Seq<char>, Option<Seq<char>>)|
            #[trigger] waiting(rem, placed).contains(e) implies rem.contains(e) && !entry_ready(e, placed) by {
            let w = waiting(rem, placed);
            let j = choose|j: int| 0 <= j < w.len() && w[j] == e;
            if entry_ready(rem.last(), placed) {
                assert(waiting(init, placed).contains(e));
            } else if j < waiting(init, placed).len() {
                assert(waiting(init, placed)[j] == e);
                assert(waiting(init, placed).contains(e));
            } else {
                assert(e == rem.last());
            }
            if waiting(init, placed).contains(e) {
                let m = choose|m: int| 0 <= m < init.len() && init[m] == e;
                assert(rem[m] == e);
            } else {
                assert(rem[rem.len() - 1] == e);
            }
        }
    }
}

/// Whether `rem` has an entry named `n` that is ready after `placed`.
spec fn has_ready_entry(rem: Seq<(Seq<char>, Option<Seq<char>>)>, placed: Seq<Seq<char>>, n: Seq<char>) -> bool {
    exists|x: int| 0 <= x < rem.len() && #[trigger] rem[x].0 == n && entry_ready(rem[x], placed)
}

/// Each name that a round makes ready is the name of an entry of the round
/// that was ready.
proof fn lemma_ready_from_round(rem: Seq<(Seq<char>, Option<Seq<char>>)>, placed: Seq<Seq<char>>)
    ensures
        forall|m: int|
            0 <= m < ready_names(rem, placed).len() ==> has_ready_entry(rem, placed, #[trigger] ready_names(rem, placed)[m]),
    decreases rem.len(),
{
    if rem.len() > 0 {
        let init = rem.drop_last();
        lemma_ready_from_round(init, placed);
        assert forall|m: int| 0 <= m < ready_names(rem, placed).len() implies has_ready_entry(
            rem,
            placed,
            #[trigger] ready_names(rem, placed)[m],
        ) by {
            if m < ready_names(init, placed).len() {
                assert(ready_names(rem, placed)[m] == ready_names(init, placed)[m]);
                assert(has_ready_entry(init, placed, ready_names(init, placed)[m]));
                let x = choose|x: int|
                    0 <= x < init.len() && #[trigger] init[x].0 == ready_names(init, placed)[m]
                        && entry_ready(init[x], placed);
                assert(rem[x] == init[x]);
            } else {
                let x = rem.len() - 1;
                assert(rem[x].0 == ready_names(rem, placed)[m]);
            }
        }
    }
}

/// A round that makes nothing ready leaves every entry waiting.
proof fn lemma_nothing_ready(rem: Seq<(Seq<char>, Option<Seq<char>>)>, placed: Seq<Seq<char>>)
    requires
        ready_names(rem, placed).len() == 0,
    ensures
        forall|x: int| 0 <= x < rem.len() ==> !entry_ready(#[trigger] rem[x], placed),
    decreases rem.len(),
{
    if rem.len() > 0 {
        let init = rem.drop_last();
        lemma_nothing_ready(init, placed);
        assert forall|x: int| 0 <= x < rem.len() implies !entry_ready(#[trigger] rem[x], placed) by {
            if x < init.len() {
                assert(rem[x] == init[x]);
            }
        }
    }
}

/// Among entries with distinct names, an entry is found by its name.
proof fn lemma_entry_by_name(all: Seq<(Seq<char>, Option<Seq<char>>)>, k: int, e: (Seq<char>, Option<Seq<char>>))
    requires
        entry_names(all).no_duplicates(),
        all.contains(e),
        0 <= k < all.len(),
        all[k].0 == e.0,
    ensures
        all[k] == e,
{
    let k2 = choose|k2: int| 0 <= k2 < all.len() && all[k2] == e;
    assert(entry_names(all)[k] == all[k].0);
    assert(entry_names(all)[k2] == all[k2].0);
}

/// The start order continuing `placed` keeps `placed` as its beginning and
/// has a position from which on the processes could not be ordered: before
/// it, each process comes after its dependency; from it on, each depends on
/// a process that had not started.
proof fn lemma_order_dependencies(
    rem: Seq<(Seq<char>, Option<Seq<char>>)>,
    placed: Seq<Seq<char>>,
    all: Seq<(Seq<char>, Option<Seq<char>>)>,
) -> (c: int)
    requires
        entry_names(all).no_duplicates(),
        forall|e: (Seq<char>, Option<Seq<char>>)| #[trigger] rem.contains(e) ==> all.contains(e),
        dependencies_first(placed, placed.len() as int, all),
    ensures
        placed.len() <= c <= start_order_from(rem, placed).len(),
        start_order_from(rem, placed).subrange(0, placed.len() as int) == placed,
        dependencies_first(start_order_from(rem, placed), c, all),
        blocked_rest(start_order_from(rem, placed), c, all),
    decreases rem.len(),
{
    let order = start_order_from(rem, placed);
    let p = placed.len() as int;
    if rem.len() == 0 {
        assert(order.subrange(0, p) =~= placed);
        p
    } else if ready_names(rem, placed).len() == 0 {
        lemma_nothing_ready(rem, placed);
        assert(order == placed + entry_names(rem));
        assert(order.subrange(0, p) =~= placed);
        assert forall|i: int, k: int|
            #![trigger order[i], all[k]]
            0 <= i < p && 0 <= k < all.len() && all[k].0 == order[i] && all[k].1 is Some
                implies order.subrange(0, i).contains(all[k].1->0) by {
            assert(order[i] == placed[i]);
            assert(placed[i] == all[k].0);
            assert(placed.subrange(0, i).contains(all[k].1->0));
            assert(order.subrange(0, i) =~= placed.subrange(0, i));
        }
        assert forall|i: int, k: int|
            #![trigger order[i], all[k]]
            p <= i < order.len() && 0 <= k < all.len() && all[k].0 == order[i]
                implies all[k].1 is Some && !order.subrange(0, p).contains(all[k].1->0) by {
            let e = rem[i - p];
            assert(order[i] == e.0);
            assert(rem.contains(e));
            lemma_entry_by_name(all, k, e);
            assert(!entry_ready(rem[i - p], placed));
        }
        p
    } else {
        lemma_ready_waiting_len(rem, placed);
        lemma_waiting_not_ready(rem, placed);
        lemma_ready_from_round(rem, placed);
        let ready = ready_names(rem, placed);
        let next = placed + ready;
        let w = waiting(rem, placed);
        assert forall|e: (Seq<char>, Option<Seq<char>>)| #[trigger] w.contains(e) implies all.contains(e) by {
            assert(rem.contains(e));
        }
        assert forall|i: int, k: int|
            #![trigger next[i], all[k]]
            0 <= i < next.len() && 0 <= k < all.len() && all[k].0 == next[i] && all[k].1 is Some
                implies next.subrange(0, i).contains(all[k].1->0) by {
            let d = all[k].1->0;
            if i < p {
                assert(next[i] == placed[i]);
                assert(placed[i] == all[k].0);
                assert(placed.subrange(0, i).contains(d));
                assert(next.subrange(0, i) =~= placed.subrange(0, i));
            } else {
                let m = i - p;
                assert(next[i] == ready[m]);
                assert(has_ready_entry(rem, placed, ready[m]));
                let x = choose|x: int| 0 <= x < rem.len() && #[trigger] rem[x].0 == ready[m] && entry_ready(rem[x], placed);
                assert(rem.contains(rem[x]));
                lemma_entry_by_name(all, k, rem[x]);
                assert(placed.contains(d));
                let j = choose|j: int| 0 <= j < placed.len() && placed[j] == d;
                assert(next.subrange(0, i)[j] == d);
            }
        }
        assert(dependencies_first(next, next.len() as int, all));
        let c = lemma_order_dependencies(w, next, all);
        assert(order == start_order_from(w, next));
        assert(order.subrange(0, p) =~= order.subrange(0, next.len() as int).subrange(0, p));
        assert(next.subrange(0, p) =~= placed);
        c
    }
}

/// A process starts after the process it depends on, as far as the
/// dependencies allow: the start order has a position before which each
/// process comes after its dependency, and from which on each remaining
/// process depends on one that had not started before it (a cycle, or a
/// dependency that is not configured). Process names are distinct, as the
/// keys of the configuration are.
pub proof fn law_dependencies_start_first(ps: Seq<(String, ProcessConfig)>)
    requires
        process_names(ps).no_duplicates(),
    ensures
        exists|c: int|
            0 <= c <= start_order(ps).len() && dependencies_first(start_order(ps), c, start_entries(ps))
                && blocked_rest(start_order(ps), c, start_entries(ps)),
{
    let all = start_entries(ps);
    assert(entry_names(all) =~= process_names(ps));
    assert(dependencies_first(Seq::<Seq<char>>::empty(), 0, all));
    let c = lemma_order_dependencies(all, Seq::empty(), all);
    assert(0 <= c <= start_order(ps).len() && dependencies_first(start_order(ps), c, all)
        && blocked_rest(start_order(ps), c, all));
}

} // verus!
