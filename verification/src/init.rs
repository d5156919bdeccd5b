//! The init supervisor: its command line parameters, and the state
//! machine that decides, event by event, what to do about the service
//! manager it supervises.

use vstd::prelude::*;
use crate::text::{chars_of, has_prefix_at, is_prefix, parse_int, parse_int_range};

verus! {

/// Default number of missed heartbeats before the manager is restarted.
pub const DEFAULT_TIMECNT: i64 = 5;

/// Default seconds between heartbeats.
pub const DEFAULT_TIMEWAIT: i64 = 10;

/// The supervisor's own parameters.
pub struct InitParam {
    pub time_cnt: i64,
    pub time_wait: i64,
}

/// All parameters: the supervisor's, and those handed to the manager.
pub struct Param {
    pub init_param: InitParam,
    pub manager_param: Vec<String>,
}

/// The value of a `--timecnt=` or `--timewait=` argument: the text after
/// the key as an `i64`, kept only when at least `min`.
pub open spec fn bounded_value(arg: Seq<char>, key_len: int, min: int) -> Option<int> {
    match parse_int(arg.skip(key_len), i64::MIN as int, i64::MAX as int, true) {
        Some(v) => if v >= min { Some(v) } else { None },
        None => None,
    }
}

/// What one argument does to (count, wait).
pub open spec fn opt_step(p: (int, int), arg: Seq<char>) -> (int, int) {
    if is_prefix("--timecnt="@, arg) {
        match bounded_value(arg, "--timecnt="@.len() as int, 2) {
            Some(v) => (v, p.1),
            None => p,
        }
    } else if is_prefix("--timewait="@, arg) {
        match bounded_value(arg, "--timewait="@.len() as int, DEFAULT_TIMEWAIT as int) {
            Some(v) => (p.0, v),
            None => p,
        }
    } else {
        p
    }
}

/// (count, wait) after all `args`, from `p`.
pub open spec fn opts_after(p: (int, int), args: Seq<Seq<char>>) -> (int, int)
    decreases args.len(),
{
    if args.len() == 0 {
        p
    } else {
        opt_step(opts_after(p, args.drop_last()), args.last())
    }
}

fn bounded_arg(v: &Vec<char>, key_len: usize, min: i64) -> (r: Option<i64>)
    requires
        key_len <= v.len(),
    ensures
        r matches Some(x) ==> bounded_value(v@, key_len as int, min as int) == Some(x as int),
        r is None ==> bounded_value(v@, key_len as int, min as int) is None,
{
    assert(v@.skip(key_len as int) =~= v@.subrange(key_len as int, v@.len() as int));
    match parse_int_range(v, key_len, v.len(), i64::MIN as i128, i64::MAX as i128, true) {
        Some(x) => if x >= min as i128 { Some(x as i64) } else { None },
        None => None,
    }
}

/// Reads the heartbeat count from `arg`, which starts with `key`: kept
/// where it is an `i64` of at least 2.
pub fn parse_timecnt(arg: &str, key: &str, init_param: &mut InitParam)
    requires
        is_prefix(key@, arg@),
    ensures
        final(init_param).time_cnt as int == match bounded_value(arg@, key@.len() as int, 2) {
            Some(v) => v,
            None => old(init_param).time_cnt as int,
        },
        final(init_param).time_wait == old(init_param).time_wait,
{
    let v = chars_of(arg);
    let k = chars_of(key);
    if let Some(x) = bounded_arg(&v, k.len(), 2) {
        init_param.time_cnt = x;
    }
}

/// Reads the heartbeat interval from `arg`, which starts with `key`:
/// kept where it is an `i64` of at least the default.
pub fn parse_timewait(arg: &str, key: &str, init_param: &mut InitParam)
    requires
        is_prefix(key@, arg@),
    ensures
        final(init_param).time_wait as int == match bounded_value(arg@, key@.len() as int, DEFAULT_TIMEWAIT as int) {
            Some(v) => v,
            None => old(init_param).time_wait as int,
        },
        final(init_param).time_cnt == old(init_param).time_cnt,
{
    let v = chars_of(arg);
    let k = chars_of(key);
    if let Some(x) = bounded_arg(&v, k.len(), DEFAULT_TIMEWAIT) {
        init_param.time_wait = x;
    }
}

impl Param {
    /// The defaults: 5 heartbeats of 10 seconds, nothing for the manager.
    pub fn new() -> (p: Param)
        ensures
            p.init_param.time_cnt == DEFAULT_TIMECNT,
            p.init_param.time_wait == DEFAULT_TIMEWAIT,
            p.manager_param@.len() == 0,
    {
        Param { init_param: InitParam { time_cnt: DEFAULT_TIMECNT, time_wait: DEFAULT_TIMEWAIT }, manager_param: Vec::new() }
    }

    /// Reads `--timecnt=N` (kept when N is at least 2) and `--timewait=N`
    /// (kept when N is at least the default) from the arguments, the last
    /// kept one of each winning.
    pub fn get_opt(&mut self, args: Vec<String>)
        ensures
            (final(self).init_param.time_cnt as int, final(self).init_param.time_wait as int) == opts_after(
                (old(self).init_param.time_cnt as int, old(self).init_param.time_wait as int),
                args@.map_values(|s: String| s@),
            ),
            final(self).manager_param@ == old(self).manager_param@,
    {
        let ghost av = args@.map_values(|s: String| s@);
        let ghost p0 = (self.init_param.time_cnt as int, self.init_param.time_wait as int);
        let cnt_key = chars_of("--timecnt=");
        let wait_key = chars_of("--timewait=");
        let mut i: usize = 0;
        assert(av.take(0) =~= Seq::<Seq<char>>::empty());
        while i < args.len()
            invariant
                0 <= i <= args.len(),
                av == args@.map_values(|s: String| s@),
                cnt_key@ == "--timecnt="@,
                wait_key@ == "--timewait="@,
                (self.init_param.time_cnt as int, self.init_param.time_wait as int) == opts_after(p0, av.take(i as int)),
                self.manager_param@ == old(self).manager_param@,
            decreases args.len() - i,
        {
            assert(av.take(i + 1).drop_last() =~= av.take(i as int));
            assert(av.take(i + 1).last() == args@[i as int]@);
            let v = chars_of(args[i].as_str());
            assert(v@.subrange(0, v@.len() as int) =~= v@);
            if has_prefix_at(&v, 0, &cnt_key) {
                parse_timecnt(args[i].as_str(), "--timecnt=", &mut self.init_param);
            } else if has_prefix_at(&v, 0, &wait_key) {
                parse_timewait(args[i].as_str(), "--timewait=", &mut self.init_param);
            }
            i += 1;
        }
        assert(av.take(i as int) =~= av);
    }
}

/// The supervisor's run state.
#[derive(Debug, Clone, Copy, PartialEq, Eq, Structural)]
pub enum InitState {
    /// (re)executing or connecting to the manager
    Reexec,
    /// watching the manager's heartbeats and messages
    Run,
    /// the manager cannot be recovered; collecting and waiting
    Unrecover,
}

/// What the heartbeat channel reported.
#[derive(Debug, Clone, Copy, PartialEq, Eq, Structural)]
pub enum CommEvent {
    /// the manager is up
    PipOn,
    /// the manager went down
    PipOff,
    /// heartbeats timed out
    PipTimeout,
    /// anything else
    Other,
}

/// The signal numbers the supervisor reacts to, and the manager's pid.
#[derive(Debug, Clone, Copy, PartialEq, Eq, Structural)]
pub struct SignalConfig {
    pub zombie: i32,
    pub restart: i32,
    pub unrecover: i32,
    pub switch_root: i32,
    pub manager_pid: i32,
}

/// An event the supervisor waited for.
#[derive(Debug, Clone, Copy, PartialEq, Eq, Structural)]
pub enum InitEvent {
    /// from the heartbeat channel
    Comm(CommEvent),
    /// a signal, with the pid of its sender
    Signal(i32, i32),
    /// on another descriptor
    Other,
}

/// What the supervisor does in response.
#[derive(Debug, Clone, Copy, PartialEq, Eq, Structural)]
pub enum InitAction {
    /// nothing
    Nothing,
    /// reap exited children
    Recycle,
    /// switch to the new root and execute its init
    SwitchRoot,
    /// kill the manager and start a new one
    Recreate,
    /// close the descriptor that reported
    CloseFd,
}

/// The supervisor's decision state.
#[derive(Debug, Clone, Copy, PartialEq, Eq, Structural)]
pub struct InitMachine {
    pub state: InitState,
    pub need_reexec: bool,
}

/// The next decision state and the action for `ev` in `m`.
pub open spec fn init_step(m: InitMachine, ev: InitEvent, cfg: SignalConfig) -> (InitMachine, InitAction) {
    match ev {
        InitEvent::Other => (m, InitAction::CloseFd),
        InitEvent::Comm(c) => match m.state {
            InitState::Reexec => match c {
                CommEvent::PipOn => (InitMachine { state: InitState::Run, ..m }, InitAction::Nothing),
                CommEvent::PipTimeout => (InitMachine { need_reexec: true, ..m }, InitAction::Nothing),
                _ => (m, InitAction::Nothing),
            },
            InitState::Run => match c {
                CommEvent::PipOff => (InitMachine { state: InitState::Reexec, ..m }, InitAction::Nothing),
                CommEvent::PipTimeout => (InitMachine { state: InitState::Reexec, need_reexec: true }, InitAction::Nothing),
                _ => (m, InitAction::Nothing),
            },
            InitState::Unrecover => (m, InitAction::Nothing),
        },
        InitEvent::Signal(signo, pid) => match m.state {
            InitState::Reexec => if signo == cfg.zombie {
                (m, InitAction::Recycle)
            } else if signo == cfg.restart {
                (InitMachine { state: InitState::Reexec, need_reexec: true }, InitAction::Nothing)
            } else if signo == cfg.unrecover {
                (InitMachine { state: InitState::Unrecover, ..m }, InitAction::Recycle)
            } else {
                (m, InitAction::Nothing)
            },
            InitState::Run => if signo == cfg.zombie {
                (m, InitAction::Recycle)
            } else if signo == cfg.restart {
                (InitMachine { state: InitState::Reexec, need_reexec: true }, InitAction::Nothing)
            } else if signo == cfg.switch_root && pid == cfg.manager_pid {
                (m, InitAction::SwitchRoot)
            } else {
                (m, InitAction::Nothing)
            },
            InitState::Unrecover => if signo == cfg.zombie {
                (m, InitAction::Recycle)
            } else if signo == cfg.restart {
                (m, InitAction::Recreate)
            } else {
                (m, InitAction::Nothing)
            },
        },
    }
}

impl InitMachine {
    /// The start: reexecuting, with no pending reexecution.
    pub fn new() -> (m: InitMachine)
        ensures
            m.state == InitState::Reexec,
            !m.need_reexec,
    {
        InitMachine { state: InitState::Reexec, need_reexec: false }
    }

    /// The current state.
    pub fn state(&self) -> (s: InitState)
        ensures
            s == self.state,
    {
        self.state
    }

    /// Before waiting in the reexec state: whether the manager is to be
    /// reexecuted now (a pending request is consumed).
    pub fn take_reexec(&mut self) -> (r: bool)
        ensures
            r == (old(self).state == InitState::Reexec && old(self).need_reexec),
            final(self).state == old(self).state,
            final(self).need_reexec == (old(self).need_reexec && !r),
    {
        if self.state == InitState::Reexec && self.need_reexec {
            self.need_reexec = false;
            true
        } else {
            false
        }
    }

    /// Handles one event: moves to the next state and returns the action.
    pub fn step(&mut self, ev: InitEvent, cfg: SignalConfig) -> (a: InitAction)
        ensures
            (*final(self), a) == init_step(*old(self), ev, cfg),
    {
        match ev {
            InitEvent::Other => InitAction::CloseFd,
            InitEvent::Comm(c) => {
                match self.state {
                    InitState::Reexec => match c {
                        CommEvent::PipOn => {
                            self.state = InitState::Run;
                        },
                        CommEvent::PipTimeout => {
                            self.need_reexec = true;
                        },
                        _ => {},
                    },
                    InitState::Run => match c {
                        CommEvent::PipOff => {
                            self.state = InitState::Reexec;
                        },
                        CommEvent::PipTimeout => {
                            self.state = InitState::Reexec;
                            self.need_reexec = true;
                        },
                        _ => {},
                    },
                    InitState::Unrecover => {},
                }
                InitAction::Nothing
            },
            InitEvent::Signal(signo, pid) => match self.state {
                InitState::Reexec => if signo == cfg.zombie {
                    InitAction::Recycle
                } else if signo == cfg.restart {
                    self.need_reexec = true;
                    InitAction::Nothing
                } else if signo == cfg.unrecover {
                    self.state = InitState::Unrecover;
                    InitAction::Recycle
                } else {
                    InitAction::Nothing
                },
                InitState::Run => if signo == cfg.zombie {
                    InitAction::Recycle
                } else if signo == cfg.restart {
                    self.state = InitState::Reexec;
                    self.need_reexec = true;
                    InitAction::Nothing
                } else if signo == cfg.switch_root && pid == cfg.manager_pid {
                    InitAction::SwitchRoot
                } else {
                    InitAction::Nothing
                },
                InitState::Unrecover => if signo == cfg.zombie {
                    InitAction::Recycle
                } else if signo == cfg.restart {
                    InitAction::Recreate
                } else {
                    InitAction::Nothing
                },
            },
        }
    }
}

/// The unrecoverable state is never left: whatever happens there, the
/// supervisor stays in it.
pub proof fn law_unrecover_absorbing(m: InitMachine, ev: InitEvent, cfg: SignalConfig)
    requires
        m.state == InitState::Unrecover,
    ensures
        init_step(m, ev, cfg).0.state == InitState::Unrecover,
{
}

/// Only the manager may request the switch to a new root, and only while
/// it runs.
pub proof fn law_switch_root_only_from_manager(m: InitMachine, ev: InitEvent, cfg: SignalConfig)
    requires
        init_step(m, ev, cfg).1 == InitAction::SwitchRoot,
    ensures
        m.state == InitState::Run,
        ev matches InitEvent::Signal(signo, pid) && signo == cfg.switch_root && pid == cfg.manager_pid,
{
}

/// A restart request always leads to a reexecution of the manager
/// outside the unrecoverable state, and to a new manager within it.
pub proof fn law_restart_reexecutes(m: InitMachine, pid: i32, cfg: SignalConfig)
    requires
        cfg.restart != cfg.zombie,
    ensures
        m.state != InitState::Unrecover ==> init_step(m, InitEvent::Signal(cfg.restart, pid), cfg).0 == (InitMachine {
            state: InitState::Reexec,
            need_reexec: true,
        }),
        m.state == InitState::Unrecover ==> init_step(m, InitEvent::Signal(cfg.restart, pid), cfg).1 == InitAction::Recreate,
{
}

/// Whether the manager's reply says it is alive.
pub fn is_alive(buf: &str) -> (r: bool)
    ensures
        r == (buf@ == "ALIVE"@),
{
    let v = chars_of(buf);
    crate::rules::eq_lit(&v, "ALIVE")
}

/// Whether the manager's reply says it is manageable.
pub fn is_manageable(buf: &str) -> (r: bool)
    ensures
        r == (buf@ == "MANAGEABLE"@),
{
    let v = chars_of(buf);
    crate::rules::eq_lit(&v, "MANAGEABLE")
}

/// Whether the manager's reply says it is unmanageable.
pub fn is_unmanageable(buf: &str) -> (r: bool)
    ensures
        r == (buf@ == "UNMANAGEABLE"@),
{
    let v = chars_of(buf);
    crate::rules::eq_lit(&v, "UNMANAGEABLE")
}

/// How many times in a row accepting the manager's connection may find
/// nothing ready.
pub const ACCEPT_COUNT: u32 = 3;

/// How many times in a row a non-blocking receive may find nothing ready.
pub const RECV_COUNT: u32 = 3;

/// How an accept or receive on the heartbeat channel failed.
#[derive(Debug, Clone, Copy, PartialEq, Eq, Structural)]
pub enum ChannelError {
    /// interrupted by a signal
    Interrupted,
    /// nothing ready yet
    WouldBlock,
    /// anything else
    Other,
}

/// Whether to try again after `err`, having found nothing ready `count`
/// times so far: an interruption is retried as it stands; nothing ready
/// is retried up to `limit` times; other errors end the attempt. `Some`
/// holds the new count.
pub fn retry_after(err: ChannelError, count: u32, limit: u32) -> (r: Option<u32>)
    ensures
        r == match err {
            ChannelError::Interrupted => Some(count),
            ChannelError::WouldBlock => if count < limit { Some((count + 1) as u32) } else { None },
            ChannelError::Other => None,
        },
{
    match err {
        ChannelError::Interrupted => Some(count),
        ChannelError::WouldBlock => if count < limit {
            Some(count + 1)
        } else {
            None
        },
        ChannelError::Other => None,
    }
}

/// Counts the heartbeat timer's expirations without a heartbeat: the
/// manager is taken as lost when `time_cnt` of them come in a row.
#[derive(Debug, Clone, Copy, PartialEq, Eq, Structural)]
pub struct TimeoutCounter {
    pub current_cnt: i64,
    pub time_cnt: i64,
}

impl TimeoutCounter {
    /// The count stays below the limit (or at zero).
    pub open spec fn wf(&self) -> bool {
        0 <= self.current_cnt && (self.current_cnt < self.time_cnt || self.current_cnt == 0)
    }

    /// No expiration counted yet.
    pub fn new(time_cnt: i64) -> (r: TimeoutCounter)
        ensures
            r.wf(),
            r.current_cnt == 0,
            r.time_cnt == time_cnt,
    {
        TimeoutCounter { current_cnt: 0, time_cnt }
    }

    /// A heartbeat came: the count starts over.
    pub fn reset(&mut self)
        ensures
            *final(self) == (TimeoutCounter { current_cnt: 0, ..*old(self) }),
    {
        self.current_cnt = 0;
    }

    /// The timer expired (`event_error`: the timer reported an error and
    /// is made anew): whether the manager is now taken as lost. An error
    /// counts as lost at once; else the expiration is counted, and on
    /// reaching the limit the count starts over and the manager is lost.
    pub fn tick(&mut self, event_error: bool) -> (r: bool)
        requires
            old(self).wf(),
        ensures
            final(self).wf(),
            final(self).time_cnt == old(self).time_cnt,
            event_error ==> r && *final(self) == *old(self),
            !event_error ==> (*final(self), r) == tick_of(*old(self)),
    {
        if event_error {
            return true;
        }
        self.current_cnt = self.current_cnt + 1;
        if self.time_cnt <= self.current_cnt {
            self.current_cnt = 0;
            return true;
        }
        false
    }
}

/// The counter and answer after an expiration without error.
pub open spec fn tick_of(c: TimeoutCounter) -> (TimeoutCounter, bool) {
    if c.time_cnt <= c.current_cnt + 1 {
        (TimeoutCounter { current_cnt: 0, ..c }, true)
    } else {
        (TimeoutCounter { current_cnt: (c.current_cnt + 1) as i64, ..c }, false)
    }
}

/// The answers to `n` expirations in a row without error.
pub open spec fn answers(c: TimeoutCounter, n: nat) -> Seq<bool>
    decreases n,
{
    if n == 0 {
        Seq::empty()
    } else {
        let (c2, r) = tick_of(c);
        seq![r] + answers(c2, (n - 1) as nat)
    }
}

proof fn lemma_answers_from(c: TimeoutCounter, n: nat)
    requires
        c.wf(),
        c.time_cnt >= 1,
        c.current_cnt + n == c.time_cnt,
    ensures
        answers(c, n).len() == n,
        forall|i: int| 0 <= i < n - 1 ==> !(#[trigger] answers(c, n)[i]),
        n >= 1 ==> answers(c, n)[n - 1],
    decreases n,
{
    if n > 0 {
        let (c2, r) = tick_of(c);
        assert(answers(c2, 0) =~= Seq::<bool>::empty());
        if n > 1 {
            lemma_answers_from(c2, (n - 1) as nat);
            assert forall|i: int| 0 <= i < n - 1 implies !(#[trigger] answers(c, n)[i]) by {
                if i > 0 {
                    assert(answers(c, n)[i] == answers(c2, (n - 1) as nat)[i - 1]);
                }
            }
        }
    }
}

/// From a fresh count, the first `time_cnt - 1` expirations in a row leave
/// the manager alive and the next one declares it lost (for a limit of
/// at least one).
pub proof fn law_timeout_after_limit(time_cnt: i64)
    requires
        time_cnt >= 1,
    ensures
        answers(TimeoutCounter { current_cnt: 0, time_cnt }, time_cnt as nat).len() == time_cnt,
        forall|i: int| 0 <= i < time_cnt - 1 ==> !(#[trigger] answers(TimeoutCounter { current_cnt: 0, time_cnt }, time_cnt as nat)[i]),
        answers(TimeoutCounter { current_cnt: 0, time_cnt }, time_cnt as nat)[time_cnt - 1],
{
    lemma_answers_from(TimeoutCounter { current_cnt: 0, time_cnt }, time_cnt as nat);
}

/// The heartbeat count that the argument `arg` sets, if any: an `i64` of
/// at least 2 after `--timecnt=`.
pub open spec fn count_set_by(arg: Seq<char>) -> Option<int> {
    if is_prefix("--timecnt="@, arg) { bounded_value(arg, "--timecnt="@.len() as int, 2) } else { None }
}

/// The heartbeat wait that the argument `arg` sets, if any: an `i64` of
/// at least the default after `--timewait=`.
pub open spec fn wait_set_by(arg: Seq<char>) -> Option<int> {
    if is_prefix("--timewait="@, arg) {
        bounded_value(arg, "--timewait="@.len() as int, DEFAULT_TIMEWAIT as int)
    } else {
        None
    }
}

proof fn lemma_option_keys_differ(arg: Seq<char>)
    ensures
        !(is_prefix("--timecnt="@, arg) && is_prefix("--timewait="@, arg)),
{
    reveal_strlit("--timecnt=");
    reveal_strlit("--timewait=");
    if is_prefix("--timecnt="@, arg) && is_prefix("--timewait="@, arg) {
        assert(arg.subrange(0, 10)[6] == arg[6]);
        assert(arg.subrange(0, 11)[6] == arg[6]);
    }
}

/// Law: after the arguments `args`, the heartbeat count is the one that
/// the last argument setting it sets, or the earlier count where none
/// does; the same for the wait.
pub proof fn law_last_option_wins(p: (int, int), args: Seq<Seq<char>>)
    ensures
        (forall|i: int| 0 <= i < args.len() ==> #[trigger] count_set_by(args[i]) is None) ==> opts_after(p, args).0 == p.0,
        (forall|i: int| 0 <= i < args.len() ==> #[trigger] wait_set_by(args[i]) is None) ==> opts_after(p, args).1 == p.1,
        forall|j: int| 0 <= j < args.len() && #[trigger] count_set_by(args[j]) is Some
            && (forall|k: int| j < k < args.len() ==> #[trigger] count_set_by(args[k]) is None)
            ==> opts_after(p, args).0 == count_set_by(args[j])->Some_0,
        forall|j: int| 0 <= j < args.len() && #[trigger] wait_set_by(args[j]) is Some
            && (forall|k: int| j < k < args.len() ==> #[trigger] wait_set_by(args[k]) is None)
            ==> opts_after(p, args).1 == wait_set_by(args[j])->Some_0,
    decreases args.len(),
{
    if args.len() > 0 {
        let q = args.drop_last();
        law_last_option_wins(p, q);
        let a = args.last();
        lemma_option_keys_differ(a);
        assert(opt_step(opts_after(p, q), a).0 == (match count_set_by(a) { Some(v) => v, None => opts_after(p, q).0 }));
        assert(opt_step(opts_after(p, q), a).1 == (match wait_set_by(a) { Some(v) => v, None => opts_after(p, q).1 }));
        assert forall|i: int| 0 <= i < q.len() implies q[i] == args[i] by {}
        assert forall|j: int| 0 <= j < args.len() && #[trigger] count_set_by(args[j]) is Some
            && (forall|k: int| j < k < args.len() ==> #[trigger] count_set_by(args[k]) is None)
            implies opts_after(p, args).0 == count_set_by(args[j])->Some_0 by {
            if j < args.len() - 1 {
                assert(count_set_by(args[args.len() - 1]) is None);
                assert(count_set_by(q[j]) is Some);
                assert forall|k: int| j < k < q.len() implies #[trigger] count_set_by(q[k]) is None by {
                    assert(count_set_by(args[k]) is None);
                }
            }
        }
        assert forall|j: int| 0 <= j < args.len() && #[trigger] wait_set_by(args[j]) is Some
            && (forall|k: int| j < k < args.len() ==> #[trigger] wait_set_by(args[k]) is None)
            implies opts_after(p, args).1 == wait_set_by(args[j])->Some_0 by {
            if j < args.len() - 1 {
                assert(wait_set_by(args[args.len() - 1]) is None);
                assert(wait_set_by(q[j]) is Some);
                assert forall|k: int| j < k < q.len() implies #[trigger] wait_set_by(q[k]) is None by {
                    assert(wait_set_by(args[k]) is None);
                }
            }
        }
        if forall|i: int| 0 <= i < args.len() ==> #[trigger] count_set_by(args[i]) is None {
            assert forall|i: int| 0 <= i < q.len() implies #[trigger] count_set_by(q[i]) is None by {
                assert(count_set_by(args[i]) is None);
            }
            assert(count_set_by(args[args.len() - 1]) is None);
        }
        if forall|i: int| 0 <= i < args.len() ==> #[trigger] wait_set_by(args[i]) is None {
            assert forall|i: int| 0 <= i < q.len() implies #[trigger] wait_set_by(q[i]) is None by {
                assert(wait_set_by(args[i]) is None);
            }
            assert(wait_set_by(args[args.len() - 1]) is None);
        }
    }
}


/// Law: what the manager's connection reports does to the supervisor:
/// while re-executing, the manager coming up makes it run and a timeout
/// marks a re-execution as due; while running, the manager going away
/// sends it back to re-executing, and a timeout does so with a
/// re-execution due; nothing else changes the state, and none of these
/// asks for an action.
pub proof fn law_comm_events(m: InitMachine, c: CommEvent, cfg: SignalConfig)
    ensures
        init_step(m, InitEvent::Comm(c), cfg).1 == InitAction::Nothing,
        m.state == InitState::Run && c == CommEvent::PipOff ==> init_step(m, InitEvent::Comm(c), cfg).0
            == (InitMachine { state: InitState::Reexec, need_reexec: m.need_reexec }),
        m.state == InitState::Run && c == CommEvent::PipTimeout ==> init_step(m, InitEvent::Comm(c), cfg).0
            == (InitMachine { state: InitState::Reexec, need_reexec: true }),
        m.state == InitState::Reexec && c == CommEvent::PipOn ==> init_step(m, InitEvent::Comm(c), cfg).0
            == (InitMachine { state: InitState::Run, need_reexec: m.need_reexec }),
        m.state == InitState::Reexec && c == CommEvent::PipTimeout ==> init_step(m, InitEvent::Comm(c), cfg).0
            == (InitMachine { state: InitState::Reexec, need_reexec: true }),
        !(m.state == InitState::Run && (c == CommEvent::PipOff || c == CommEvent::PipTimeout))
            && !(m.state == InitState::Reexec && (c == CommEvent::PipOn || c == CommEvent::PipTimeout))
            ==> init_step(m, InitEvent::Comm(c), cfg).0 == m,
{
}

} // verus!
