//! Decisions of the transient unit runner: unit suffixes, unit
//! properties, and the checks and defaults applied to its arguments.

use vstd::prelude::*;
use crate::rules::eq_lit;
use crate::text::{chars_of, find_char, has_prefix_at, is_prefix, len_before, string_from_range, string_of, trim_bounds, trim_ws};
use crate::getty::concat;

verus! {

/// The unit types that a suffix may name.
pub open spec fn unit_type_name(t: Seq<char>) -> bool {
    ||| t == "service"@
    ||| t == "target"@
    ||| t == "socket"@
    ||| t == "mount"@
    ||| t == "timer"@
    ||| t == "path"@
}

/// A unit suffix: a dot and the name of a unit type.
pub open spec fn valid_suffix(s: Seq<char>) -> bool {
    s.len() > 0 && s[0] == '.' && unit_type_name(s.drop_first())
}

/// Whether `suffix` is `.` followed by a unit type.
pub fn unit_suffix_is_valid(suffix: &str) -> (r: bool)
    ensures
        r == valid_suffix(suffix@),
{
    let v = chars_of(suffix);
    if v.len() == 0 || v[0] != '.' {
        return false;
    }
    let t = chars_of(string_from_range(&v, 1, v.len()).as_str());
    assert(t@ =~= suffix@.drop_first());
    eq_lit(&t, "service") || eq_lit(&t, "target") || eq_lit(&t, "socket") || eq_lit(&t, "mount")
        || eq_lit(&t, "timer") || eq_lit(&t, "path")
}

/// A `Key=value` property of a transient unit.
#[derive(Debug, Clone, PartialEq, Eq)]
pub struct UnitProperty {
    pub key: String,
    pub value: String,
}

/// Why a property or argument is refused.
#[derive(Debug, Clone, Copy, PartialEq, Eq, Structural)]
pub enum RunError {
    /// a property without `=` or without a key
    InvalidProperty,
    /// more than one of path, socket and timer properties
    MultipleTriggers,
    /// nothing to run
    NoCommand,
    /// timer properties without a timer
    TimerPropertyWithoutTimer,
    /// an environment assignment that is not `NAME=value`
    InvalidEnvironment,
}

/// The key and value of `property`: split at the first `=`, which must
/// exist and not be first.
pub open spec fn property_parts(p: Seq<char>) -> Option<(Seq<char>, Seq<char>)> {
    let pos = len_before(p, '=');
    if p.len() == 0 || pos == p.len() || pos == 0 {
        None
    } else {
        Some((p.take(pos), p.skip(pos + 1)))
    }
}

/// The property that `property` spells.
pub fn to_unit_property(property: &str) -> (r: Result<UnitProperty, RunError>)
    ensures
        r matches Ok(u) ==> property_parts(property@) == Some((u.key@, u.value@)),
        r matches Err(e) ==> property_parts(property@) is None && e == RunError::InvalidProperty,
{
    let v = chars_of(property);
    if v.len() == 0 {
        return Err(RunError::InvalidProperty);
    }
    assert(v@.subrange(0, v@.len() as int) =~= v@);
    let pos = find_char(&v, 0, '=');
    if pos == v.len() || pos == 0 {
        return Err(RunError::InvalidProperty);
    }
    Ok(UnitProperty { key: string_from_range(&v, 0, pos), value: string_from_range(&v, pos + 1, v.len()) })
}

/// Views of properties.
pub open spec fn props_view(ps: Seq<UnitProperty>) -> Seq<(Seq<char>, Seq<char>)> {
    ps.map_values(|p: UnitProperty| (p.key@, p.value@))
}

/// The properties parsed from `ps`, or `None` where one is malformed.
pub open spec fn parsed_props(ps: Seq<Seq<char>>) -> Option<Seq<(Seq<char>, Seq<char>)>>
    decreases ps.len(),
{
    if ps.len() == 0 {
        Some(Seq::empty())
    } else {
        match (parsed_props(ps.drop_last()), property_parts(ps.last())) {
            (Some(a), Some(p)) => Some(a.push(p)),
            _ => None,
        }
    }
}

/// The properties every transient unit gets: its description (where
/// given), `CollectMode=inactive-or-failed` (where collecting), then the
/// given ones.
pub open spec fn unit_props(description: Seq<char>, collect: bool, ps: Seq<Seq<char>>) -> Option<Seq<(Seq<char>, Seq<char>)>> {
    let d: Seq<(Seq<char>, Seq<char>)> = if description.len() > 0 { seq![("Description"@, description)] } else { Seq::empty() };
    let c: Seq<(Seq<char>, Seq<char>)> = if collect { seq![("CollectMode"@, "inactive-or-failed"@)] } else { Seq::empty() };
    match parsed_props(ps) {
        Some(rest) => Some(d + c + rest),
        None => None,
    }
}

/// The properties of a transient unit.
pub fn transient_unit_set_properties(description: &str, collect: bool, properties: &Vec<String>) -> (r: Result<Vec<UnitProperty>, RunError>)
    ensures
        r matches Ok(v) ==> unit_props(description@, collect, properties@.map_values(|s: String| s@)) == Some(props_view(v@)),
        r is Err ==> unit_props(description@, collect, properties@.map_values(|s: String| s@)) is None,
{
    let ghost pv = properties@.map_values(|s: String| s@);
    let mut out: Vec<UnitProperty> = Vec::new();
    if !description.is_empty() {
        out.push(UnitProperty { key: string_of("Description"), value: string_of(description) });
    }
    if collect {
        out.push(UnitProperty { key: string_of("CollectMode"), value: string_of("inactive-or-failed") });
    }
    let ghost head = props_view(out@);
    assert(head =~= (if description@.len() > 0 { seq![("Description"@, description@)] } else { Seq::<(Seq<char>, Seq<char>)>::empty() })
        + (if collect { seq![("CollectMode"@, "inactive-or-failed"@)] } else { Seq::<(Seq<char>, Seq<char>)>::empty() }));
    let mut i: usize = 0;
    assert(pv.take(0) =~= Seq::<Seq<char>>::empty());
    assert(props_view(out@) =~= head + Seq::<(Seq<char>, Seq<char>)>::empty());
    while i < properties.len()
        invariant
            0 <= i <= properties.len(),
            pv == properties@.map_values(|s: String| s@),
            parsed_props(pv.take(i as int)) matches Some(rest) && props_view(out@) == head + rest,
        decreases properties.len() - i,
    {
        assert(pv.take(i + 1).drop_last() =~= pv.take(i as int));
        assert(pv.take(i + 1).last() == properties@[i as int]@);
        match to_unit_property(properties[i].as_str()) {
            Ok(p) => {
                let ghost before = props_view(out@);
                out.push(p);
                assert(props_view(out@) =~= before.push((p.key@, p.value@)));
            },
            Err(e) => {
                proof {
                    lemma_parsed_props_none(pv, i as int);
                }
                return Err(e);
            },
        }
        i += 1;
    }
    assert(pv.take(i as int) =~= pv);
    Ok(out)
}

/// A malformed property makes the whole list malformed.
pub proof fn lemma_parsed_props_none(ps: Seq<Seq<char>>, k: int)
    requires
        0 <= k < ps.len(),
        parsed_props(ps.take(k + 1)) is None,
    ensures
        parsed_props(ps) is None,
    decreases ps.len(),
{
    if k + 1 == ps.len() {
        assert(ps.take(k + 1) =~= ps);
    } else {
        assert(ps.drop_last().take(k + 1) =~= ps.take(k + 1));
        lemma_parsed_props_none(ps.drop_last(), k);
    }
}

/// The prefixes that make a timer property a timer.
pub open spec fn timer_prefix(p: Seq<char>) -> bool {
    ||| is_prefix("OnActiveSec="@, p)
    ||| is_prefix("OnBootSec="@, p)
    ||| is_prefix("OnStartupSec="@, p)
    ||| is_prefix("OnUnitActiveSec="@, p)
    ||| is_prefix("OnUnitInactiveSec="@, p)
    ||| is_prefix("OnCalendar="@, p)
}

fn starts_with_lit(v: &Vec<char>, lit: &str) -> (r: bool)
    ensures
        r == is_prefix(lit@, v@),
{
    let p = chars_of(lit);
    assert(v@.subrange(0, v@.len() as int) =~= v@);
    has_prefix_at(v, 0, &p)
}

fn is_timer_property(p: &str) -> (r: bool)
    ensures
        r == timer_prefix(p@),
{
    let v = chars_of(p);
    starts_with_lit(&v, "OnActiveSec=") || starts_with_lit(&v, "OnBootSec=") || starts_with_lit(&v, "OnStartupSec=")
        || starts_with_lit(&v, "OnUnitActiveSec=") || starts_with_lit(&v, "OnUnitInactiveSec=")
        || starts_with_lit(&v, "OnCalendar=")
}

/// The arguments of a transient unit run.
#[derive(Debug, Clone, Default)]
pub struct RunArgs {
    pub unit: String,
    pub property: Vec<String>,
    pub path_property: Vec<String>,
    pub socket_property: Vec<String>,
    pub timer_property: Vec<String>,
    pub description: String,
    pub user: bool,
    pub no_ask_password: bool,
    pub on_active: String,
    pub on_boot: String,
    pub on_startup: String,
    pub on_unit_active: String,
    pub on_unit_inactive: String,
    pub on_calendar: String,
    pub args_cmdline: Vec<String>,
    pub remain_after_exit: bool,
    pub service_type: String,
    pub uid: String,
    pub gid: String,
    pub working_directory: String,
    pub same_dir: bool,
    pub setenv: Vec<String>,
    pub no_block: bool,
    pub system: bool,
    pub send_sighup: bool,
    pub pty: bool,
    pub pipe: bool,
    pub quiet: bool,
    pub collect: bool,
}

/// Views of a list of strings.
pub open spec fn strs(v: Seq<String>) -> Seq<Seq<char>> {
    v.map_values(|s: String| s@)
}

/// Some timer property starts like a timer setting.
pub open spec fn any_timer_prefix(ps: Seq<Seq<char>>) -> bool {
    exists|i: int| 0 <= i < ps.len() && timer_prefix(#[trigger] ps[i])
}

/// A timer is requested: by a timer property or by an `--on-*` option.
pub open spec fn wants_timer(a: RunArgs) -> bool {
    any_timer_prefix(strs(a.timer_property@)) || a.on_active@.len() > 0 || a.on_boot@.len() > 0
        || a.on_calendar@.len() > 0 || a.on_startup@.len() > 0 || a.on_unit_inactive@.len() > 0
        || a.on_unit_active@.len() > 0
}

/// The timer property `k` followed by `v`, where `v` is given.
pub open spec fn timer_opt(k: Seq<char>, v: Seq<char>) -> Seq<Seq<char>> {
    if v.len() > 0 { seq![k + v] } else { Seq::empty() }
}

/// The timer properties that the `--on-*` options add, in order.
pub open spec fn added_timers(a: RunArgs) -> Seq<Seq<char>> {
    timer_opt("OnActiveSec="@, a.on_active@) + timer_opt("OnBootSec="@, a.on_boot@)
        + timer_opt("OnCalendar="@, a.on_calendar@) + timer_opt("OnStartupSec="@, a.on_startup@)
        + timer_opt("OnUnitInactiveSec="@, a.on_unit_inactive@) + timer_opt("OnUnitActiveSec="@, a.on_unit_active@)
}

/// The command line joined with a space after each argument.
pub open spec fn joined(args: Seq<Seq<char>>) -> Seq<char>
    decreases args.len(),
{
    if args.len() == 0 {
        Seq::empty()
    } else {
        joined(args.drop_last()) + args.last() + " "@
    }
}

/// Which check fails for the arguments, if any: more than one trigger,
/// nothing to run, or timer properties without a timer.
pub open spec fn args_error(a: RunArgs) -> Option<RunError> {
    let timer = wants_timer(a);
    let triggers = a.path_property@.len() + a.socket_property@.len() + (if timer { 1int } else { 0int });
    let with_trigger = a.path_property@.len() > 0 || a.socket_property@.len() > 0 || timer;
    let timer_props = a.timer_property@.len() + added_timers(a).len();
    if triggers > 1 {
        Some(RunError::MultipleTriggers)
    } else if a.args_cmdline@.len() == 0 && a.unit@.len() == 0 && !with_trigger {
        Some(RunError::NoCommand)
    } else if timer_props > 0 && !timer {
        Some(RunError::TimerPropertyWithoutTimer)
    } else {
        None
    }
}

fn push_timer(props: &mut Vec<String>, key: &str, value: &String)
    ensures
        strs(final(props)@) == strs(old(props)@) + timer_opt(key@, value@),
{
    if !value.as_str().is_empty() {
        let ghost before = strs(props@);
        props.push(concat(key, value.as_str()));
        assert(strs(props@) =~= before + seq![key@ + value@]);
    } else {
        assert(strs(props@) =~= strs(props@) + Seq::<Seq<char>>::empty());
    }
}

fn wants_timer_exec(args: &RunArgs) -> (r: bool)
    ensures
        r == wants_timer(*args),
{
    let mut timer = false;
    let mut i: usize = 0;
    let ghost ps = strs(args.timer_property@);
    while i < args.timer_property.len()
        invariant
            0 <= i <= args.timer_property.len(),
            ps == strs(args.timer_property@),
            timer == exists|k: int| 0 <= k < i && timer_prefix(#[trigger] ps[k]),
        decreases args.timer_property.len() - i,
    {
        let hit = is_timer_property(args.timer_property[i].as_str());
        assert(ps[i as int] == args.timer_property@[i as int]@);
        if hit {
            timer = true;
        } else {
            assert forall|k: int| 0 <= k < i + 1 && timer_prefix(#[trigger] ps[k]) implies k < i by {}
        }
        i += 1;
    }
    timer || !args.on_active.as_str().is_empty() || !args.on_boot.as_str().is_empty()
        || !args.on_calendar.as_str().is_empty() || !args.on_startup.as_str().is_empty()
        || !args.on_unit_inactive.as_str().is_empty() || !args.on_unit_active.as_str().is_empty()
}

fn add_timers(args: &mut RunArgs)
    ensures
        strs(final(args).timer_property@) == strs(old(args).timer_property@) + added_timers(*old(args)),
        final(args).unit == old(args).unit,
        final(args).args_cmdline == old(args).args_cmdline,
        final(args).path_property == old(args).path_property,
        final(args).socket_property == old(args).socket_property,
        final(args).property == old(args).property,
        final(args).description == old(args).description,
        final(args).no_ask_password == old(args).no_ask_password,
{
    let ghost a0 = *args;
    let mut tp = Vec::new();
    std::mem::swap(&mut tp, &mut args.timer_property);
    let ghost t0 = strs(tp@);
    push_timer(&mut tp, "OnActiveSec=", &args.on_active);
    push_timer(&mut tp, "OnBootSec=", &args.on_boot);
    push_timer(&mut tp, "OnCalendar=", &args.on_calendar);
    push_timer(&mut tp, "OnStartupSec=", &args.on_startup);
    push_timer(&mut tp, "OnUnitInactiveSec=", &args.on_unit_inactive);
    push_timer(&mut tp, "OnUnitActiveSec=", &args.on_unit_active);
    assert(strs(tp@) =~= t0 + added_timers(a0));
    args.timer_property = tp;
}

/// The command line joined with a space after each argument, trimmed.
fn joined_command(cmd: &Vec<String>) -> (r: String)
    ensures
        r@ == trim_ws(joined(strs(cmd@))),
{
    let mut all = String::new();
    let mut k: usize = 0;
    assert(strs(cmd@).take(0) =~= Seq::<Seq<char>>::empty());
    while k < cmd.len()
        invariant
            0 <= k <= cmd.len(),
            all@ == joined(strs(cmd@).take(k as int)),
        decreases cmd.len() - k,
    {
        assert(strs(cmd@).take(k + 1).drop_last() =~= strs(cmd@).take(k as int));
        let next = concat(all.as_str(), cmd[k].as_str());
        all = concat(next.as_str(), " ");
        k += 1;
    }
    assert(strs(cmd@).take(k as int) =~= strs(cmd@));
    let v = chars_of(all.as_str());
    assert(v@.subrange(0, v@.len() as int) =~= v@);
    let (a, b) = trim_bounds(&v, 0, v.len());
    string_from_range(&v, a, b)
}

/// Completes and checks the arguments (the working directory and the
/// environment assignments are handled by the caller): `--user` implies
/// `--no-ask-password`; the `--on-*` options become timer properties; at
/// most one trigger kind is allowed; something must be run; timer
/// properties need a timer; the description defaults to the command
/// line.
pub fn parse_args(args: &mut RunArgs) -> (r: Result<(), RunError>)
    ensures
        r matches Err(e) ==> args_error(*old(args)) == Some(e),
        r is Ok ==> args_error(*old(args)) is None,
        final(args).no_ask_password == (old(args).no_ask_password || old(args).user),
        strs(final(args).timer_property@) == strs(old(args).timer_property@) + added_timers(*old(args)),
        r is Ok ==> final(args).description@ == (if old(args).description@.len() == 0 {
            trim_ws(joined(strs(old(args).args_cmdline@)))
        } else {
            old(args).description@
        }),
        final(args).unit == old(args).unit,
        final(args).args_cmdline == old(args).args_cmdline,
        final(args).path_property == old(args).path_property,
        final(args).socket_property == old(args).socket_property,
        final(args).property == old(args).property,
{
    let timer = wants_timer_exec(args);
    if args.user {
        args.no_ask_password = true;
    }
    add_timers(args);
    let with_trigger = args.path_property.len() > 0 || args.socket_property.len() > 0 || timer;
    let t: u128 = if timer { 1 } else { 0 };
    if args.path_property.len() as u128 + args.socket_property.len() as u128 + t > 1 {
        return Err(RunError::MultipleTriggers);
    }
    if args.args_cmdline.len() == 0 && args.unit.as_str().is_empty() && !with_trigger {
        return Err(RunError::NoCommand);
    }
    if args.timer_property.len() > 0 && !timer {
        return Err(RunError::TimerPropertyWithoutTimer);
    }
    if args.description.as_str().is_empty() {
        args.description = joined_command(&args.args_cmdline);
    }
    Ok(())
}

/// The property `key=value`, where `cond` holds.
pub open spec fn prop_if(cond: bool, key: Seq<char>, value: Seq<char>) -> Seq<(Seq<char>, Seq<char>)> {
    if cond { seq![(key, value)] } else { Seq::empty() }
}

/// The properties of the service that runs the command: those of every
/// transient unit, then `SendSIGHUP`, `RemainAfterExit`, `Type`, `User`,
/// `Group`, `WorkingDirectory` and `Environment` where they are asked for,
/// and `ExecStart` where there is a command line; `envs_valid` says whether
/// every environment assignment is well formed.
pub open spec fn service_props(a: RunArgs, envs_valid: bool) -> Result<Seq<(Seq<char>, Seq<char>)>, RunError> {
    match unit_props(a.description@, a.collect, strs(a.property@)) {
        None => Err(RunError::InvalidProperty),
        Some(base) => if a.setenv@.len() > 0 && !envs_valid {
            Err(RunError::InvalidEnvironment)
        } else {
            Ok(base + prop_if(a.send_sighup, "SendSIGHUP"@, "true"@)
                + prop_if(a.remain_after_exit, "RemainAfterExit"@, "true"@)
                + prop_if(a.service_type@.len() > 0, "Type"@, a.service_type@)
                + prop_if(a.uid@.len() > 0, "User"@, a.uid@)
                + prop_if(a.gid@.len() > 0, "Group"@, a.gid@)
                + prop_if(a.working_directory@.len() > 0, "WorkingDirectory"@, a.working_directory@)
                + prop_if(a.setenv@.len() > 0, "Environment"@, trim_ws(joined(strs(a.setenv@))))
                + prop_if(a.args_cmdline@.len() > 0, "ExecStart"@, joined(strs(a.args_cmdline@))))
        },
    }
}

/// Appends `key=value` where `cond` holds.
fn push_prop_if(props: &mut Vec<UnitProperty>, cond: bool, key: &str, value: &str)
    ensures
        props_view(final(props)@) == props_view(old(props)@) + prop_if(cond, key@, value@),
{
    let ghost before = props_view(props@);
    if cond {
        props.push(UnitProperty { key: string_of(key), value: string_of(value) });
        assert(props_view(props@) =~= before + seq![(key@, value@)]);
    } else {
        assert(props_view(props@) =~= before + Seq::<(Seq<char>, Seq<char>)>::empty());
    }
}

/// The arguments joined with a space after each.
fn joined_args(cmd: &Vec<String>) -> (r: String)
    ensures
        r@ == joined(strs(cmd@)),
{
    let mut all = String::new();
    let mut k: usize = 0;
    assert(strs(cmd@).take(0) =~= Seq::<Seq<char>>::empty());
    while k < cmd.len()
        invariant
            0 <= k <= cmd.len(),
            all@ == joined(strs(cmd@).take(k as int)),
        decreases cmd.len() - k,
    {
        assert(strs(cmd@).take(k + 1).drop_last() =~= strs(cmd@).take(k as int));
        let next = concat(all.as_str(), cmd[k].as_str());
        all = concat(next.as_str(), " ");
        k += 1;
    }
    assert(strs(cmd@).take(k as int) =~= strs(cmd@));
    all
}

/// The properties of the service that runs the command (see
/// [`service_props`]); `envs_valid` says whether every environment
/// assignment of `args.setenv` is well formed.
pub fn transient_service_set_properties(args: &RunArgs, envs_valid: bool) -> (r: Result<Vec<UnitProperty>, RunError>)
    ensures
        match r {
            Ok(v) => service_props(*args, envs_valid) == Ok::<Seq<(Seq<char>, Seq<char>)>, RunError>(props_view(v@)),
            Err(e) => service_props(*args, envs_valid) == Err::<Seq<(Seq<char>, Seq<char>)>, RunError>(e),
        },
{
    let mut props = match transient_unit_set_properties(args.description.as_str(), args.collect, &args.property) {
        Ok(p) => p,
        Err(_) => return Err(RunError::InvalidProperty),
    };
    if args.setenv.len() > 0 && !envs_valid {
        return Err(RunError::InvalidEnvironment);
    }
    let ghost p0 = props_view(props@);
    push_prop_if(&mut props, args.send_sighup, "SendSIGHUP", "true");
    push_prop_if(&mut props, args.remain_after_exit, "RemainAfterExit", "true");
    push_prop_if(&mut props, !args.service_type.as_str().is_empty(), "Type", args.service_type.as_str());
    push_prop_if(&mut props, !args.uid.as_str().is_empty(), "User", args.uid.as_str());
    push_prop_if(&mut props, !args.gid.as_str().is_empty(), "Group", args.gid.as_str());
    push_prop_if(&mut props, !args.working_directory.as_str().is_empty(), "WorkingDirectory", args.working_directory.as_str());
    let envs = joined_command(&args.setenv);
    push_prop_if(&mut props, args.setenv.len() > 0, "Environment", envs.as_str());
    let exec = joined_args(&args.args_cmdline);
    push_prop_if(&mut props, args.args_cmdline.len() > 0, "ExecStart", exec.as_str());
    Ok(props)
}

/// The units that a run creates: the main unit's suffix and properties,
/// and, where the main unit is a trigger, the properties of the service
/// it starts.
#[derive(Debug)]
pub struct TransientPlan {
    pub suffix: String,
    pub properties: Vec<UnitProperty>,
    pub service_properties: Option<Vec<UnitProperty>>,
}

/// The units of a run: a path unit where path properties are given, else
/// a socket unit where socket properties are given, else a timer unit
/// (with `RemainAfterElapse=false`) where timer properties are given —
/// each with the service it starts — else the service alone.
pub open spec fn plan_of(a: RunArgs, envs_valid: bool) -> Result<(Seq<char>, Seq<(Seq<char>, Seq<char>)>, Option<Seq<(Seq<char>, Seq<char>)>>), RunError> {
    let trigger: Option<(Seq<char>, Seq<Seq<char>>)> = if a.path_property@.len() > 0 {
        Some((".path"@, strs(a.path_property@)))
    } else if a.socket_property@.len() > 0 {
        Some((".socket"@, strs(a.socket_property@)))
    } else if a.timer_property@.len() > 0 {
        Some((".timer"@, strs(a.timer_property@)))
    } else {
        None
    };
    match trigger {
        None => match service_props(a, envs_valid) {
            Ok(s) => Ok((".service"@, s, None)),
            Err(e) => Err(e),
        },
        Some((suffix, ps)) => match unit_props(a.description@, a.collect, ps) {
            None => Err(RunError::InvalidProperty),
            Some(main) => match service_props(a, envs_valid) {
                Err(e) => Err(e),
                Ok(s) => Ok((
                    suffix,
                    if a.path_property@.len() == 0 && a.socket_property@.len() == 0 {
                        main.push(("RemainAfterElapse"@, "false"@))
                    } else {
                        main
                    },
                    Some(s),
                )),
            },
        },
    }
}

/// The view of a plan.
pub open spec fn transient_plan_view(p: TransientPlan) -> (Seq<char>, Seq<(Seq<char>, Seq<char>)>, Option<Seq<(Seq<char>, Seq<char>)>>) {
    (p.suffix@, props_view(p.properties@), match p.service_properties {
        Some(v) => Some(props_view(v@)),
        None => None,
    })
}

/// Lays out the units of a run (see [`plan_of`]); the units' names are
/// chosen by the caller from the suffix.
pub fn transient_plan(args: &RunArgs, envs_valid: bool) -> (r: Result<TransientPlan, RunError>)
    ensures
        match r {
            Ok(p) => plan_of(*args, envs_valid) == Ok::<(Seq<char>, Seq<(Seq<char>, Seq<char>)>, Option<Seq<(Seq<char>, Seq<char>)>>), RunError>(transient_plan_view(p)),
            Err(e) => plan_of(*args, envs_valid) == Err::<(Seq<char>, Seq<(Seq<char>, Seq<char>)>, Option<Seq<(Seq<char>, Seq<char>)>>), RunError>(e),
        },
{
    let (suffix, props): (&str, &Vec<String>) = if args.path_property.len() > 0 {
        (".path", &args.path_property)
    } else if args.socket_property.len() > 0 {
        (".socket", &args.socket_property)
    } else if args.timer_property.len() > 0 {
        (".timer", &args.timer_property)
    } else {
        return match transient_service_set_properties(args, envs_valid) {
            Ok(s) => Ok(TransientPlan { suffix: string_of(".service"), properties: s, service_properties: None }),
            Err(e) => Err(e),
        };
    };
    let mut main = match transient_unit_set_properties(args.description.as_str(), args.collect, props) {
        Ok(m) => m,
        Err(_) => return Err(RunError::InvalidProperty),
    };
    let service = match transient_service_set_properties(args, envs_valid) {
        Ok(s) => s,
        Err(e) => return Err(e),
    };
    if args.path_property.len() == 0 && args.socket_property.len() == 0 {
        let ghost m0 = props_view(main@);
        main.push(UnitProperty { key: string_of("RemainAfterElapse"), value: string_of("false") });
        assert(props_view(main@) =~= m0.push(("RemainAfterElapse"@, "false"@)));
    }
    Ok(TransientPlan { suffix: string_of(suffix), properties: main, service_properties: Some(service) })
}

/// `name` with `suffix` appended, unless it already ends with it.
pub open spec fn with_suffix(name: Seq<char>, suffix: Seq<char>) -> Seq<char> {
    if suffix.len() <= name.len() && name.subrange(name.len() - suffix.len(), name.len() as int) == suffix {
        name
    } else {
        name + suffix
    }
}

/// The unit name for a given name and suffix (the name of a run without
/// one is chosen by the caller).
pub fn unit_name_with_suffix(name: &str, suffix: &str) -> (r: String)
    ensures
        r@ == with_suffix(name@, suffix@),
{
    let n = chars_of(name);
    let sx = chars_of(suffix);
    if sx.len() <= n.len() {
        let start = n.len() - sx.len();
        if has_prefix_at(&n, start, &sx) {
            assert(n@.subrange(start as int, n@.len() as int).subrange(0, sx@.len() as int) =~= n@.subrange(start as int, n@.len() as int));
            return string_of(name);
        }
        assert(n@.subrange(start as int, n@.len() as int).subrange(0, sx@.len() as int) =~= n@.subrange(start as int, n@.len() as int));
    }
    concat(name, suffix)
}

/// The position of the last `.` in `s`, if any.
pub open spec fn last_dot(s: Seq<char>) -> Option<int>
    decreases s.len(),
{
    if s.len() == 0 {
        None
    } else if s.last() == '.' {
        Some(s.len() - 1)
    } else {
        last_dot(s.drop_last())
    }
}

/// `name` with the part from its last `.` on replaced by `suffix`; `None`
/// where it has no `.`.
pub fn replace_unit_suffix(name: &str, suffix: &str) -> (r: Option<String>)
    ensures
        match last_dot(name@) {
            Some(p) => r matches Some(v) && v@ == name@.subrange(0, p) + suffix@,
            None => r is None,
        },
{
    let n = chars_of(name);
    let mut k = n.len();
    assert(n@.subrange(0, k as int) =~= n@);
    while k > 0 && n[k - 1] != '.'
        invariant
            0 <= k <= n@.len(),
            n@ == name@,
            last_dot(name@) == last_dot(n@.subrange(0, k as int)),
        decreases k,
    {
        assert(n@.subrange(0, k as int).drop_last() =~= n@.subrange(0, k - 1));
        k -= 1;
    }
    if k == 0 {
        assert(n@.subrange(0, 0) =~= Seq::<char>::empty());
        return None;
    }
    let head = string_from_range(&n, 0, k - 1);
    Some(concat(head.as_str(), suffix))
}

/// Adding a suffix a second time changes nothing: the name already ends
/// with it.
pub proof fn law_with_suffix_idempotent(name: Seq<char>, suffix: Seq<char>)
    ensures
        with_suffix(with_suffix(name, suffix), suffix) == with_suffix(name, suffix),
{
    let n1 = with_suffix(name, suffix);
    if n1 != name {
        assert(n1 == name + suffix);
        assert(n1.subrange(n1.len() - suffix.len(), n1.len() as int) =~= suffix);
    }
}

} // verus!
