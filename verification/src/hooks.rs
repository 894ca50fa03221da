//! Outage command hooks (`--on-outage` / `--on-recovery`): which command runs
//! when an outage is declared and when it recovers, with which environment,
//! and whether one may start at all.
//!
//! Hooks are single-flight per target and per kind: while one is still
//! running, a new event of the same kind is skipped, neither queued nor a
//! reason to kill the one that runs.

use vstd::prelude::*;

use crate::recorder::outage_start_fields;
use crate::text::{all_digits, decimal_value, law_decimal_reads_back, lemma_decimal_digits};
use crate::text::{fixed_point_value, law_fixed_point_reads_back};
use crate::text::{decimal, decimal_string, fixed_point, pow10, push_fixed_point, texts};
use crate::time::{epoch_millis, law_epoch_millis, to_ms};
use crate::time::{Duration, SystemTime, NANOS_PER_SEC};

verus! {

/// Hard ceiling, in seconds, on how long a hook command and everything it
/// spawns may run before the whole tree is killed.
pub const HOOK_TIMEOUT_SECS: u64 = 30;

/// A POSIX `sh` script that runs the user's hook command with the whole
/// resulting process tree bounded by a timeout that is enforced inside that
/// same tree: it backgrounds the command and a watchdog that kills the whole
/// process group after the timeout, and once the command has ended it sweeps
/// the group itself, first with `TERM` and a second later with `KILL`. The
/// negative process group follows the signal without a `--`, which the `kill`
/// of `dash` does not take. Its positional arguments, never interpolated into
/// its text:
///   - `$0` = `sh` (unused)
///   - `$1` = the shell that runs the user's command
///   - `$2` = the user's command
///   - `$3` = the timeout in seconds
pub const HOOK_WRAPPER: &'static str =
    "\"$1\" -c \"$2\" & u=$!; ( sleep \"$3\"; kill -KILL -$$ ) 2>/dev/null & w=$!; wait \"$u\"; s=$?; kill \"$w\" 2>/dev/null; trap '' TERM; kill -TERM -$$ 2>/dev/null; sleep 1; kill -KILL -$$ 2>/dev/null; exit \"$s\"";

/// The texts of name and value pairs.
pub open spec fn pairs(env: Seq<(String, String)>) -> Seq<(Seq<char>, Seq<char>)> {
    env.map_values(|p: (String, String)| (p.0@, p.1@))
}

/// Every variable that is ever set for a hook. A hook never inherits one of
/// them.
pub open spec fn reserved_vars() -> Seq<Seq<char>> {
    seq!["EKG_HOST"@, "EKG_OUTAGE_START"@, "EKG_OUTAGE_SECS"@]
}

/// The variables of an `--on-outage` hook.
pub open spec fn outage_vars(host: Seq<char>, started: int) -> Seq<(Seq<char>, Seq<char>)> {
    seq![("EKG_HOST"@, host), ("EKG_OUTAGE_START"@, decimal(epoch_millis(started)))]
}

/// The variables of an `--on-recovery` hook: those of the outage, plus its
/// whole-second duration.
pub open spec fn recovery_vars(host: Seq<char>, started: int, duration: nat) -> Seq<
    (Seq<char>, Seq<char>),
> {
    outage_vars(host, started).push(
        ("EKG_OUTAGE_SECS"@, decimal(duration / (NANOS_PER_SEC as nat))),
    )
}

/// The shell of the user, or `sh`.
pub open spec fn shell_or_sh(shell: Option<Seq<char>>) -> Seq<char> {
    match shell {
        Some(s) => s,
        None => "sh"@,
    }
}

/// Env vars passed to an `--on-outage` hook invocation.
pub fn outage_env(host: &str, started_wall: SystemTime) -> (env: Vec<(String, String)>)
    ensures
        pairs(env@) == outage_vars(host@, started_wall@),
{
    let mut env: Vec<(String, String)> = Vec::new();
    env.push(("EKG_HOST".to_string(), host.to_string()));
    env.push(("EKG_OUTAGE_START".to_string(), decimal_string(to_ms(started_wall))));
    assert(pairs(env@) =~= outage_vars(host@, started_wall@));
    env
}

/// Env vars passed to an `--on-recovery` hook invocation: everything
/// `outage_env` provides, plus `EKG_OUTAGE_SECS`, the outage's whole-second
/// duration.
pub fn recovery_env(host: &str, started_wall: SystemTime, duration: Duration) -> (env: Vec<
    (String, String),
>)
    ensures
        pairs(env@) == recovery_vars(host@, started_wall@, duration@),
{
    let mut env = outage_env(host, started_wall);
    env.push(("EKG_OUTAGE_SECS".to_string(), decimal_string(duration.as_secs() as u128)));
    assert(pairs(env@) =~= recovery_vars(host@, started_wall@, duration@));
    env
}

/// Resolves which shell runs hook commands, given the user's shell or lack of
/// one.
pub fn resolve_shell(shell_var: Option<String>) -> (shell: String)
    ensures
        shell@ == shell_or_sh(opt_text(shell_var)),
{
    match shell_var {
        Some(s) => s,
        None => "sh".to_string(),
    }
}

/// The text of an optional string.
pub open spec fn opt_text(s: Option<String>) -> Option<Seq<char>> {
    match s {
        Some(s) => Some(s@),
        None => None,
    }
}

/// Decides whether a new hook invocation should proceed, given whether the
/// previous invocation of the same kind is still running.
pub fn should_fire(previously_running: bool) -> (r: bool)
    ensures
        r == !previously_running,
{
    !previously_running
}

/// The ceiling on how long a hook may run.
pub fn hook_timeout() -> (d: Duration)
    ensures
        d@ == HOOK_TIMEOUT_SECS * NANOS_PER_SEC,
{
    Duration::from_secs(HOOK_TIMEOUT_SECS)
}

/// A span in seconds, with its decimal fraction.
pub fn seconds_text(d: Duration) -> (s: String)
    ensures
        s@ == fixed_point(d@, 9),
{
    let mut out = String::new();
    push_fixed_point(&mut out, d.as_nanos(), 9);
    assert(out@ =~= fixed_point(d@, 9));
    out
}

/// A process to start for a hook.
pub struct HookCommand {
    /// The program to run.
    pub program: String,
    /// Its arguments.
    pub args: Vec<String>,
    /// The variables that it must not inherit.
    pub scrub: Vec<String>,
    /// The variables that it gets, on top of what it inherits.
    pub env: Vec<(String, String)>,
}

/// What a hook's process is made of.
#[verifier::ext_equal]
pub struct HookCommandView {
    pub program: Seq<char>,
    pub args: Seq<Seq<char>>,
    pub scrub: Seq<Seq<char>>,
    pub env: Seq<(Seq<char>, Seq<char>)>,
}

impl View for HookCommand {
    type V = HookCommandView;

    open spec fn view(&self) -> HookCommandView {
        HookCommandView {
            program: self.program@,
            args: texts(self.args@),
            scrub: texts(self.scrub@),
            env: pairs(self.env@),
        }
    }
}

/// The process that runs the hook command `cmd`: the wrapper script under
/// `sh`, with the user's shell, the command and the timeout as its arguments.
pub open spec fn hook_process(
    cmd: Seq<char>,
    env: Seq<(Seq<char>, Seq<char>)>,
    shell: Option<Seq<char>>,
    timeout: nat,
) -> HookCommandView {
    HookCommandView {
        program: "sh"@,
        args: seq![
            "-c"@,
            HOOK_WRAPPER@,
            "sh"@,
            shell_or_sh(shell),
            cmd,
            fixed_point(timeout, 9),
        ],
        scrub: reserved_vars(),
        env,
    }
}

/// The process that runs the hook command `cmd` within `timeout`.
pub fn hook_command(
    cmd: &str,
    env: &[(String, String)],
    shell_var: Option<String>,
    timeout: Duration,
) -> (c: HookCommand)
    ensures
        c@ == hook_process(cmd@, pairs(env@), opt_text(shell_var), timeout@),
{
    let mut args: Vec<String> = Vec::new();
    args.push("-c".to_string());
    args.push(HOOK_WRAPPER.to_string());
    args.push("sh".to_string());
    args.push(resolve_shell(shell_var));
    args.push(cmd.to_string());
    args.push(seconds_text(timeout));
    let mut scrub: Vec<String> = Vec::new();
    scrub.push("EKG_HOST".to_string());
    scrub.push("EKG_OUTAGE_START".to_string());
    scrub.push("EKG_OUTAGE_SECS".to_string());
    let mut vars: Vec<(String, String)> = Vec::new();
    let mut i: usize = 0;
    while i < env.len()
        invariant
            i <= env@.len(),
            pairs(vars@) =~= pairs(env@).take(i as int),
        decreases env@.len() - i,
    {
        let ghost before = vars@;
        let name = env[i].0.clone();
        let value = env[i].1.clone();
        vars.push((name, value));
        assert(pairs(vars@) =~= pairs(before).push((env@[i as int].0@, env@[i as int].1@)));
        i += 1;
    }
    let c = HookCommand { program: "sh".to_string(), args, scrub, env: vars };
    proof {
        let expected = hook_process(cmd@, pairs(env@), opt_text(shell_var), timeout@);
        assert(c@.args =~= expected.args);
        assert(c@.scrub =~= expected.scrub);
        assert(c@.env =~= expected.env);
    }
    c
}

/// The two kinds of hooks.
#[derive(Debug, Clone, Copy, PartialEq, Eq, Structural)]
pub enum HookKind {
    Outage,
    Recovery,
}

/// Which hooks of one target are running.
#[verifier::ext_equal]
pub struct HooksView {
    pub outage_running: bool,
    pub recovery_running: bool,
}

impl HooksView {
    /// Whether the hook of `kind` is running.
    pub open spec fn running(self, kind: HookKind) -> bool {
        match kind {
            HookKind::Outage => self.outage_running,
            HookKind::Recovery => self.recovery_running,
        }
    }

    /// The hook of `kind` is running, or not.
    pub open spec fn with(self, kind: HookKind, running: bool) -> HooksView {
        match kind {
            HookKind::Outage => HooksView { outage_running: running, ..self },
            HookKind::Recovery => HooksView { recovery_running: running, ..self },
        }
    }
}

/// The single-flight state for one target's `--on-outage` / `--on-recovery`.
/// Each target has its own.
pub struct Hooks {
    outage_running: bool,
    recovery_running: bool,
}

impl View for Hooks {
    type V = HooksView;

    closed spec fn view(&self) -> HooksView {
        HooksView {
            outage_running: self.outage_running,
            recovery_running: self.recovery_running,
        }
    }
}

impl Hooks {
    /// No hook is running.
    pub fn new() -> (h: Hooks)
        ensures
            h@ == (HooksView { outage_running: false, recovery_running: false }),
    {
        Hooks { outage_running: false, recovery_running: false }
    }

    /// Fires `--on-outage`: the process to start, or none if a previous
    /// `--on-outage` invocation is still running.
    pub fn fire_outage(
        &mut self,
        cmd: &str,
        env: &[(String, String)],
        shell_var: Option<String>,
    ) -> (c: Option<HookCommand>)
        ensures
            final(self)@ == old(self)@.with(HookKind::Outage, true),
            fired(
                old(self)@.running(HookKind::Outage),
                cmd@,
                pairs(env@),
                opt_text(shell_var),
                c,
            ),
    {
        fire(cmd, env, shell_var, &mut self.outage_running)
    }

    /// Fires `--on-recovery`, with the same single-flight semantics as
    /// `fire_outage`, tracked independently.
    pub fn fire_recovery(
        &mut self,
        cmd: &str,
        env: &[(String, String)],
        shell_var: Option<String>,
    ) -> (c: Option<HookCommand>)
        ensures
            final(self)@ == old(self)@.with(HookKind::Recovery, true),
            fired(
                old(self)@.running(HookKind::Recovery),
                cmd@,
                pairs(env@),
                opt_text(shell_var),
                c,
            ),
    {
        fire(cmd, env, shell_var, &mut self.recovery_running)
    }

    /// The invocation of `kind` has ended, or could not be started: the next
    /// event of that kind may fire.
    pub fn finished(&mut self, kind: HookKind)
        ensures
            final(self)@ == old(self)@.with(kind, false),
    {
        match kind {
            HookKind::Outage => {
                self.outage_running = false;
            },
            HookKind::Recovery => {
                self.recovery_running = false;
            },
        }
    }
}

impl Default for Hooks {
    fn default() -> (h: Hooks)
        ensures
            h@ == (HooksView { outage_running: false, recovery_running: false }),
    {
        Hooks::new()
    }
}

/// What firing a hook hands out: its process, unless one of its kind was
/// running.
pub open spec fn fired(
    running: bool,
    cmd: Seq<char>,
    env: Seq<(Seq<char>, Seq<char>)>,
    shell: Option<Seq<char>>,
    c: Option<HookCommand>,
) -> bool {
    match c {
        Some(c) => !running && c@ == hook_process(
            cmd,
            env,
            shell,
            (HOOK_TIMEOUT_SECS * NANOS_PER_SEC) as nat,
        ),
        None => running,
    }
}

/// Single-flight gate for one hook kind. If the previous invocation of this
/// kind has not finished, there is nothing to start; otherwise the process to
/// start, and `running` is set.
pub fn fire(
    cmd: &str,
    env: &[(String, String)],
    shell_var: Option<String>,
    running: &mut bool,
) -> (c: Option<HookCommand>)
    ensures
        *final(running),
        fired(*old(running), cmd@, pairs(env@), opt_text(shell_var), c),
{
    let previously_running = *running;
    *running = true;
    if !should_fire(previously_running) {
        return None;
    }
    Some(hook_command(cmd, env, shell_var, hook_timeout()))
}

/// `inherited` with the variables of `env` set in order, a later one replacing
/// an earlier one of the same name.
pub open spec fn with_vars(
    inherited: Map<Seq<char>, Seq<char>>,
    env: Seq<(Seq<char>, Seq<char>)>,
) -> Map<Seq<char>, Seq<char>>
    decreases env.len(),
{
    if env.len() == 0 {
        inherited
    } else {
        with_vars(inherited, env.drop_last()).insert(env.last().0, env.last().1)
    }
}

/// The environment in which the process `c` runs, where its parent's is
/// `inherited`: the scrubbed variables are removed first, then its own set.
pub open spec fn child_env(
    inherited: Map<Seq<char>, Seq<char>>,
    c: HookCommandView,
) -> Map<Seq<char>, Seq<char>> {
    with_vars(inherited.remove_keys(c.scrub.to_set()), c.env)
}

/// The reserved names are three different names.
proof fn lemma_reserved_vars_differ()
    ensures
        "EKG_HOST"@ != "EKG_OUTAGE_START"@,
        "EKG_HOST"@ != "EKG_OUTAGE_SECS"@,
        "EKG_OUTAGE_START"@ != "EKG_OUTAGE_SECS"@,
{
    reveal_strlit("EKG_HOST");
    reveal_strlit("EKG_OUTAGE_START");
    reveal_strlit("EKG_OUTAGE_SECS");
    assert("EKG_HOST"@.len() == 8);
    assert("EKG_OUTAGE_START"@.len() == 16);
    assert("EKG_OUTAGE_SECS"@.len() == 15);
}

/// Whatever the environment of the monitor holds, an `--on-outage` hook sees
/// its own host and start time and no duration, an `--on-recovery` hook sees
/// its own host, start time and duration, and every other variable is
/// inherited unchanged.
pub proof fn law_hook_environment(
    inherited: Map<Seq<char>, Seq<char>>,
    cmd: Seq<char>,
    shell: Option<Seq<char>>,
    timeout: nat,
    host: Seq<char>,
    started: int,
    duration: nat,
    name: Seq<char>,
)
    ensures
        ({
            let start = decimal(epoch_millis(started));
            let secs = decimal(duration / (NANOS_PER_SEC as nat));
            let outage = child_env(
                inherited,
                hook_process(cmd, outage_vars(host, started), shell, timeout),
            );
            let recovery = child_env(
                inherited,
                hook_process(cmd, recovery_vars(host, started, duration), shell, timeout),
            );
            &&& outage.contains_pair("EKG_HOST"@, host)
            &&& outage.contains_pair("EKG_OUTAGE_START"@, start)
            &&& !outage.contains_key("EKG_OUTAGE_SECS"@)
            &&& recovery.contains_pair("EKG_HOST"@, host)
            &&& recovery.contains_pair("EKG_OUTAGE_START"@, start)
            &&& recovery.contains_pair("EKG_OUTAGE_SECS"@, secs)
            &&& !reserved_vars().contains(name) ==> {
                &&& outage.contains_key(name) == inherited.contains_key(name)
                &&& recovery.contains_key(name) == inherited.contains_key(name)
                &&& inherited.contains_key(name) ==> outage[name] == inherited[name]
                    && recovery[name] == inherited[name]
            }
        }),
{
    lemma_reserved_vars_differ();
    let reserved = reserved_vars();
    assert(reserved[0] == "EKG_HOST"@);
    assert(reserved[1] == "EKG_OUTAGE_START"@);
    assert(reserved[2] == "EKG_OUTAGE_SECS"@);
    assert(reserved.to_set().contains("EKG_OUTAGE_SECS"@));
    let base = inherited.remove_keys(reserved.to_set());
    let vars = outage_vars(host, started);
    let host_only = vars.drop_last();
    assert(host_only =~= seq![("EKG_HOST"@, host)]);
    assert(host_only.drop_last() =~= seq![]);
    assert(with_vars(base, host_only.drop_last()) == base);
    assert(with_vars(base, host_only) == base.insert("EKG_HOST"@, host));
    assert(with_vars(base, vars) == base.insert("EKG_HOST"@, host).insert(
        "EKG_OUTAGE_START"@,
        decimal(epoch_millis(started)),
    ));
    let more = recovery_vars(host, started, duration);
    assert(more.drop_last() =~= vars);
}

/// The start of an outage reads the same in the environment of its hooks and
/// in its log record.
pub proof fn law_outage_start_agrees_with_log(host: Seq<char>, started: int, duration: nat)
    ensures
        outage_vars(host, started)[1] == (
            "EKG_OUTAGE_START"@,
            outage_start_fields(epoch_millis(started), host)[0].1,
        ),
        recovery_vars(host, started, duration)[1] == outage_vars(host, started)[1],
        outage_start_fields(epoch_millis(started), host)[0].0 == "ts"@,
{
}

/// An `--on-recovery` hook gets everything that the `--on-outage` hook of the
/// same outage got, and one variable more.
pub proof fn law_recovery_extends_outage(host: Seq<char>, started: int, duration: nat)
    ensures
        recovery_vars(host, started, duration).len() == outage_vars(host, started).len() + 1,
        recovery_vars(host, started, duration).drop_last() == outage_vars(host, started),
{
    assert(recovery_vars(host, started, duration).drop_last() =~= outage_vars(host, started));
}

/// The script that runs a hook is the same for every command: the command, the
/// shell and the timeout reach it as arguments of their own, whatever characters
/// they hold.
pub proof fn law_command_stays_out_of_script(
    cmd: Seq<char>,
    env: Seq<(Seq<char>, Seq<char>)>,
    shell: Option<Seq<char>>,
    timeout: nat,
)
    ensures
        ({
            let c = hook_process(cmd, env, shell, timeout);
            &&& c.args.len() == 6
            &&& c.args[0] == "-c"@
            &&& c.args[1] == HOOK_WRAPPER@
            &&& c.args[3] == shell_or_sh(shell)
            &&& c.args[4] == cmd
            &&& c.args[5] == fixed_point(timeout, 9)
        }),
{
}

/// The timeout of the hooks is written as a plain whole number of seconds.
pub proof fn law_hook_timeout_is_plain_integer()
    ensures
        fixed_point((HOOK_TIMEOUT_SECS * NANOS_PER_SEC) as nat, 9) == decimal(
            HOOK_TIMEOUT_SECS as nat,
        ),
{
    reveal_with_fuel(pow10, 10);
    assert(pow10(9) == 1_000_000_000);
}

/// What happens to the hooks of one target: one is fired, or one has ended.
pub enum HookEvent {
    Fire(HookKind),
    End(HookKind),
}

/// Which hooks are running after `events`.
pub open spec fn hooks_after(events: Seq<HookEvent>) -> HooksView
    decreases events.len(),
{
    if events.len() == 0 {
        HooksView { outage_running: false, recovery_running: false }
    } else {
        match events.last() {
            HookEvent::Fire(kind) => hooks_after(events.drop_last()).with(kind, true),
            HookEvent::End(kind) => hooks_after(events.drop_last()).with(kind, false),
        }
    }
}

/// How many hooks of `kind` were started in `events`: each firing counts that
/// finds none of its kind running.
pub open spec fn started(events: Seq<HookEvent>, kind: HookKind) -> nat
    decreases events.len(),
{
    if events.len() == 0 {
        0
    } else {
        let before = events.drop_last();
        started(before, kind) + if events.last() == HookEvent::Fire(kind) && !hooks_after(
            before,
        ).running(kind) {
            1nat
        } else {
            0
        }
    }
}

/// How many hooks of `kind` ended in `events`.
pub open spec fn ended(events: Seq<HookEvent>, kind: HookKind) -> nat
    decreases events.len(),
{
    if events.len() == 0 {
        0
    } else {
        let before = events.drop_last();
        ended(before, kind) + if events.last() == HookEvent::End(kind) && hooks_after(
            before,
        ).running(kind) {
            1nat
        } else {
            0
        }
    }
}

/// At any time at most one hook of a kind is in flight, however many events
/// arrive, and one is exactly while it is marked as running.
pub proof fn law_single_flight(events: Seq<HookEvent>, kind: HookKind)
    ensures
        started(events, kind) - ended(events, kind) == if hooks_after(events).running(kind) {
            1int
        } else {
            0int
        },
    decreases events.len(),
{
    if events.len() > 0 {
        law_single_flight(events.drop_last(), kind);
    }
}

/// The two kinds do not block each other: what happens to one leaves the other
/// as it was.
pub proof fn law_kinds_are_independent(hooks: HooksView, kind: HookKind, other: HookKind, to: bool)
    requires
        kind != other,
    ensures
        hooks.with(kind, to).running(other) == hooks.running(other),
{
}

/// Once a hook has ended, the next event of its kind fires again.
pub proof fn law_fires_again_after_end(events: Seq<HookEvent>, kind: HookKind)
    ensures
        started(events.push(HookEvent::End(kind)).push(HookEvent::Fire(kind)), kind) == started(
            events,
            kind,
        ) + 1,
{
    let done = events.push(HookEvent::End(kind));
    let again = done.push(HookEvent::Fire(kind));
    assert(done.drop_last() =~= events);
    assert(again.drop_last() =~= done);
    assert(!hooks_after(done).running(kind));
    assert(started(done, kind) == started(events, kind));
}

/// The numbers that a hook gets read back: the start as the millisecond since
/// the epoch in which the outage began, the duration as whole seconds.
pub proof fn law_hook_numbers_read_back(host: Seq<char>, started: int, duration: nat)
    requires
        started >= 0,
    ensures
        outage_vars(host, started)[0] == ("EKG_HOST"@, host),
        outage_vars(host, started)[1].0 == "EKG_OUTAGE_START"@,
        ({
            let ms = decimal_value(outage_vars(host, started)[1].1);
            ms * 1_000_000 <= started < (ms + 1) * 1_000_000
        }),
        recovery_vars(host, started, duration)[2].0 == "EKG_OUTAGE_SECS"@,
        ({
            let secs = decimal_value(recovery_vars(host, started, duration)[2].1);
            secs * 1_000_000_000 <= duration < (secs + 1) * 1_000_000_000
        }),
        all_digits(outage_vars(host, started)[1].1),
        all_digits(recovery_vars(host, started, duration)[2].1),
{
    law_epoch_millis(started);
    law_decimal_reads_back(epoch_millis(started));
    law_decimal_reads_back(duration / (NANOS_PER_SEC as nat));
    lemma_decimal_digits(epoch_millis(started));
    lemma_decimal_digits(duration / (NANOS_PER_SEC as nat));
}

/// Firing a hook hands out a process exactly where none of its kind is running:
/// the user's command under the user's shell, or under `sh` where there is none,
/// with half a minute to run, the variables it was given, and none of the
/// reserved ones inherited.
pub proof fn law_fired_process(
    running: bool,
    cmd: Seq<char>,
    env: Seq<(Seq<char>, Seq<char>)>,
    shell: Option<Seq<char>>,
    c: Option<HookCommand>,
    name: Seq<char>,
)
    requires
        fired(running, cmd, env, shell, c),
    ensures
        c is Some <==> !running,
        c matches Some(c) ==> {
            &&& c@.program == "sh"@
            &&& c@.args.len() == 6
            &&& c@.args[0] == "-c"@
            &&& c@.args[1] == HOOK_WRAPPER@
            &&& c@.args[2] == "sh"@
            &&& shell matches Some(s) ==> c@.args[3] == s
            &&& shell is None ==> c@.args[3] == "sh"@
            &&& c@.args[4] == cmd
            &&& c@.args[5] == "30"@
            &&& c@.env == env
            &&& c@.scrub.contains(name) <==> (name == "EKG_HOST"@ || name == "EKG_OUTAGE_START"@
                || name == "EKG_OUTAGE_SECS"@)
        },
{
    reveal_with_fuel(pow10, 10);
    reveal_strlit("30");
    assert(pow10(9) == 1_000_000_000);
    assert(decimal(3) =~= seq!['3']);
    assert(decimal(30) =~= "30"@);
    let reserved = reserved_vars();
    assert(reserved[0] == "EKG_HOST"@ && reserved[1] == "EKG_OUTAGE_START"@ && reserved[2]
        == "EKG_OUTAGE_SECS"@);
}

/// Marking a kind as running or not marks that kind, and only it.
pub proof fn law_marks_are_kept(hooks: HooksView, kind: HookKind, to: bool)
    ensures
        hooks.with(kind, to).running(kind) == to,
        hooks.running(HookKind::Outage) == hooks.outage_running,
        hooks.running(HookKind::Recovery) == hooks.recovery_running,
        hooks.with(kind, hooks.running(kind)) == hooks,
{
}

/// The texts of pairs, of an optional string and of a process are theirs, one by
/// one and in order.
pub proof fn law_process_is_told_by_its_texts(
    env: Seq<(String, String)>,
    i: int,
    s: Option<String>,
    c: HookCommand,
)
    ensures
        pairs(env).len() == env.len(),
        0 <= i < env.len() ==> pairs(env)[i] == (env[i].0@, env[i].1@),
        opt_text(s) is Some <==> s is Some,
        s matches Some(text) ==> opt_text(s) == Some(text@),
        c@.program == c.program@,
        c@.args.len() == c.args@.len() && c@.scrub.len() == c.scrub@.len(),
        0 <= i < c.args@.len() ==> c@.args[i] == c.args@[i]@,
        0 <= i < c.scrub@.len() ==> c@.scrub[i] == c.scrub@[i]@,
        c@.env == pairs(c.env@),
{
}

/// A hook fires exactly where none of its kind is running; it has half a minute
/// to run; and the user's shell runs it, or `sh` where there is none.
pub proof fn law_hook_rules(
    running: bool,
    fires: bool,
    timeout: Duration,
    user: Option<String>,
    shell: String,
)
    requires
        call_ensures(should_fire, (running,), fires),
        call_ensures(hook_timeout, (), timeout),
        call_ensures(resolve_shell, (user,), shell),
    ensures
        fires <==> !running,
        timeout@ == 30_000_000_000,
        user matches Some(s) ==> shell@ == s@,
        user is None ==> shell@ == "sh"@,
{
}

/// A timeout that is written for a hook reads back, to the nanosecond.
pub proof fn law_timeout_reads_back(d: Duration, text: String)
    requires
        call_ensures(seconds_text, (d,), text),
    ensures
        fixed_point_value(text@, 9) == d@,
        pow10(9) == 1_000_000_000,
{
    law_fixed_point_reads_back(d@, 9);
    reveal_with_fuel(pow10, 10);
}

/// What the hooks of an outage are given: the host, the millisecond since the
/// epoch in which it began and, when it has ended, its length in whole seconds.
pub proof fn law_hook_variables(
    host: &str,
    t: SystemTime,
    ms: nat,
    duration: Duration,
    secs: nat,
    outage: Vec<(String, String)>,
    recovery: Vec<(String, String)>,
)
    requires
        ms * 1_000_000 <= t@ < (ms + 1) * 1_000_000,
        secs * 1_000_000_000 <= duration@ < (secs + 1) * 1_000_000_000,
        call_ensures(outage_env, (host, t), outage),
        call_ensures(recovery_env, (host, t, duration), recovery),
    ensures
        outage@.len() == 2,
        outage@[0].0@ == "EKG_HOST"@ && outage@[0].1@ == host@,
        outage@[1].0@ == "EKG_OUTAGE_START"@ && outage@[1].1@ == decimal(ms),
        recovery@.len() == 3,
        recovery@[0].0@ == "EKG_HOST"@ && recovery@[0].1@ == host@,
        recovery@[1].0@ == "EKG_OUTAGE_START"@ && recovery@[1].1@ == decimal(ms),
        recovery@[2].0@ == "EKG_OUTAGE_SECS"@ && recovery@[2].1@ == decimal(secs),
{
    assert(epoch_millis(t@) == ms);
    assert(duration@ / (NANOS_PER_SEC as nat) == secs);
    let some = pairs(outage@);
    let all = pairs(recovery@);
    assert(some.len() == outage@.len() && all.len() == recovery@.len());
    assert(some[0] == (outage@[0].0@, outage@[0].1@));
    assert(some[1] == (outage@[1].0@, outage@[1].1@));
    assert(all[0] == (recovery@[0].0@, recovery@[0].1@));
    assert(all[1] == (recovery@[1].0@, recovery@[1].1@));
    assert(all[2] == (recovery@[2].0@, recovery@[2].1@));
}

/// Firing a hook marks its kind as running and starts it exactly where it was
/// not; its end marks it as not running. The other kind stays as it is.
pub proof fn law_firing_marks_its_kind(
    a: &mut Hooks,
    b: &mut Hooks,
    c: &mut Hooks,
    cmd: &str,
    env: &[(String, String)],
    shell: Option<String>,
    outage: Option<HookCommand>,
    recovery: Option<HookCommand>,
    kind: HookKind,
    r: (),
)
    requires
        call_ensures(Hooks::fire_outage, (a, cmd, env, shell), outage),
        call_ensures(Hooks::fire_recovery, (b, cmd, env, shell), recovery),
        call_ensures(Hooks::finished, (c, kind), r),
    ensures
        outage is Some <==> !old(a)@.outage_running,
        final(a)@.outage_running && final(a)@.recovery_running == old(a)@.recovery_running,
        recovery is Some <==> !old(b)@.recovery_running,
        final(b)@.recovery_running && final(b)@.outage_running == old(b)@.outage_running,
        kind == HookKind::Outage ==> !final(c)@.outage_running && final(c)@.recovery_running
            == old(c)@.recovery_running,
        kind == HookKind::Recovery ==> !final(c)@.recovery_running && final(c)@.outage_running
            == old(c)@.outage_running,
        outage matches Some(run) ==> run@.args[4] == cmd@,
        recovery matches Some(run) ==> run@.args[4] == cmd@,
{
}

/// The script of a hook runs the command in the background and a watchdog beside
/// it that kills the whole group after the timeout; it waits for the command,
/// calls the watchdog off, sweeps the group with `TERM` and a second later with
/// `KILL`, and ends as the command did.
pub proof fn law_hook_script()
    ensures
        HOOK_WRAPPER@ == "\"$1\" -c \"$2\" & u=$!; "@
            + "( sleep \"$3\"; kill -KILL -$$ ) 2>/dev/null & w=$!; "@
            + "wait \"$u\"; s=$?; kill \"$w\" 2>/dev/null; "@
            + "trap '' TERM; kill -TERM -$$ 2>/dev/null; "@
            + "sleep 1; kill -KILL -$$ 2>/dev/null; exit \"$s\""@,
{
    reveal_strlit(
        "\"$1\" -c \"$2\" & u=$!; ( sleep \"$3\"; kill -KILL -$$ ) 2>/dev/null & w=$!; wait \"$u\"; s=$?; kill \"$w\" 2>/dev/null; trap '' TERM; kill -TERM -$$ 2>/dev/null; sleep 1; kill -KILL -$$ 2>/dev/null; exit \"$s\"",
    );
    reveal_strlit("\"$1\" -c \"$2\" & u=$!; ");
    reveal_strlit("( sleep \"$3\"; kill -KILL -$$ ) 2>/dev/null & w=$!; ");
    reveal_strlit("wait \"$u\"; s=$?; kill \"$w\" 2>/dev/null; ");
    reveal_strlit("trap '' TERM; kill -TERM -$$ 2>/dev/null; ");
    reveal_strlit("sleep 1; kill -KILL -$$ 2>/dev/null; exit \"$s\"");
    assert(HOOK_WRAPPER@ =~= "\"$1\" -c \"$2\" & u=$!; "@
        + "( sleep \"$3\"; kill -KILL -$$ ) 2>/dev/null & w=$!; "@
        + "wait \"$u\"; s=$?; kill \"$w\" 2>/dev/null; "@
        + "trap '' TERM; kill -TERM -$$ 2>/dev/null; "@
        + "sleep 1; kill -KILL -$$ 2>/dev/null; exit \"$s\""@);
}

} // verus!
