use std::collections::BTreeMap;

use ekg::hooks::{
    fire, hook_command, hook_timeout, outage_env, recovery_env, resolve_shell, seconds_text,
    should_fire, HookCommand, HookKind, Hooks, HOOK_WRAPPER,
};
use ekg::recorder::Recorder;
use ekg::time::{Duration, SystemTime};

fn at_ms(n: u64) -> SystemTime {
    SystemTime::after_epoch(Duration::from_millis(n))
}

#[test]
fn resolve_shell_uses_shell_env_when_set() {
    assert_eq!(resolve_shell(Some("/bin/zsh".to_string())), "/bin/zsh");
}

#[test]
fn resolve_shell_falls_back_to_sh() {
    assert_eq!(resolve_shell(None), "sh");
}

#[test]
fn should_fire_when_nothing_previously_running() {
    assert!(should_fire(false));
}

#[test]
fn should_not_fire_when_previous_invocation_still_running() {
    assert!(!should_fire(true));
}

#[test]
fn outage_env_has_host_and_start() {
    let start = at_ms(1_690_300_003_123);
    let env = outage_env("1.1.1.1", start);
    assert_eq!(
        env,
        vec![
            ("EKG_HOST".to_string(), "1.1.1.1".to_string()),
            ("EKG_OUTAGE_START".to_string(), "1690300003123".to_string()),
        ]
    );
}

#[test]
fn recovery_env_adds_whole_second_duration() {
    let start = at_ms(1_690_300_003_123);
    let env = recovery_env("router.local", start, Duration::from_millis(36_500));
    assert_eq!(
        env,
        vec![
            ("EKG_HOST".to_string(), "router.local".to_string()),
            ("EKG_OUTAGE_START".to_string(), "1690300003123".to_string()),
            ("EKG_OUTAGE_SECS".to_string(), "36".to_string()),
        ]
    );
}

#[test]
fn recovery_env_truncates_sub_second_duration_to_zero() {
    let start = at_ms(1_700_000_000_000);
    let env = recovery_env("h", start, Duration::from_millis(400));
    assert_eq!(env.last().unwrap().1, "0");
}

#[test]
fn hook_timeout_formats_as_plain_integer_seconds() {
    assert_eq!(seconds_text(hook_timeout()), "30");
}

#[test]
fn fractional_timeouts_keep_their_fraction() {
    assert_eq!(seconds_text(Duration::from_millis(50)), "0.05");
    assert_eq!(seconds_text(Duration::new(1, 1)), "1.000000001");
    assert_eq!(seconds_text(Duration::from_secs(0)), "0");
}

#[test]
fn wrapper_is_the_posix_script() {
    assert_eq!(
        HOOK_WRAPPER,
        r#""$1" -c "$2" & u=$!; ( sleep "$3"; kill -KILL -$$ ) 2>/dev/null & w=$!; wait "$u"; s=$?; kill "$w" 2>/dev/null; trap '' TERM; kill -TERM -$$ 2>/dev/null; sleep 1; kill -KILL -$$ 2>/dev/null; exit "$s""#
    );
}

#[test]
fn wrapper_is_understood_by_dash() {
    assert!(HOOK_WRAPPER.contains("kill -KILL -$$"));
    assert!(HOOK_WRAPPER.contains("kill -TERM -$$"));
    assert!(!HOOK_WRAPPER.contains("-- -$$"));
}

#[test]
fn hook_environment_is_scrubbed_and_set() {
    let mut inherited: BTreeMap<String, String> = BTreeMap::new();
    inherited.insert("EKG_OUTAGE_SECS".to_string(), "999".to_string());
    inherited.insert("EKG_HOST".to_string(), "stale".to_string());
    inherited.insert("HOME".to_string(), "/root".to_string());
    let child = |c: &HookCommand| -> BTreeMap<String, String> {
        let mut env = inherited.clone();
        for name in &c.scrub {
            env.remove(name);
        }
        for (name, value) in &c.env {
            env.insert(name.clone(), value.clone());
        }
        env
    };

    let mut hooks = Hooks::new();
    let env = outage_env("h", at_ms(5));
    let outage = child(&hooks.fire_outage("x", &env, None).unwrap());
    assert_eq!(outage["EKG_HOST"], "h");
    assert_eq!(outage["EKG_OUTAGE_START"], "5");
    assert_eq!(outage["HOME"], "/root");
    assert!(!outage.contains_key("EKG_OUTAGE_SECS"));

    let env = recovery_env("h", at_ms(5), Duration::from_secs(7));
    let recovery = child(&hooks.fire_recovery("x", &env, None).unwrap());
    assert_eq!(recovery["EKG_OUTAGE_SECS"], "7");
    assert_eq!(recovery.len(), 4);
}

#[test]
fn outage_start_reads_the_same_in_hook_and_log() {
    let start = at_ms(1_690_300_003_123);
    let mut rec = Recorder::new();
    rec.log_outage_start("h", start);
    let env = outage_env("h", start);
    assert!(rec.take().starts_with(&format!("{{\"ts\":{},", env[1].1)));
    assert_eq!(recovery_env("h", start, Duration::from_secs(1))[..2], env[..]);
}

#[test]
fn command_passes_everything_as_arguments() {
    let env = outage_env("h", at_ms(9));
    let c = hook_command(
        "echo \"$EKG_HOST\"; exit 3",
        &env,
        Some("/bin/zsh".to_string()),
        Duration::from_secs(30),
    );
    assert_eq!(c.program, "sh");
    assert_eq!(
        c.args,
        vec![
            "-c",
            HOOK_WRAPPER,
            "sh",
            "/bin/zsh",
            "echo \"$EKG_HOST\"; exit 3",
            "30"
        ]
    );
    assert_eq!(c.scrub, vec!["EKG_HOST", "EKG_OUTAGE_START", "EKG_OUTAGE_SECS"]);
    assert_eq!(c.env, env);
}

#[test]
fn command_without_user_shell_uses_sh() {
    let c = hook_command("true", &[], None, Duration::from_secs(1));
    assert_eq!(c.args[3], "sh");
    assert!(c.env.is_empty());
}

#[test]
fn firing_is_skipped_while_previous_still_running() {
    let mut hooks = Hooks::new();
    assert!(hooks.fire_outage("x", &[], None).is_some());
    assert!(hooks.fire_outage("x", &[], None).is_none());
    assert!(hooks.fire_outage("x", &[], None).is_none());
}

#[test]
fn firing_resumes_after_previous_finished() {
    let mut hooks = Hooks::default();
    assert!(hooks.fire_outage("x", &[], None).is_some());
    hooks.finished(HookKind::Outage);
    assert!(hooks.fire_outage("x", &[], None).is_some());
}

#[test]
fn outage_and_recovery_do_not_block_each_other() {
    let mut hooks = Hooks::new();
    assert!(hooks.fire_outage("slow", &[], None).is_some());
    assert!(hooks.fire_recovery("fast", &[], None).is_some());
    hooks.finished(HookKind::Recovery);
    assert!(hooks.fire_outage("slow", &[], None).is_none());
    assert!(hooks.fire_recovery("fast", &[], None).is_some());
}

#[test]
fn targets_do_not_share_hooks() {
    let mut host_a = Hooks::new();
    let mut host_b = Hooks::new();
    assert!(host_a.fire_outage("a", &[], None).is_some());
    assert!(host_b.fire_outage("b", &[], None).is_some());
}

#[test]
fn fired_command_runs_within_the_hook_timeout() {
    let mut running = false;
    let c = fire("cmd", &[], None, &mut running).unwrap();
    assert!(running);
    assert_eq!(c.args[4], "cmd");
    assert_eq!(c.args[5], "30");
    assert!(fire("cmd", &[], None, &mut running).is_none());
    assert!(running);
}
