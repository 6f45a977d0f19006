use ikill::config::{resolve_config, surface_config};
use ikill::notify::notification_plan;
use ikill::orchestrate::{outcome_report, termination_targets, TerminationOutcome};
use ikill::render::render_corpus;
use ikill::resolve::{resolve_line, resolve_selection, selection_pids};
use ikill::snapshot::{ProcessRecord, ProcessSnapshot};
use ikill::text::{parse_pid, strip_codes, u64_to_string};

fn args(xs: &[&str]) -> Vec<String> {
    xs.iter().map(|s| s.to_string()).collect()
}

fn snap(recs: Vec<(u64, Option<&str>)>) -> ProcessSnapshot {
    let mut s = ProcessSnapshot::new();
    for (pid, name) in recs {
        s.push(ProcessRecord {
            pid,
            name: name.map(|n| n.to_string()),
        });
    }
    s
}

fn corpus_lines(s: &ProcessSnapshot) -> Vec<String> {
    render_corpus(s).lines().map(|l| l.to_string()).collect()
}

#[test]
fn config_defaults_when_no_overrides() {
    let c = surface_config(&None);
    assert_eq!(c.margin, "0%");
    assert_eq!(c.height, "50%");
    assert_eq!(c.layout, "default");
    assert!(c.color.starts_with("matched:108,matched_bg:0,"));
    assert!(c.bind.is_empty());
    assert!(c.reverse);
    assert!(c.multi);
    assert!(!c.tac);
    assert!(!c.no_sort);
    assert!(!c.inline_info);
}

#[test]
fn config_joined_value_wins() {
    let c = resolve_config(&args(&["--height=30%", "--height", "70%"]));
    assert_eq!(c.height, "30%");
}

#[test]
fn config_standalone_takes_next_token() {
    let c = resolve_config(&args(&["--margin", "5%"]));
    assert_eq!(c.margin, "5%");
}

#[test]
fn config_standalone_without_value_falls_back() {
    let c = resolve_config(&args(&["--height"]));
    assert_eq!(c.height, "50%");
}

#[test]
fn config_from_quoted_environment_string() {
    let c = surface_config(&Some("--margin '5%' --height=10%".to_string()));
    assert_eq!(c.margin, "5%");
    assert_eq!(c.height, "10%");
}

#[test]
fn config_unparsable_environment_string_ignored() {
    let c = surface_config(&Some("--margin 'unterminated".to_string()));
    assert_eq!(c.margin, "0%");
}

#[test]
fn config_collects_every_bind() {
    let c = resolve_config(&args(&[
        "--bind=ctrl-a:select-all",
        "--bind",
        "ctrl-b:abort",
    ]));
    assert_eq!(c.bind, vec!["ctrl-a:select-all", "ctrl-b:abort"]);
}

#[test]
fn config_boolean_flags() {
    let c = resolve_config(&args(&["--tac", "--no-sort", "--inline-info"]));
    assert!(c.tac && c.no_sort && c.inline_info);
    let d = resolve_config(&args(&[]));
    assert!(d.reverse && d.multi);
}

#[test]
fn pid_parsing() {
    assert_eq!(parse_pid("123"), Some(123));
    assert_eq!(parse_pid("0"), Some(0));
    assert_eq!(parse_pid(""), None);
    assert_eq!(parse_pid("12a"), None);
    assert_eq!(parse_pid("007"), Some(7));
    assert_eq!(parse_pid("18446744073709551615"), Some(u64::MAX));
    assert_eq!(parse_pid("18446744073709551616"), None);
    assert_eq!(parse_pid("99999999999999999999999"), None);
}

#[test]
fn pid_rendering() {
    assert_eq!(u64_to_string(0), "0");
    assert_eq!(u64_to_string(100), "100");
    assert_eq!(u64_to_string(9056), "9056");
}

#[test]
fn stripping_style_codes() {
    assert_eq!(strip_codes("\u{1b}[31mbash\u{1b}[0m"), "bash");
    assert_eq!(strip_codes("plain"), "plain");
    assert_eq!(strip_codes("\u{1b}[32m100\u{1b}[0m"), "100");
}

#[test]
fn resolving_takes_trailing_token_as_pid() {
    let p = resolve_line("   bash  100").unwrap();
    assert_eq!(p.name, "bash");
    assert_eq!(p.pid, 100);
}

#[test]
fn resolving_tolerates_name_with_spaces() {
    let p = resolve_line("my proc  42").unwrap();
    assert_eq!(p.pid, 42);
    assert_eq!(p.name, "my");
}

#[test]
fn resolving_tolerates_styled_line() {
    let p = resolve_line("  \u{1b}[31mbash\u{1b}[0m  \u{1b}[32m100\u{1b}[0m").unwrap();
    assert_eq!(p.name, "bash");
    assert_eq!(p.pid, 100);
}

#[test]
fn resolving_drops_malformed_lines() {
    assert!(resolve_line("bash").is_none());
    assert!(resolve_line("   ").is_none());
    assert!(resolve_line("").is_none());
    assert!(resolve_line("a b").is_none());
    let sel = resolve_selection(&args(&["bash", "vim  200", "junk junk"]));
    assert_eq!(sel.len(), 1);
    assert_eq!(sel[0].pid, 200);
}

#[test]
fn render_then_resolve_recovers_rendered_pids() {
    let s = snap(vec![(100, Some("bash")), (200, Some("vim")), (300, None)]);
    let lines = corpus_lines(&s);
    assert_eq!(lines.len(), 2);
    let sel = resolve_selection(&lines);
    let pids = selection_pids(&sel);
    assert_eq!(pids, vec![100, 200]);
}

#[test]
fn two_selected_records_notify_with_both_names() {
    let s = snap(vec![(100, Some("bash")), (200, Some("vim"))]);
    let lines = corpus_lines(&s);
    let sel = resolve_selection(&lines);
    let pids = selection_pids(&sel);
    let targets = termination_targets(&s, &pids);
    assert_eq!(targets, vec![100, 200]);
    let plan = notification_plan(&sel).unwrap();
    assert_eq!(plan.body, "bash, vim");
    assert_eq!(plan.appname, "ikill");
    assert_eq!(plan.summary, "Killed processes");
    assert_eq!(plan.icon, "lock");
    assert_eq!(plan.timeout_ms, 3000);
}

#[test]
fn failed_attempt_still_notifies_and_reports_pid() {
    let s = snap(vec![(300, Some("sshd"))]);
    let lines = corpus_lines(&s);
    let sel = resolve_selection(&lines);
    let pids = selection_pids(&sel);
    let targets = termination_targets(&s, &pids);
    assert_eq!(targets, vec![300]);
    let failed = TerminationOutcome::Failed(300, "permission denied".to_string());
    assert_eq!(outcome_report(&failed), Some("300: permission denied".to_string()));
    assert_eq!(outcome_report(&TerminationOutcome::Succeeded(300)), None);
    let plan = notification_plan(&sel).unwrap();
    assert_eq!(plan.body, "sshd");
}

#[test]
fn aborted_selection_terminates_nothing_and_stays_silent() {
    let s = snap(vec![(100, Some("bash")), (200, Some("vim"))]);
    let sel = resolve_selection(&Vec::new());
    assert!(sel.is_empty());
    let pids = selection_pids(&sel);
    let targets = termination_targets(&s, &pids);
    assert!(targets.is_empty());
    assert!(notification_plan(&sel).is_none());
}

#[test]
fn unresolved_name_never_reaches_corpus_or_targets() {
    let s = snap(vec![(1, Some("a")), (2, None)]);
    let lines = corpus_lines(&s);
    assert_eq!(lines.len(), 1);
    let sel = resolve_selection(&lines);
    let pids = selection_pids(&sel);
    assert_eq!(pids, vec![1]);
    let targets = termination_targets(&s, &pids);
    assert_eq!(targets, vec![1]);
}

#[test]
fn targets_keep_snapshot_order_and_attempt_all_selected() {
    let s = snap(vec![
        (1, Some("a")),
        (2, Some("b")),
        (3, Some("c")),
        (4, Some("d")),
    ]);
    let targets = termination_targets(&s, &vec![3, 1, 4]);
    assert_eq!(targets, vec![1, 3, 4]);
    let none = termination_targets(&s, &vec![9]);
    assert!(none.is_empty());
}

#[test]
fn empty_name_renders_but_resolves_to_nothing() {
    let s = snap(vec![(7, Some(""))]);
    let lines = corpus_lines(&s);
    assert_eq!(lines.len(), 1);
    let sel = resolve_selection(&lines);
    assert!(sel.is_empty());
}

#[test]
fn corpus_line_ends_with_pid_token() {
    let s = snap(vec![(9056, Some("some daemon"))]);
    let lines = corpus_lines(&s);
    assert_eq!(lines.len(), 1);
    let last = lines[0].split_whitespace().last().unwrap();
    assert_eq!(strip_codes(last), "9056");
}
