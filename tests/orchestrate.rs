use rema::config::{BaseDirEntry, RemaConfig};
use rema::discovery::{discover, wanted, DirChild};
use rema::orchestrate::{
    classify_pull, split_command_line, CommandLine, CommandRun, PullAction, PullOutcome,
    PullPhase, RunStep,
};
use rema::pending::{decode_pending, encode_pending};
use rema::text::{split_words, starts_with};

fn base(ignore: &[&str], only: &[&str]) -> BaseDirEntry {
    BaseDirEntry {
        label: "src".to_string(),
        path: "/base".to_string(),
        only: only.iter().map(|s| s.to_string()).collect(),
        ignore: ignore.iter().map(|s| s.to_string()).collect(),
        autoclean: false,
        autoupdate: false,
    }
}

fn child(name: &str, is_dir: bool, is_repo: bool) -> DirChild {
    DirChild { name: name.to_string(), is_dir, is_repo }
}

fn cmd(program: &str, args: &[&str]) -> CommandLine {
    CommandLine {
        program: program.to_string(),
        args: args.iter().map(|s| s.to_string()).collect(),
    }
}

fn config(build: &[&str], clean: &[&str], autoclean: bool, autoupdate: bool) -> RemaConfig {
    RemaConfig {
        path: "/base/repoA".to_string(),
        name: "repoA".to_string(),
        build: build.iter().map(|s| s.to_string()).collect(),
        clean: clean.iter().map(|s| s.to_string()).collect(),
        autoclean,
        autoupdate,
    }
}

/// Runs to the end with every command exiting as `exits` says; returns the
/// commands handed out and the final step.
fn drive(run: &mut CommandRun, exits: &[bool]) -> (Vec<CommandLine>, RunStep) {
    let mut seen = Vec::new();
    let mut n = 0;
    loop {
        match run.next_step() {
            RunStep::Run(i, c) => {
                assert_eq!(i, seen.len());
                seen.push(c);
                run.report(exits[n]);
                n += 1;
            }
            other => return (seen, other),
        }
    }
}

#[test]
fn scenario_discovery_skips_files_and_ignored() {
    let b = base(&["ignored_repo"], &[]);
    let children = vec![
        child("repoA", true, true),
        child("notarepo.txt", false, false),
        child("ignored_repo", true, true),
    ];
    assert_eq!(discover(&b, &children), vec!["repoA".to_string()]);
    assert!(!wanted(&b, "notarepo.txt", false));
    assert!(!wanted(&b, "ignored_repo", true));
    assert!(wanted(&b, "repoA", true));
}

#[test]
fn discovery_with_names_to_keep() {
    let b = base(&["st"], &["dwm", "st"]);
    let children = vec![
        child("dwm", true, true),
        child("st", true, true),
        child("dmenu", true, true),
        child("plain_dir", true, false),
    ];
    assert_eq!(discover(&b, &children), vec!["dwm".to_string()]);
    let all = base(&[], &[]);
    assert_eq!(
        discover(&all, &children),
        vec!["dwm".to_string(), "st".to_string(), "dmenu".to_string()]
    );
    assert!(discover(&all, &vec![]).is_empty());
}

#[test]
fn pull_detection() {
    assert_eq!(classify_pull(true, "Already up to date.\n"), PullOutcome::UpToDate);
    assert_eq!(classify_pull(false, "Already up to date.\n"), PullOutcome::UpToDate);
    assert_eq!(classify_pull(true, "Updating 1a2b..3c4d\n"), PullOutcome::NewContent);
    assert_eq!(classify_pull(false, "fatal: no remote\n"), PullOutcome::UpToDate);
    assert_eq!(classify_pull(true, ""), PullOutcome::NewContent);
    assert_eq!(classify_pull(true, "Already up"), PullOutcome::NewContent);
}

#[test]
fn scenario_pull_leaves_repo_pending() {
    let cfg = config(&["echo hi"], &[], false, false);
    let mut phase = PullPhase::new();
    let a = phase.record(&cfg, true, "Updating 1a2b..3c4d\n");
    assert_eq!(a, PullAction::Pending);
    assert_eq!(phase.pending, vec!["/base/repoA".to_string()]);
    let b = phase.record(&cfg, true, "Already up to date.\n");
    assert_eq!(b, PullAction::Nothing);
    assert_eq!(phase.pending, vec!["/base/repoA".to_string()]);
}

#[test]
fn autoupdate_builds_at_once() {
    let cfg = config(&["make"], &[], false, true);
    let mut phase = PullPhase::new();
    assert_eq!(phase.record(&cfg, true, "Fast-forward\n"), PullAction::Build);
    assert!(phase.pending.is_empty());
    assert_eq!(cfg.pull(true, "Already up to date."), PullAction::Nothing);
    let (seen, end) = drive(&mut cfg.build(), &[true]);
    assert_eq!(seen, vec![cmd("make", &[])]);
    assert_eq!(end, RunStep::Done);
}

#[test]
fn scenario_update_runs_pending_build() {
    let mut phase = PullPhase::new();
    let pulled = config(&[], &[], false, false);
    phase.record(&pulled, true, "Updating\n");
    let text = encode_pending(&phase.pending).unwrap();
    assert_eq!(text, "/base/repoA\n");
    let pending = decode_pending(&text);
    assert_eq!(pending, vec!["/base/repoA".to_string()]);
    let cfg = RemaConfig::resolve(&pending[0], Some("build = [\"echo hi\"]\n")).unwrap();
    let mut run = cfg.build();
    assert_eq!(run.dir(), "/base/repoA");
    let (seen, end) = drive(&mut run, &[true]);
    assert_eq!(seen, vec![cmd("echo", &["hi"])]);
    assert_eq!(end, RunStep::Done);
}

#[test]
fn scenario_failed_build_stops() {
    let cfg = config(&["false", "echo second"], &["make clean"], true, false);
    let mut run = cfg.build();
    let (seen, end) = drive(&mut run, &[false, true, true]);
    assert_eq!(seen, vec![cmd("false", &[])]);
    assert_eq!(end, RunStep::Failed(0));
    assert_eq!(run.next_step(), RunStep::Failed(0));
}

#[test]
fn autoclean_follows_build() {
    let cfg = config(&["./configure", "make -j4"], &["make clean", "rm -f out"], true, false);
    let mut run = cfg.build();
    let (seen, end) = drive(&mut run, &[true, true, true, true]);
    assert_eq!(
        seen,
        vec![
            cmd("./configure", &[]),
            cmd("make", &["-j4"]),
            cmd("make", &["clean"]),
            cmd("rm", &["-f", "out"]),
        ]
    );
    assert_eq!(end, RunStep::Done);
    assert_eq!(run.dir(), "/base/repoA");
    let no_clean = config(&["make"], &["make clean"], false, false);
    let (seen, _) = drive(&mut no_clean.build(), &[true]);
    assert_eq!(seen, vec![cmd("make", &[])]);
}

#[test]
fn failed_clean_line_stops_clean() {
    let cfg = config(&["make"], &["make clean", "rm -rf build"], true, false);
    let (seen, end) = drive(&mut cfg.build(), &[true, false, true]);
    assert_eq!(seen, vec![cmd("make", &[]), cmd("make", &["clean"])]);
    assert_eq!(end, RunStep::Failed(1));
}

#[test]
fn clean_twice_same_commands() {
    let cfg = config(&["make"], &["make clean", "rm -f a.out"], false, true);
    let first = drive(&mut cfg.clean(), &[true, true]);
    let second = drive(&mut cfg.clean(), &[true, true]);
    assert_eq!(first, second);
    assert_eq!(first.0, vec![cmd("make", &["clean"]), cmd("rm", &["-f", "a.out"])]);
    assert_eq!(first.1, RunStep::Done);
}

#[test]
fn empty_plan_is_done() {
    let cfg = config(&[], &[], true, true);
    assert_eq!(cfg.build().next_step(), RunStep::Done);
    assert_eq!(cfg.clean().next_step(), RunStep::Done);
}

#[test]
fn blank_line_fails_run() {
    let cfg = config(&["make", "   ", "make install"], &[], false, false);
    let (seen, end) = drive(&mut cfg.build(), &[true, true]);
    assert_eq!(seen, vec![cmd("make", &[])]);
    assert_eq!(end, RunStep::Failed(1));
}

#[test]
fn command_lines_split_on_whitespace_only() {
    assert_eq!(split_command_line("make  -j4\tall"), Some(cmd("make", &["-j4", "all"])));
    assert_eq!(
        split_command_line("echo \"a b\""),
        Some(cmd("echo", &["\"a", "b\""]))
    );
    assert_eq!(split_command_line(" \t "), None);
    assert_eq!(split_command_line(""), None);
    assert_eq!(split_words("\u{3000}a\u{a0}b "), vec!["a".to_string(), "b".to_string()]);
}

#[test]
fn prefix_test() {
    assert!(starts_with("Already up to date.\n", "Already up to date."));
    assert!(!starts_with("Already", "Already up to date."));
    assert!(starts_with("x", ""));
}

#[test]
fn pending_codec() {
    let paths = vec!["/a/b".to_string(), "/c d/e".to_string()];
    let text = encode_pending(&paths).unwrap();
    assert_eq!(text, "/a/b\n/c d/e\n");
    assert_eq!(decode_pending(&text), paths);
    assert_eq!(encode_pending(&vec![]), Some(String::new()));
    assert_eq!(encode_pending(&vec!["/a".to_string(), "/b\nc".to_string()]), None);
    assert!(decode_pending("").is_empty());
    assert_eq!(decode_pending("/x\n/y"), vec!["/x".to_string(), "/y".to_string()]);
}
