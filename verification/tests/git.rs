use agent_collab::git::{
    after_checkout, branch_name, classify_push, environment, push_outcome, Git, GitCommand,
    GitError, GitOutput, GitRun, PushOutcome, PushStep,
};
use std::path::PathBuf;

fn git() -> Git {
    Git::new(PathBuf::from("room"))
}

fn out(success: bool, stdout: &str, stderr: &str) -> GitRun {
    Ok(GitOutput {
        success,
        code: if success { Some(0) } else { Some(128) },
        stdout: stdout.as_bytes().to_vec(),
        stderr: stderr.as_bytes().to_vec(),
    })
}

#[test]
fn success_is_pushed() {
    assert_eq!(classify_push(true, "", ""), PushOutcome::Pushed);
}

#[test]
fn porcelain_reject_detected_despite_localized_stderr() {
    let stdout = "To origin\n!\trefs/heads/collab/x:refs/heads/collab/x\t[rejected] (non-fast-forward)\nDone\n";
    let stderr = "fehler: fehlgeschlagen beim Versenden einiger Referenzen";
    assert_eq!(classify_push(false, stdout, stderr), PushOutcome::Rejected);
}

#[test]
fn auth_failure_is_failed_not_rejected() {
    let stderr = "fatal: Authentication failed for 'https://example/'";
    match classify_push(false, "", stderr) {
        PushOutcome::Failed(e) => assert!(e.contains("Authentication failed")),
        other => panic!("expected Failed, got {other:?}"),
    }
}

#[test]
fn only_the_machine_readable_lines_tell_of_a_collision() {
    assert_eq!(classify_push(false, "!\tx\t(fetch first)\n", ""), PushOutcome::Rejected);
    assert_eq!(classify_push(false, "!\tx\tnon-fast-forward", ""), PushOutcome::Rejected);
    let failed = |stdout: &str| classify_push(false, stdout, " why \n");
    assert_eq!(failed(" ! [rejected]"), PushOutcome::Failed("why".into()));
    assert_eq!(failed("!\tx\t[remote rejected] (hook declined)"), PushOutcome::Failed("why".into()));
    assert_eq!(classify_push(false, "", "! [rejected]"), PushOutcome::Failed("! [rejected]".into()));
    assert_eq!(classify_push(true, "! [rejected]", "x"), PushOutcome::Pushed);
}

#[test]
fn commands_have_their_arguments() {
    let g = git();
    assert_eq!(Git::clone("u", "d").argv(), vec!["clone", "--", "u", "d"]);
    assert_eq!(g.add(vec!["a".into(), "-b".into()]).argv(), vec!["add", "--", "a", "-b"]);
    assert_eq!(g.commit("m x").argv(), vec!["commit", "-m", "m x"]);
    assert_eq!(g.current_branch().argv(), vec!["rev-parse", "--abbrev-ref", "HEAD"]);
    assert_eq!(g.pull_rebase("b").argv(), vec!["pull", "--rebase", "origin", "b"]);
    assert_eq!(
        g.pull_rebase_prefer_local("b").argv(),
        vec!["-c", "core.editor=true", "pull", "--rebase", "-X", "theirs", "origin", "b"]
    );
    assert_eq!(g.push().argv(), vec!["push", "--porcelain", "origin", "HEAD"]);
    assert_eq!(
        environment(),
        vec![("LC_ALL", "C"), ("LANG", "C"), ("GIT_TERMINAL_PROMPT", "0")]
    );
    assert_eq!(g.repo(), &PathBuf::from("room"));
}

#[test]
fn a_branch_is_checked_out_or_created() {
    let g = git();
    let first = g.ensure_branch("collab/topic").unwrap();
    assert_eq!(first.argv(), vec!["checkout", "collab/topic"]);
    assert!(after_checkout("collab/topic", out(true, "", "")).unwrap().is_none());
    let second = after_checkout("collab/topic", out(false, "", "no such branch")).unwrap().unwrap();
    assert_eq!(second.argv(), vec!["checkout", "-b", "collab/topic"]);
    assert!(matches!(after_checkout("b", Err("x".into())), Err(GitError::Spawn(_))));
    match g.ensure_branch("-x") {
        Err(e) => assert_eq!(
            e.text(),
            "git ensure_branch failed (code None): refusing branch name starting with '-': -x"
        ),
        Ok(_) => panic!("accepted"),
    }
}

#[test]
fn a_failed_command_is_explained() {
    let c = git().commit("hello");
    let e = c.checked(out(false, "", " bad thing \n")).unwrap_err();
    assert_eq!(e.text(), "git commit -m hello failed (code Some(128)): bad thing");
    let e = c.checked(Err("not found".into())).unwrap_err();
    assert_eq!(e.text(), "could not run git (is it on PATH?): not found");
    assert_eq!(c.checked(out(true, " o \n", "")).unwrap(), " o \n");
    let e = GitError::Failed { cmd: "x".into(), code: Some(-2147483648), stderr: "s".into() };
    assert_eq!(e.text(), "git x failed (code Some(-2147483648)): s");
    match Git::cloned("https://x/y", PathBuf::from("y"), out(false, "", "no")) {
        Err(e) => assert_eq!(e.text(), "git clone https://x/y failed (code Some(128)): no"),
        Ok(_) => panic!("cloned"),
    }
    let g = Git::cloned("https://x/y", PathBuf::from("y"), out(true, "", "")).unwrap();
    assert_eq!(g.repo(), &PathBuf::from("y"));
}

#[test]
fn the_branch_is_named_without_the_line_end() {
    assert_eq!(branch_name(out(true, "collab/topic\n", "")).unwrap(), "collab/topic");
    assert!(matches!(branch_name(out(false, "", "")), Err(GitError::Failed { .. })));
    assert!(matches!(branch_name(Err("e".into())), Err(GitError::Spawn(_))));
}

#[test]
fn output_that_is_no_utf8_is_read_all_the_same() {
    let run: GitRun = Ok(GitOutput {
        success: false,
        code: None,
        stdout: b"\xff\n!\t[rejected]".to_vec(),
        stderr: b"\xfe".to_vec(),
    });
    assert_eq!(push_outcome(run).unwrap(), PushOutcome::Rejected);
    let run: GitRun = Ok(GitOutput { success: false, code: None, stdout: vec![], stderr: b"\xfe".to_vec() });
    assert_eq!(push_outcome(run).unwrap(), PushOutcome::Failed("\u{fffd}".into()));
    assert!(matches!(push_outcome(Err("e".into())), Err(GitError::Spawn(_))));
}

/// Drives a push whose every attempt comes to the next of `outcomes`. Returns what it
/// came to and how many pushes it took.
fn drive(max: u32, outcomes: Vec<PushOutcome>) -> (Result<PushOutcome, GitError>, usize) {
    let mut retry = git().push_with_retry(max);
    let mut pushes = 0;
    for o in outcomes {
        pushes += 1;
        let (next, step) = retry.pushed(Ok(o));
        retry = next;
        match step {
            PushStep::Done(r) => return (r, pushes),
            PushStep::Rebase => {
                assert_eq!(retry.rebase(&git(), "b").argv(), git().pull_rebase("b").argv());
                assert!(matches!(retry.rebased(Ok(())), PushStep::Push));
            }
            PushStep::Push => panic!("no rebase in between"),
        }
    }
    panic!("still pushing")
}

#[test]
fn a_push_is_tried_as_often_as_its_bound_says() {
    let rejected = || vec![PushOutcome::Rejected; 9];
    assert!(matches!(drive(3, rejected()), (Ok(PushOutcome::Rejected), 3)));
    assert!(matches!(drive(5, rejected()), (Ok(PushOutcome::Rejected), 5)));
    assert!(matches!(drive(1, rejected()), (Ok(PushOutcome::Rejected), 1)));
    assert!(matches!(drive(0, rejected()), (Ok(PushOutcome::Rejected), 1)));
    let then = |o| vec![PushOutcome::Rejected, o];
    assert!(matches!(drive(3, then(PushOutcome::Pushed)), (Ok(PushOutcome::Pushed), 2)));
    assert!(matches!(
        drive(3, then(PushOutcome::Failed("x".into()))),
        (Ok(PushOutcome::Failed(_)), 2)
    ));
    assert!(matches!(
        drive(3, vec![PushOutcome::Failed("x".into())]),
        (Ok(PushOutcome::Failed(_)), 1)
    ));
}

#[test]
fn the_local_side_wins_where_it_is_told_to() {
    let retry = git().push_with_retry_local_wins(2);
    let (retry, step) = retry.pushed(Ok(PushOutcome::Rejected));
    assert!(matches!(step, PushStep::Rebase));
    let rebase = retry.rebase(&git(), "b");
    assert_eq!(rebase.argv(), git().pull_rebase_prefer_local("b").argv());
    match retry.rebased(Err(GitError::Spawn("x".into()))) {
        PushStep::Done(Err(GitError::Spawn(e))) => assert_eq!(e, "x"),
        _ => panic!("a failed rebase ends the matter"),
    }
    let (_, step) = git().push_with_retry(2).pushed(Err(GitError::Spawn("y".into())));
    assert!(matches!(step, PushStep::Done(Err(GitError::Spawn(_)))));
}

#[test]
fn a_label_is_the_whole_command_but_for_a_clone() {
    assert_eq!(GitCommand::CurrentBranch.label(), "rev-parse --abbrev-ref HEAD");
    assert_eq!(Git::clone("u", "d").label(), "clone u");
}

#[test]
fn a_hostile_address_or_path_is_no_option() {
    assert_eq!(Git::clone("--upload-pack=x", "d").argv()[1..3], ["--", "--upload-pack=x"]);
    assert_eq!(git().add(vec!["--force".into()]).argv(), vec!["add", "--", "--force"]);
    assert!(git().ensure_branch("--orphan").is_err());
}
