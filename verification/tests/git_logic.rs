use gitswitch::config::{ConfigError, Profile};
use gitswitch::git::{
    apply_profile_step, apply_profile_step_with_home, apply_profile_with_home, build_ssh_command, build_ssh_command_with_home, checkout_branch,
    create_branch, decimal_chars, delete_branch, env_run_failure_error, failed_command_message,
    fetch_with_home, list_branches, log_entries, log_limit, parse_u32, push_with_home,
    recent_log, remote_from_ref, repo_status, run_failure_error, spawn_failure_error, GitStep,
    StatusOutputs,
};

fn chars(s: &str) -> Vec<char> {
    s.chars().collect()
}

fn msg(e: ConfigError) -> String {
    match e {
        ConfigError::Message(m) => m,
        other => panic!("unexpected error {:?}", other),
    }
}

fn profile(key: &str) -> Profile {
    Profile {
        id: "p".to_string(),
        name: "n".to_string(),
        user_name: " Jane Doe ".to_string(),
        user_email: "jane@example.com".to_string(),
        ssh_key_path: key.to_string(),
        ssh_host_alias: String::new(),
    }
}

fn run_args<T: std::fmt::Debug>(s: &GitStep<T>) -> Vec<String> {
    match s {
        GitStep::Run(inv) => inv.args.clone(),
        other => panic!("expected a command, got {:?}", other),
    }
}

fn ok(s: &str) -> Result<String, ConfigError> {
    Ok(s.to_string())
}

fn err(s: &str) -> Result<String, ConfigError> {
    Err(ConfigError::Message(s.to_string()))
}

#[test]
fn remote_of_refs() {
    assert_eq!(remote_from_ref("origin/main").as_deref(), Some("origin"));
    assert_eq!(remote_from_ref("  upstream/feat/x ").as_deref(), Some("upstream"));
    assert_eq!(remote_from_ref("solo").as_deref(), Some("solo"));
    assert_eq!(remote_from_ref("   "), None);
}

#[test]
fn branch_listing_is_parsed_and_sorted() {
    let local = "feature|origin/feature|origin\nmain|origin/main|origin\n\nzeta||\n";
    let remote = Some("origin/HEAD\norigin/main\norigin/feature\nfork/main\n".to_string());
    let bs = list_branches(Some("main\n".to_string()), local, remote);
    let names: Vec<(&str, bool, bool)> = bs.iter().map(|b| (b.name.as_str(), b.is_current, b.is_remote)).collect();
    assert_eq!(
        names,
        vec![
            ("main", true, false),
            ("zeta", false, false),
            ("feature", false, false),
            ("fork/main", false, true),
            ("origin/feature", false, true),
            ("origin/main", false, true),
        ]
    );
    assert_eq!(bs[0].upstream.as_deref(), Some("origin/main"));
    assert_eq!(bs[0].remote.as_deref(), Some("origin"));
    assert_eq!(bs[1].upstream, None);
    assert_eq!(bs[1].remote, None);
    assert_eq!(bs[3].remote.as_deref(), Some("fork"));
}

#[test]
fn branch_tracking_a_local_branch_has_no_remote() {
    let local = "feat|main|.\nmain||\nwip|fork/wip| fork \nold|gone|\n";
    let bs = list_branches(None, local, None);
    let names: Vec<&str> = bs.iter().map(|b| b.name.as_str()).collect();
    assert_eq!(names, vec!["feat", "main", "old", "wip"]);
    assert_eq!(bs[0].upstream.as_deref(), Some("main"));
    assert_eq!(bs[0].remote, None);
    assert_eq!(bs[1].upstream, None);
    assert_eq!(bs[1].remote, None);
    assert_eq!(bs[2].upstream.as_deref(), Some("gone"));
    assert_eq!(bs[2].remote, None);
    assert_eq!(bs[3].upstream.as_deref(), Some("fork/wip"));
    assert_eq!(bs[3].remote.as_deref(), Some("fork"));
}

#[test]
fn detached_head_marks_no_branch_current() {
    let bs = list_branches(Some("HEAD\n".to_string()), "HEAD|\nmain|\n", None);
    assert!(bs.iter().all(|b| !b.is_current));
    let names: Vec<&str> = bs.iter().map(|b| b.name.as_str()).collect();
    assert_eq!(names, vec!["HEAD", "main"]);
}

#[test]
fn u32_parsing() {
    assert_eq!(parse_u32(&chars("42")), Some(42));
    assert_eq!(parse_u32(&chars("+7")), Some(7));
    assert_eq!(parse_u32(&chars("4294967295")), Some(u32::MAX));
    assert_eq!(parse_u32(&chars("4294967296")), None);
    assert_eq!(parse_u32(&chars("")), None);
    assert_eq!(parse_u32(&chars("+")), None);
    assert_eq!(parse_u32(&chars("-1")), None);
    assert_eq!(parse_u32(&chars("1a")), None);
    assert_eq!(parse_u32(&chars("0007")), Some(7));
}

#[test]
fn status_from_outputs() {
    let out = StatusOutputs {
        head: Some("main\n".to_string()),
        porcelain: " M src/lib.rs\n".to_string(),
        counts: Some("3\t1\n".to_string()),
        remotes: Some(
            "origin\tgit@github.com:me/x.git (fetch)\norigin\tgit@github.com:me/x.git (push)\n".to_string(),
        ),
        user_name: Some("Jane\n".to_string()),
        user_email: Some("  \n".to_string()),
        ssh_command: None,
    };
    let st = repo_status("/work/x".to_string(), &out);
    assert_eq!(st.path, "/work/x");
    assert_eq!(st.current_branch.as_deref(), Some("main"));
    assert!(st.is_dirty);
    assert_eq!((st.ahead, st.behind), (3, 1));
    assert_eq!(st.remotes.len(), 1);
    assert_eq!(st.remotes[0].name, "origin");
    assert_eq!(st.remotes[0].url, "git@github.com:me/x.git");
    assert_eq!(st.user_name.as_deref(), Some("Jane"));
    assert_eq!(st.user_email, None);
    assert_eq!(st.ssh_command, None);
}

#[test]
fn status_with_unusual_counts() {
    let mut out = StatusOutputs {
        head: None,
        porcelain: "\n".to_string(),
        counts: Some("1 2 3".to_string()),
        remotes: None,
        user_name: None,
        user_email: None,
        ssh_command: Some(" ssh -i k ".to_string()),
    };
    let st = repo_status(String::new(), &out);
    assert!(!st.is_dirty);
    assert_eq!((st.ahead, st.behind), (0, 0));
    assert_eq!(st.current_branch, None);
    assert_eq!(st.ssh_command.as_deref(), Some("ssh -i k"));
    out.counts = Some("x 5".to_string());
    let st = repo_status(String::new(), &out);
    assert_eq!((st.ahead, st.behind), (0, 5));
}

#[test]
fn failure_messages() {
    let args = vec!["status".to_string(), "--porcelain".to_string()];
    assert_eq!(msg(run_failure_error(" fatal: no repo \n", "out", &args)), "fatal: no repo");
    assert_eq!(msg(run_failure_error("  ", " some output\n", &args)), "some output");
    assert_eq!(msg(run_failure_error("", "", &args)), "git [\"status\", \"--porcelain\"] failed");
    assert_eq!(msg(env_run_failure_error("", &args)), "git [\"status\", \"--porcelain\"] failed");
    assert_eq!(msg(env_run_failure_error("denied\n", &args)), "denied");
    assert_eq!(failed_command_message("[]"), "git [] failed");
    assert_eq!(msg(spawn_failure_error("not found")), "failed to run git: not found");
}

#[test]
fn ssh_commands() {
    let home = Some("/home/me".to_string());
    assert_eq!(
        build_ssh_command_with_home(&profile(" ~/.ssh/id_work "), home.clone()).as_deref(),
        Some("ssh -i /home/me/.ssh/id_work -o IdentitiesOnly=yes")
    );
    assert_eq!(build_ssh_command_with_home(&profile("   "), home), None);
    assert_eq!(build_ssh_command(&profile("")), None);
    assert_eq!(
        build_ssh_command(&profile("/k/id")).as_deref(),
        Some("ssh -i /k/id -o IdentitiesOnly=yes")
    );
}

#[test]
fn branch_creation_and_deletion() {
    assert_eq!(create_branch("feat", true).unwrap().args, vec!["switch", "-c", "feat"]);
    assert_eq!(create_branch("feat", false).unwrap().args, vec!["branch", "feat"]);
    for bad in ["", "a..b", "-x", "a b", "a\nb"] {
        assert_eq!(msg(create_branch(bad, false).unwrap_err()), "invalid branch name");
    }
    assert_eq!(delete_branch("old", true).unwrap().args, vec!["branch", "-D", "old"]);
    assert_eq!(delete_branch("old", false).unwrap().args, vec!["branch", "-d", "old"]);
    assert_eq!(delete_branch("a b", false).unwrap().args, vec!["branch", "-d", "a b"]);
    assert_eq!(msg(delete_branch("-f", false).unwrap_err()), "invalid branch name");
}

#[test]
fn checkout_of_local_branch() {
    let mut outs = vec![];
    assert_eq!(run_args(&checkout_branch("main", &outs)), vec!["show-ref", "--verify", "refs/heads/main"]);
    outs.push(ok("abc refs/heads/main"));
    assert_eq!(run_args(&checkout_branch("main", &outs)), vec!["switch", "main"]);
    outs.push(ok(""));
    assert!(matches!(checkout_branch("main", &outs), GitStep::Done(Ok(()))));
}

#[test]
fn checkout_of_remote_ref_tracks_it() {
    let mut outs = vec![err("not a ref")];
    assert_eq!(
        run_args(&checkout_branch("origin/feat", &outs)),
        vec!["show-ref", "--verify", "refs/heads/feat"]
    );
    outs.push(err("missing"));
    assert_eq!(
        run_args(&checkout_branch("origin/feat", &outs)),
        vec!["switch", "--track", "-c", "feat", "origin/feat"]
    );
    outs.push(err("boom"));
    match checkout_branch("origin/feat", &outs) {
        GitStep::Done(Err(e)) => assert_eq!(msg(e), "boom"),
        other => panic!("{:?}", other),
    }
    let outs = vec![err("no"), ok("")];
    assert_eq!(run_args(&checkout_branch("origin/feat", &outs)), vec!["switch", "feat"]);
}

#[test]
fn checkout_of_unknown_plain_name_switches() {
    let outs = vec![err("no")];
    assert_eq!(run_args(&checkout_branch("topic", &outs)), vec!["switch", "topic"]);
    let outs = vec![err("no")];
    assert_eq!(run_args(&checkout_branch("origin/", &outs)), vec!["switch", "origin/"]);
}

#[test]
fn checkout_rejects_invalid_names() {
    for bad in ["", "x..y", "-b", "a b"] {
        match checkout_branch(bad, &vec![]) {
            GitStep::Done(Err(e)) => assert_eq!(msg(e), "invalid branch name"),
            other => panic!("{:?}", other),
        }
    }
}

#[test]
fn fetch_and_push_commands() {
    let home = Some("/h".to_string());
    let p = profile("~/.ssh/k");
    let f = fetch_with_home(Some(&p), home.clone());
    assert_eq!(f.args, vec!["fetch", "--all", "--prune"]);
    assert_eq!(f.ssh_command.as_deref(), Some("ssh -i /h/.ssh/k -o IdentitiesOnly=yes"));
    assert!(f.remote);
    assert_eq!(fetch_with_home(None, home.clone()).ssh_command, None);
    assert!(fetch_with_home(None, home.clone()).remote);

    match push_with_home(Some(&p), false, home.clone(), &vec![]) {
        GitStep::Run(inv) => {
            assert_eq!(inv.args, vec!["push"]);
            assert!(inv.ssh_command.is_some());
            assert!(inv.remote);
        }
        other => panic!("{:?}", other),
    }
    let first = push_with_home(Some(&p), true, home.clone(), &vec![]);
    assert_eq!(run_args(&first), vec!["rev-parse", "--abbrev-ref", "HEAD"]);
    assert!(matches!(&first, GitStep::Run(inv) if !inv.remote));
    let second = push_with_home(Some(&p), true, home.clone(), &vec![ok("feature\n")]);
    assert_eq!(run_args(&second), vec!["push", "-u", "origin", "feature"]);
    assert!(matches!(&second, GitStep::Run(inv) if inv.remote));
    match push_with_home(Some(&p), true, home.clone(), &vec![ok("feature\n"), ok("pushed")]) {
        GitStep::Done(Ok(s)) => assert_eq!(s, "pushed"),
        other => panic!("{:?}", other),
    }
    match push_with_home(None, true, home, &vec![err("no head")]) {
        GitStep::Done(Err(e)) => assert_eq!(msg(e), "no head"),
        other => panic!("{:?}", other),
    }
}

#[test]
fn applying_a_profile() {
    let plan = apply_profile_with_home(&profile("~/.ssh/k"), Some("/h".to_string()));
    let args: Vec<(Vec<String>, bool)> = plan.iter().map(|p| (p.invocation.args.clone(), p.required)).collect();
    assert!(plan.iter().all(|p| !p.invocation.remote && p.invocation.ssh_command.is_none()));
    assert_eq!(
        args,
        vec![
            (vec!["config".to_string(), "--local".into(), "user.name".into(), "Jane Doe".into()], true),
            (vec!["config".to_string(), "--local".into(), "user.email".into(), "jane@example.com".into()], true),
            (
                vec!["config".to_string(), "--local".into(), "core.sshCommand".into(), "ssh -i /h/.ssh/k -o IdentitiesOnly=yes".into()],
                true
            ),
        ]
    );
    let mut p = profile("");
    p.user_name = "  ".to_string();
    p.user_email = String::new();
    let plan = apply_profile_with_home(&p, None);
    assert_eq!(plan.len(), 1);
    assert_eq!(plan[0].invocation.args, vec!["config", "--local", "--unset", "core.sshCommand"]);
    assert!(!plan[0].required);
}

#[test]
fn log_command_and_entries() {
    assert_eq!(recent_log(12).args, vec!["log", "-12", "--pretty=format:%h%x09%s%x09%an%x09%ar"]);
    assert_eq!(recent_log(0).args[1], "-1");
    assert_eq!(recent_log(500).args[1], "-50");
    assert_eq!(log_limit(None), 12);
    assert_eq!(log_limit(Some(3)), 3);
    let e = log_entries("a1\tfix\tme\t1 day ago\n\nb2\tadd\tyou\t2 days ago");
    assert_eq!(e, vec!["a1\tfix\tme\t1 day ago", "b2\tadd\tyou\t2 days ago"]);
    assert_eq!(decimal_chars(0), vec!['0']);
    assert_eq!(decimal_chars(4021), vec!['4', '0', '2', '1']);
}

#[test]
fn applying_a_profile_step_by_step() {
    let home = Some("/h".to_string());
    let p = profile("~/.ssh/k");
    let step = |outs: Vec<Result<String, ConfigError>>| apply_profile_step_with_home(&p, home.clone(), &outs);
    assert_eq!(run_args(&step(vec![])), vec!["config", "--local", "user.name", "Jane Doe"]);
    assert_eq!(run_args(&step(vec![ok("")])), vec!["config", "--local", "user.email", "jane@example.com"]);
    assert_eq!(
        run_args(&step(vec![ok(""), ok("")])),
        vec!["config", "--local", "core.sshCommand", "ssh -i /h/.ssh/k -o IdentitiesOnly=yes"]
    );
    assert!(matches!(step(vec![ok(""), ok(""), ok("")]), GitStep::Done(Ok(()))));
    match step(vec![ok(""), err("locked")]) {
        GitStep::Done(Err(e)) => assert_eq!(msg(e), "locked"),
        other => panic!("{:?}", other),
    }
    match step(vec![err("first"), ok("")]) {
        GitStep::Done(Err(e)) => assert_eq!(msg(e), "first"),
        other => panic!("{:?}", other),
    }
}

#[test]
fn failed_unset_of_ssh_command_is_ignored() {
    let p = profile("  ");
    let outs = vec![ok(""), ok("")];
    assert_eq!(
        run_args(&apply_profile_step_with_home(&p, None, &outs)),
        vec!["config", "--local", "--unset", "core.sshCommand"]
    );
    let outs = vec![ok(""), ok(""), err("no such key")];
    assert!(matches!(apply_profile_step_with_home(&p, None, &outs), GitStep::Done(Ok(()))));
    assert!(matches!(apply_profile_step(&p, &outs), GitStep::Done(Ok(()))));
}
