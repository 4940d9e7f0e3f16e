use gitswitch::config::{
    bind_repo_profile, delete_profile, find_profile, find_repo, remove_repo, select_repo,
    upsert_profile, AppConfig, ConfigError, Profile, Repo,
};
use gitswitch::repos::{add_repo_with_id, assign_profile_id, check_repo_dir, profile_for_repo, repo_path};

fn profile(id: &str, name: &str) -> Profile {
    Profile {
        id: id.to_string(),
        name: name.to_string(),
        user_name: format!("{name} user"),
        user_email: format!("{name}@example.com"),
        ssh_key_path: format!("~/.ssh/{name}"),
        ssh_host_alias: String::new(),
    }
}

fn repo(id: &str, path: &str, profile_id: Option<&str>) -> Repo {
    Repo {
        id: id.to_string(),
        name: id.to_string(),
        path: path.to_string(),
        profile_id: profile_id.map(|s| s.to_string()),
    }
}

fn sample() -> AppConfig {
    AppConfig {
        repos: vec![repo("r1", "/work/a", Some("p1")), repo("r2", "/work/b", None), repo("r3", "/work/c", Some("p2"))],
        profiles: vec![profile("p1", "alice"), profile("p2", "bob")],
        selected_repo_id: Some("r1".to_string()),
    }
}

fn message(e: ConfigError) -> String {
    match e {
        ConfigError::Message(m) => m,
        other => panic!("unexpected error {:?}", other),
    }
}

fn ids(repos: &[Repo]) -> Vec<String> {
    repos.iter().map(|r| r.id.clone()).collect()
}

#[test]
fn default_config_is_empty() {
    let c = AppConfig::default();
    assert!(c.repos.is_empty());
    assert!(c.profiles.is_empty());
    assert!(c.selected_repo_id.is_none());
}

#[test]
fn remove_selected_repo_selects_first_remaining() {
    let c = remove_repo(sample(), "r1");
    assert_eq!(ids(&c.repos), vec!["r2", "r3"]);
    assert_eq!(c.selected_repo_id.as_deref(), Some("r2"));
    assert_eq!(c.profiles.len(), 2);
}

#[test]
fn remove_other_repo_keeps_selection() {
    let c = remove_repo(sample(), "r3");
    assert_eq!(ids(&c.repos), vec!["r1", "r2"]);
    assert_eq!(c.selected_repo_id.as_deref(), Some("r1"));
}

#[test]
fn remove_last_selected_repo_clears_selection() {
    let c = AppConfig {
        repos: vec![repo("only", "/x", None)],
        profiles: vec![],
        selected_repo_id: Some("only".to_string()),
    };
    let c = remove_repo(c, "only");
    assert!(c.repos.is_empty());
    assert!(c.selected_repo_id.is_none());
}

#[test]
fn remove_unknown_repo_changes_nothing() {
    let c = remove_repo(sample(), "nope");
    assert_eq!(ids(&c.repos), vec!["r1", "r2", "r3"]);
    assert_eq!(c.selected_repo_id.as_deref(), Some("r1"));
}

#[test]
fn select_known_repo() {
    let c = select_repo(sample(), "r3").unwrap();
    assert_eq!(c.selected_repo_id.as_deref(), Some("r3"));
}

#[test]
fn select_unknown_repo_is_refused() {
    let e = select_repo(sample(), "r9").unwrap_err();
    assert_eq!(message(e), "repo not found");
}

#[test]
fn upsert_replaces_profile_with_same_id() {
    let mut p = profile("p2", "robert");
    p.user_email = "robert@example.com".to_string();
    let c = upsert_profile(sample(), p);
    assert_eq!(c.profiles.len(), 2);
    assert_eq!(c.profiles[1].name, "robert");
    assert_eq!(find_profile(&c, "p2").unwrap().user_email, "robert@example.com");
}

#[test]
fn upsert_appends_new_profile() {
    let c = upsert_profile(sample(), profile("p3", "carol"));
    assert_eq!(c.profiles.len(), 3);
    assert_eq!(c.profiles[2].id, "p3");
    let again = upsert_profile(c, profile("p3", "carol"));
    assert_eq!(again.profiles.len(), 3);
}

#[test]
fn delete_profile_unbinds_repositories() {
    let c = delete_profile(sample(), "p1");
    assert_eq!(c.profiles.len(), 1);
    assert_eq!(c.profiles[0].id, "p2");
    assert!(c.repos[0].profile_id.is_none());
    assert_eq!(c.repos[2].profile_id.as_deref(), Some("p2"));
    assert_eq!(message(find_profile(&c, "p1").unwrap_err()), "profile not found");
}

#[test]
fn bind_repo_to_profile() {
    let c = bind_repo_profile(sample(), "r2", Some("p2".to_string())).unwrap();
    assert_eq!(find_repo(&c, "r2").unwrap().profile_id.as_deref(), Some("p2"));
    let c = bind_repo_profile(c, "r2", None).unwrap();
    assert!(find_repo(&c, "r2").unwrap().profile_id.is_none());
}

#[test]
fn bind_checks_profile_before_repo() {
    let e = bind_repo_profile(sample(), "r9", Some("p9".to_string())).unwrap_err();
    assert_eq!(message(e), "profile not found");
    let e = bind_repo_profile(sample(), "r9", Some("p1".to_string())).unwrap_err();
    assert_eq!(message(e), "repo not found");
}

#[test]
fn find_repo_and_profile() {
    let c = sample();
    assert_eq!(find_repo(&c, "r2").unwrap().path, "/work/b");
    assert_eq!(message(find_repo(&c, "x").unwrap_err()), "repo not found");
    assert_eq!(find_profile(&c, "p1").unwrap().name, "alice");
}

#[test]
fn add_repo_names_it_after_its_directory_and_selects_it() {
    let c = add_repo_with_id(sample(), "/home/me/projects/tool", None, "new-id".to_string()).unwrap();
    let last = c.repos.last().unwrap();
    assert_eq!(last.id, "new-id");
    assert_eq!(last.name, "tool");
    assert_eq!(last.path, "/home/me/projects/tool");
    assert_eq!(last.profile_id.as_deref(), Some("p1"));
    assert_eq!(c.selected_repo_id.as_deref(), Some("new-id"));
}

#[test]
fn add_repo_with_given_name_and_no_profiles() {
    let c = AppConfig::default();
    let c = add_repo_with_id(c, "/srv/x", Some("Mine".to_string()), "id1".to_string()).unwrap();
    assert_eq!(c.repos[0].name, "Mine");
    assert!(c.repos[0].profile_id.is_none());
}

#[test]
fn add_repo_root_path_is_named_by_path() {
    let c = add_repo_with_id(AppConfig::default(), "/", None, "id1".to_string()).unwrap();
    assert_eq!(c.repos[0].name, "/");
}

#[test]
fn add_repo_twice_is_refused() {
    let e = add_repo_with_id(sample(), "/work/b", None, "id".to_string()).unwrap_err();
    assert_eq!(message(e), "repository already added");
}

#[test]
fn add_repo_gets_a_fresh_uuid() {
    let c = gitswitch::repos::add_repo(sample(), "/work/new", None).unwrap();
    let id = c.selected_repo_id.clone().unwrap();
    assert_eq!(id.len(), 36);
    let cs: Vec<char> = id.chars().collect();
    assert_eq!(cs[8], '-');
    assert_eq!(cs[14], '4');
    assert!("89ab".contains(cs[19]));
    assert_eq!(c.repos.last().unwrap().id, id);
    let again = gitswitch::repos::add_repo(c, "/work/other", None).unwrap();
    assert_ne!(again.selected_repo_id.unwrap(), id);
}

#[test]
fn removing_twice_is_removing_once() {
    let once = remove_repo(sample(), "r2");
    let twice = remove_repo(remove_repo(sample(), "r2"), "r2");
    assert_eq!(ids(&once.repos), ids(&twice.repos));
    assert_eq!(once.selected_repo_id, twice.selected_repo_id);
}

#[test]
fn repo_dir_checks() {
    assert!(check_repo_dir("/a", true, true).is_ok());
    assert_eq!(message(check_repo_dir("/a", false, true).unwrap_err()), "path is not a directory: /a");
    assert_eq!(message(check_repo_dir("/a", true, false).unwrap_err()), "not a git repository: /a");
}

#[test]
fn repo_path_and_bound_profile() {
    let c = sample();
    assert_eq!(repo_path(&c, "r3").unwrap(), "/work/c");
    assert_eq!(profile_for_repo(&c, "r1").unwrap().unwrap().name, "alice");
    assert!(profile_for_repo(&c, "r2").unwrap().is_none());
    assert_eq!(message(profile_for_repo(&c, "zz").unwrap_err()), "repo not found");
    let dangling = AppConfig { repos: vec![repo("r", "/p", Some("gone"))], profiles: vec![], selected_repo_id: None };
    assert_eq!(message(profile_for_repo(&dangling, "r").unwrap_err()), "profile not found");
}

#[test]
fn blank_profile_id_is_assigned() {
    let mut p = profile("  ", "dora");
    p = assign_profile_id(p);
    assert_eq!(p.id.len(), 36);
    assert_eq!(p.id.chars().nth(8), Some('-'));
    assert_eq!(p.name, "dora");
    let kept = assign_profile_id(profile("keep", "eve"));
    assert_eq!(kept.id, "keep");
}

#[test]
fn error_text() {
    assert_eq!(ConfigError::Io("disk".to_string()).message(), "disk");
    assert_eq!(ConfigError::Message("m".to_string()).clone().message(), "m");
}
