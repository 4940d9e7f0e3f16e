use gitswitch::config::{AppConfig, Profile};
use gitswitch::keys::{
    default_profiles, import_missing_with_home, initial_config, is_key_file_name, list_ssh_keys, profile_for_key,
    public_key_comment, SshDirEntry, SshKeyInfo,
};
use gitswitch::path::{
    config_dir, config_path, expand_tilde, expand_tilde_with_home, file_name, join_path,
    legacy_config_dir, preferred_config_dir, ssh_dir,
};

fn entry(name: &str, has_pub: bool, contents: Option<&str>) -> SshDirEntry {
    SshDirEntry { name: name.to_string(), has_pub, pub_contents: contents.map(|s| s.to_string()) }
}

fn key(name: &str, comment: Option<&str>) -> SshKeyInfo {
    SshKeyInfo {
        name: name.to_string(),
        path: format!("~/.ssh/{name}"),
        pub_path: Some(format!("~/.ssh/{name}.pub")),
        comment: comment.map(|s| s.to_string()),
    }
}

#[test]
fn join_rules() {
    assert_eq!(join_path("/home/a", "x"), "/home/a/x");
    assert_eq!(join_path("/home/a/", "x"), "/home/a/x");
    assert_eq!(join_path("/home/a", "/etc"), "/etc");
    assert_eq!(join_path("", "x"), "x");
    assert_eq!(join_path("/home/a", ""), "/home/a/");
}

#[test]
fn tilde_expansion() {
    let home = Some("/home/me".to_string());
    assert_eq!(expand_tilde_with_home("~/.ssh/id", home.clone()), "/home/me/.ssh/id");
    assert_eq!(expand_tilde_with_home("~", home.clone()), "/home/me");
    assert_eq!(expand_tilde_with_home("/abs/key", home.clone()), "/abs/key");
    assert_eq!(expand_tilde_with_home("~other/key", home.clone()), "~other/key");
    assert_eq!(expand_tilde_with_home("~/x", None), "~/x");
    assert_eq!(expand_tilde_with_home("~", None), "~");
}

#[test]
fn tilde_expansion_uses_home_directory() {
    assert_eq!(expand_tilde("plain/path"), "plain/path");
    match dirs::home_dir() {
        Some(home) => {
            let home = home.to_string_lossy().to_string();
            assert_eq!(expand_tilde("~"), home);
            assert_eq!(expand_tilde("~/k"), join_path(&home, "k"));
        }
        None => assert_eq!(expand_tilde("~/k"), "~/k"),
    }
}

#[test]
fn last_path_component() {
    assert_eq!(file_name("/usr/bin/").as_deref(), Some("bin"));
    assert_eq!(file_name("tmp/foo.txt").as_deref(), Some("foo.txt"));
    assert_eq!(file_name("foo.txt/.").as_deref(), Some("foo.txt"));
    assert_eq!(file_name("foo.txt/.//").as_deref(), Some("foo.txt"));
    assert_eq!(file_name("foo.txt/.."), None);
    assert_eq!(file_name("/"), None);
    assert_eq!(file_name(""), None);
    assert_eq!(file_name("."), None);
}

#[test]
fn config_locations() {
    assert_eq!(preferred_config_dir("/h"), "/h/.gitswitch");
    assert_eq!(legacy_config_dir("/h"), "/h/.gitbench");
    assert_eq!(config_dir("/h", false, true), "/h/.gitbench");
    assert_eq!(config_dir("/h", true, true), "/h/.gitswitch");
    assert_eq!(config_dir("/h", false, false), "/h/.gitswitch");
    assert_eq!(config_path("/h/.gitswitch"), "/h/.gitswitch/config.json");
    assert_eq!(ssh_dir("/h"), "/h/.ssh");
}

#[test]
fn key_file_names() {
    assert!(is_key_file_name(&"id_ed25519".to_string()));
    for n in ["id_rsa.pub", "config", "config.d", "known_hosts", "known_hosts.old", "authorized_keys", "authorized_keys2"] {
        assert!(!is_key_file_name(&n.to_string()), "{n}");
    }
    assert!(is_key_file_name(&"configs".to_string()));
}

#[test]
fn public_key_comments() {
    let c = public_key_comment(&Some("ssh-ed25519 AAAAC3Nz me@laptop\n".to_string()));
    assert_eq!(c.as_deref(), Some("me@laptop"));
    assert_eq!(public_key_comment(&Some("ssh-rsa AAAA".to_string())), None);
    assert_eq!(public_key_comment(&None), None);
    let c = public_key_comment(&Some("  ssh-rsa\tAAAA  work key ".to_string()));
    assert_eq!(c.as_deref(), Some("work"));
}

#[test]
fn listing_filters_and_sorts_keys() {
    let entries = vec![
        entry("zeta", true, Some("ssh-ed25519 AAA zeta@host")),
        entry("config", true, None),
        entry("alpha", true, Some("ssh-rsa BBB")),
        entry("nopub", false, None),
        entry("alpha.pub", true, None),
        entry("beta", true, None),
    ];
    let keys = list_ssh_keys(&entries);
    let names: Vec<&str> = keys.iter().map(|k| k.name.as_str()).collect();
    assert_eq!(names, vec!["alpha", "beta", "zeta"]);
    assert_eq!(keys[0].path, "~/.ssh/alpha");
    assert_eq!(keys[0].pub_path.as_deref(), Some("~/.ssh/alpha.pub"));
    assert_eq!(keys[0].comment, None);
    assert_eq!(keys[2].comment.as_deref(), Some("zeta@host"));
}

#[test]
fn profiles_from_keys() {
    let keys = vec![key("work", Some("me@work")), key("home", None)];
    let ps = default_profiles(&keys);
    assert_eq!(ps.len(), 2);
    assert_eq!(ps[0].name, "me@work");
    assert_eq!(ps[1].name, "home");
    assert_eq!(ps[1].ssh_key_path, "~/.ssh/home");
    assert_eq!(ps[0].id.len(), 36);
    assert_ne!(ps[0].id, ps[1].id);
    let p = profile_for_key(&keys[0], "fixed".to_string());
    assert_eq!(p.id, "fixed");
    assert!(p.user_name.is_empty() && p.user_email.is_empty() && p.ssh_host_alias.is_empty());
}

#[test]
fn first_use_configuration() {
    let c = initial_config(Ok(vec![key("work", Some("me@work")), key("home", None)]));
    assert!(c.repos.is_empty());
    assert!(c.selected_repo_id.is_none());
    assert_eq!(c.profiles.len(), 2);
    assert_eq!(c.profiles[0].name, "me@work");
    assert_eq!(c.profiles[1].ssh_key_path, "~/.ssh/home");
    let c = initial_config(Err(gitswitch::config::ConfigError::Io("denied".to_string())));
    assert!(c.profiles.is_empty());
    assert!(c.repos.is_empty());
}

#[test]
fn import_adds_only_missing_keys_and_is_idempotent() {
    let existing = Profile {
        id: "p1".to_string(),
        name: "old".to_string(),
        user_name: String::new(),
        user_email: String::new(),
        ssh_key_path: "/home/me/.ssh/work".to_string(),
        ssh_host_alias: String::new(),
    };
    let cfg = AppConfig { repos: vec![], profiles: vec![existing], selected_repo_id: None };
    let keys = vec![key("work", None), key("home", Some("me@home"))];
    let home = Some("/home/me".to_string());
    let cfg = import_missing_with_home(cfg, &keys, home.clone());
    assert_eq!(cfg.profiles.len(), 2);
    assert_eq!(cfg.profiles[1].name, "me@home");
    assert_eq!(cfg.profiles[1].ssh_key_path, "~/.ssh/home");
    let again = import_missing_with_home(cfg, &keys, home);
    assert_eq!(again.profiles.len(), 2);
}

#[test]
fn import_without_home_compares_paths_as_text() {
    let cfg = AppConfig::default();
    let keys = vec![key("a", None), key("b", None)];
    let cfg = import_missing_with_home(cfg, &keys, None);
    assert_eq!(cfg.profiles.len(), 2);
    let cfg = gitswitch::keys::import_missing_ssh_profiles(cfg, &keys);
    assert_eq!(cfg.profiles.len(), 2);
}
