//! Adding repositories and looking up what a command needs of one.
use vstd::prelude::*;
use crate::config::{
    AppConfig, ConfigError, ConfigView, Profile, Repo, binding_known, clone_opt, first_match,
    is_message, lemma_first_match, lemma_first_match_found, message_error, opt_str,
    profile_id_is, profile_pos, profile_position, repo_id_is, repo_pos, repo_position,
    well_formed,
};
use crate::ids::{new_id, uuid_shaped};
use crate::path::{file_name, file_name_spec, opt_text};
use crate::text::{chars_of, concat_chars, is_blank, owned, str_eq, string_of, trim};

verus! {

/// Refuses a path that is not a directory, then one without a `.git` entry;
/// the message names the expanded path.
pub fn check_repo_dir(expanded: &str, is_dir: bool, has_git: bool) -> (r: Result<(), ConfigError>)
    ensures
        match r {
            Ok(()) => is_dir && has_git,
            Err(e) => if !is_dir {
                is_message(e, "path is not a directory: "@ + expanded@)
            } else {
                !has_git && is_message(e, "not a git repository: "@ + expanded@)
            },
        },
{
    let path = chars_of(expanded);
    if !is_dir {
        let m = concat_chars(&chars_of("path is not a directory: "), &path);
        return Err(ConfigError::Message(string_of(&m)));
    }
    if !has_git {
        let m = concat_chars(&chars_of("not a git repository: "), &path);
        return Err(ConfigError::Message(string_of(&m)));
    }
    Ok(())
}

/// Whether some repository has path `path`.
pub open spec fn path_known(repos: Seq<Repo>, path: Seq<char>) -> bool {
    exists|i: int| 0 <= i < repos.len() && (#[trigger] repos[i]).path@ == path
}

/// The name shown for a new repository: the given one, else the last
/// component of its path, else the whole path.
pub open spec fn display_name(abs: Seq<char>, name: Option<Seq<char>>) -> Seq<char> {
    match name {
        Some(n) => n,
        None => match file_name_spec(abs) {
            Some(f) => f,
            None => abs,
        },
    }
}

/// `n` is `c` with a repository appended (id `id`, path `abs`, bound to the
/// first profile if there is one) and selected.
pub open spec fn repo_added(c: ConfigView, n: ConfigView, abs: Seq<char>, name: Option<Seq<char>>, id: Seq<char>) -> bool {
    &&& n.repos.len() == c.repos.len() + 1
    &&& n.repos.take(c.repos.len() as int) == c.repos
    &&& n.profiles == c.profiles
    &&& n.selected == Some(id)
    &&& n.repos.last().id@ == id
    &&& n.repos.last().name@ == display_name(abs, name)
    &&& n.repos.last().path@ == abs
    &&& n.repos.last().profile_id == (if c.profiles.len() > 0 {
        Some(c.profiles[0].id)
    } else {
        None
    })
}

/// Adds the repository at absolute path `abs` with id `id`; refused with
/// "repository already added" when a repository has that path.
pub fn add_repo_with_id(cfg: AppConfig, abs: &str, name: Option<String>, id: String) -> (r: Result<AppConfig, ConfigError>)
    ensures
        match r {
            Ok(n) => !path_known(cfg@.repos, abs@) && repo_added(cfg@, n@, abs@, opt_text(name), id@),
            Err(e) => path_known(cfg@.repos, abs@) && is_message(e, "repository already added"@),
        },
        well_formed(cfg@) ==> (r matches Ok(n) ==> well_formed(n@)),
{
    let n = cfg.repos.len();
    for i in 0..n
        invariant
            n == cfg.repos@.len(),
            forall|j: int| 0 <= j < i ==> (#[trigger] cfg.repos@[j]).path@ != abs@,
    {
        if str_eq(cfg.repos[i].path.as_str(), abs) {
            return Err(message_error("repository already added"));
        }
    }
    let display = match name {
        Some(nm) => nm,
        None => match file_name(abs) {
            Some(f) => f,
            None => owned(abs),
        },
    };
    let profile_id = if cfg.profiles.len() > 0 {
        Some(cfg.profiles[0].id.clone())
    } else {
        None
    };
    let AppConfig { mut repos, profiles, selected_repo_id: _ } = cfg;
    let ghost before = repos@;
    let selected = id.clone();
    repos.push(Repo { id, name: display, path: owned(abs), profile_id });
    let r = AppConfig { repos, profiles, selected_repo_id: Some(selected) };
    proof {
        assert(r@.repos.take(before.len() as int) =~= before);
        lemma_added_keeps(cfg@, r@, abs@, opt_text(name), id@);
    }
    Ok(r)
}

proof fn lemma_added_keeps(c: ConfigView, n: ConfigView, abs: Seq<char>, name: Option<Seq<char>>, id: Seq<char>)
    requires
        repo_added(c, n, abs, name, id),
    ensures
        well_formed(c) ==> well_formed(n),
{
    if well_formed(c) {
        let last = c.repos.len() as int;
        assert(n.repos[last].id@ == id);
        lemma_first_match_found(n.repos, repo_id_is(id), last);
        assert forall|i: int| 0 <= i < n.repos.len() implies binding_known(#[trigger] n.repos[i], n.profiles) by {
            if i < last {
                assert(n.repos[i] == n.repos.take(last)[i]);
                assert(binding_known(c.repos[i], c.profiles));
            } else if c.profiles.len() > 0 {
                lemma_first_match_found(c.profiles, profile_id_is(c.profiles[0].id@), 0);
            }
        }
    }
}

/// Adds the repository at absolute path `abs` with a fresh id; refused with
/// "repository already added" when a repository has that path.
pub fn add_repo(cfg: AppConfig, abs: &str, name: Option<String>) -> (r: Result<AppConfig, ConfigError>)
    ensures
        match r {
            Ok(n) => !path_known(cfg@.repos, abs@) && n@.selected is Some && uuid_shaped(
                n@.selected->0,
            ) && repo_added(cfg@, n@, abs@, opt_text(name), n@.selected->0),
            Err(e) => path_known(cfg@.repos, abs@) && is_message(e, "repository already added"@),
        },
        well_formed(cfg@) ==> (r matches Ok(n) ==> well_formed(n@)),
{
    add_repo_with_id(cfg, abs, name, new_id())
}

/// Law: once a path has been added, adding it again is refused: the new
/// configuration knows the path.
pub proof fn law_added_path_known(c: ConfigView, n: ConfigView, abs: Seq<char>, name: Option<Seq<char>>, id: Seq<char>)
    requires
        repo_added(c, n, abs, name, id),
    ensures
        path_known(n.repos, abs),
{
    assert(n.repos[n.repos.len() - 1].path@ == abs);
}

/// The path of repository `repo_id`.
pub fn repo_path(cfg: &AppConfig, repo_id: &str) -> (r: Result<String, ConfigError>)
    ensures
        match r {
            Ok(p) => repo_pos(cfg@.repos, repo_id@) >= 0 && p == cfg@.repos[repo_pos(cfg@.repos, repo_id@)].path,
            Err(e) => repo_pos(cfg@.repos, repo_id@) == -1 && is_message(e, "repo not found"@),
        },
{
    match repo_position(&cfg.repos, repo_id) {
        Some(i) => Ok(cfg.repos[i].path.clone()),
        None => Err(message_error("repo not found")),
    }
}

/// The profile bound to repository `repo_id`: `None` when it is unbound;
/// refused when the repository, or its bound profile, is unknown.
pub fn profile_for_repo(cfg: &AppConfig, repo_id: &str) -> (r: Result<Option<Profile>, ConfigError>)
    ensures
        match r {
            Ok(p) => {
                let i = repo_pos(cfg@.repos, repo_id@);
                &&& i >= 0
                &&& match cfg@.repos[i].profile_id {
                    None => p is None,
                    Some(pid) => profile_pos(cfg@.profiles, pid@) >= 0 && p == Some(
                        cfg@.profiles[profile_pos(cfg@.profiles, pid@)],
                    ),
                }
            },
            Err(e) => {
                let i = repo_pos(cfg@.repos, repo_id@);
                ||| i == -1 && is_message(e, "repo not found"@)
                ||| i >= 0 && (cfg@.repos[i].profile_id matches Some(pid) && profile_pos(
                    cfg@.profiles,
                    pid@,
                ) == -1) && is_message(e, "profile not found"@)
            },
        },
{
    match repo_position(&cfg.repos, repo_id) {
        None => Err(message_error("repo not found")),
        Some(i) => match &cfg.repos[i].profile_id {
            None => Ok(None),
            Some(pid) => match profile_position(&cfg.profiles, pid.as_str()) {
                None => Err(message_error("profile not found")),
                Some(j) => Ok(Some(cfg.profiles[j].clone())),
            },
        },
    }
}

/// A profile about to be saved: a blank id is replaced by a fresh one.
pub fn assign_profile_id(profile: Profile) -> (r: Profile)
    ensures
        trim(profile.id@).len() == 0 ==> uuid_shaped(r.id@) && r.name == profile.name
            && r.user_name == profile.user_name && r.user_email == profile.user_email
            && r.ssh_key_path == profile.ssh_key_path && r.ssh_host_alias == profile.ssh_host_alias,
        trim(profile.id@).len() != 0 ==> r == profile,
{
    let mut p = profile;
    if is_blank(&chars_of(p.id.as_str())) {
        p.id = new_id();
    }
    p
}

} // verus!
