//! The application's configuration: repositories, identity profiles and the
//! selected repository, with the operations that edit it.
use vstd::prelude::*;
use crate::text::{owned, str_eq};

verus! {

/// Errors of the configuration and git operations.
#[derive(Debug)]
pub enum ConfigError {
    /// A message for the user.
    Message(String),
    /// A file-system error, by its message.
    Io(String),
    /// A JSON error, by its message.
    Json(String),
}

impl Clone for ConfigError {
    fn clone(&self) -> (r: Self)
        ensures
            r == *self,
    {
        match self {
            ConfigError::Message(m) => ConfigError::Message(m.clone()),
            ConfigError::Io(m) => ConfigError::Io(m.clone()),
            ConfigError::Json(m) => ConfigError::Json(m.clone()),
        }
    }
}

impl ConfigError {
    /// The text shown for this error.
    pub fn message(&self) -> (r: String)
        ensures
            r@ == error_text(*self),
    {
        match self {
            ConfigError::Message(m) => m.clone(),
            ConfigError::Io(m) => m.clone(),
            ConfigError::Json(m) => m.clone(),
        }
    }
}

/// The text carried by an error.
pub open spec fn error_text(e: ConfigError) -> Seq<char> {
    match e {
        ConfigError::Message(m) => m@,
        ConfigError::Io(m) => m@,
        ConfigError::Json(m) => m@,
    }
}

/// Whether `e` is a user message with text `m`.
pub open spec fn is_message(e: ConfigError, m: Seq<char>) -> bool {
    e matches ConfigError::Message(x) && x@ == m
}

/// A user message with the given text.
pub fn message_error(m: &str) -> (e: ConfigError)
    ensures
        is_message(e, m@),
{
    ConfigError::Message(owned(m))
}

/// A git identity: name, e-mail and the SSH key to use.
#[derive(Debug)]
pub struct Profile {
    pub id: String,
    pub name: String,
    pub user_name: String,
    pub user_email: String,
    /// Absolute or `~` path to the private key; empty means no `core.sshCommand`.
    pub ssh_key_path: String,
    /// Optional host alias from `~/.ssh/config` (informational).
    pub ssh_host_alias: String,
}

impl Clone for Profile {
    fn clone(&self) -> (r: Self)
        ensures
            r == *self,
    {
        Profile {
            id: self.id.clone(),
            name: self.name.clone(),
            user_name: self.user_name.clone(),
            user_email: self.user_email.clone(),
            ssh_key_path: self.ssh_key_path.clone(),
            ssh_host_alias: self.ssh_host_alias.clone(),
        }
    }
}

/// A local git repository known to the application.
#[derive(Debug)]
pub struct Repo {
    pub id: String,
    pub name: String,
    pub path: String,
    /// The profile bound to this repository, if any.
    pub profile_id: Option<String>,
}

impl Clone for Repo {
    fn clone(&self) -> (r: Self)
        ensures
            r == *self,
    {
        Repo {
            id: self.id.clone(),
            name: self.name.clone(),
            path: self.path.clone(),
            profile_id: clone_opt(&self.profile_id),
        }
    }
}

/// A copy of an optional string.
pub fn clone_opt(o: &Option<String>) -> (r: Option<String>)
    ensures
        r == *o,
{
    match o {
        Some(s) => Some(s.clone()),
        None => None,
    }
}

/// The whole configuration.
#[derive(Debug)]
pub struct AppConfig {
    pub repos: Vec<Repo>,
    pub profiles: Vec<Profile>,
    pub selected_repo_id: Option<String>,
}

/// The mathematical view of a configuration.
pub struct ConfigView {
    pub repos: Seq<Repo>,
    pub profiles: Seq<Profile>,
    pub selected: Option<Seq<char>>,
}

/// The view of an optional string.
pub open spec fn opt_str(o: Option<String>) -> Option<Seq<char>> {
    match o {
        Some(s) => Some(s@),
        None => None,
    }
}

impl View for AppConfig {
    type V = ConfigView;

    open spec fn view(&self) -> ConfigView {
        ConfigView {
            repos: self.repos@,
            profiles: self.profiles@,
            selected: opt_str(self.selected_repo_id),
        }
    }
}

impl Default for AppConfig {
    fn default() -> (r: Self)
        ensures
            r.repos@.len() == 0,
            r.profiles@.len() == 0,
            r.selected_repo_id is None,
    {
        AppConfig { repos: Vec::new(), profiles: Vec::new(), selected_repo_id: None }
    }
}

/// The index of the first element of `s` that `p` accepts, or -1.
pub open spec fn first_match<T>(s: Seq<T>, p: spec_fn(T) -> bool) -> int
    decreases s.len(),
{
    if s.len() == 0 {
        -1
    } else if p(s[0]) {
        0
    } else {
        let k = first_match(s.drop_first(), p);
        if k < 0 {
            -1
        } else {
            k + 1
        }
    }
}

/// What `first_match` returns: the first accepted index, or -1 if none is.
pub proof fn lemma_first_match<T>(s: Seq<T>, p: spec_fn(T) -> bool)
    ensures
        -1 <= first_match(s, p) < s.len(),
        first_match(s, p) >= 0 ==> p(s[first_match(s, p)]),
        forall|j: int| 0 <= j < first_match(s, p) ==> !p(#[trigger] s[j]),
        first_match(s, p) == -1 ==> forall|j: int| 0 <= j < s.len() ==> !p(#[trigger] s[j]),
    decreases s.len(),
{
    if s.len() > 0 && !p(s[0]) {
        lemma_first_match(s.drop_first(), p);
        assert forall|j: int| 0 < j < s.len() implies s[j] == s.drop_first()[j - 1] by {}
    }
}

/// The index of `i` when every earlier element is rejected and `s[i]` accepted
/// (or `i` is the length and -1 results).
pub proof fn lemma_first_match_at<T>(s: Seq<T>, p: spec_fn(T) -> bool, i: int)
    requires
        0 <= i <= s.len(),
        forall|j: int| 0 <= j < i ==> !p(#[trigger] s[j]),
        i < s.len() ==> p(s[i]),
    ensures
        first_match(s, p) == (if i == s.len() {
            -1
        } else {
            i
        }),
{
    lemma_first_match(s, p);
}

/// Accepts the repositories with id `id`.
pub open spec fn repo_id_is(id: Seq<char>) -> spec_fn(Repo) -> bool {
    |r: Repo| r.id@ == id
}

/// Accepts the repositories whose id is not `id`.
pub open spec fn repo_id_isnt(id: Seq<char>) -> spec_fn(Repo) -> bool {
    |r: Repo| r.id@ != id
}

/// Accepts the profiles with id `id`.
pub open spec fn profile_id_is(id: Seq<char>) -> spec_fn(Profile) -> bool {
    |p: Profile| p.id@ == id
}

/// Accepts the profiles whose id is not `id`.
pub open spec fn profile_id_isnt(id: Seq<char>) -> spec_fn(Profile) -> bool {
    |p: Profile| p.id@ != id
}

/// Where the first repository with id `id` stands, or -1.
pub open spec fn repo_pos(repos: Seq<Repo>, id: Seq<char>) -> int {
    first_match(repos, repo_id_is(id))
}

/// Where the first profile with id `id` stands, or -1.
pub open spec fn profile_pos(profiles: Seq<Profile>, id: Seq<char>) -> int {
    first_match(profiles, profile_id_is(id))
}

/// Where the first repository with id `id` stands in `repos`.
pub fn repo_position(repos: &Vec<Repo>, id: &str) -> (r: Option<usize>)
    ensures
        match r {
            Some(i) => i == repo_pos(repos@, id@) && i < repos@.len(),
            None => repo_pos(repos@, id@) == -1,
        },
{
    let n = repos.len();
    for i in 0..n
        invariant
            n == repos@.len(),
            forall|j: int| 0 <= j < i ==> !repo_id_is(id@)(#[trigger] repos@[j]),
    {
        if str_eq(repos[i].id.as_str(), id) {
            proof {
                lemma_first_match_at(repos@, repo_id_is(id@), i as int);
            }
            return Some(i);
        }
    }
    proof {
        lemma_first_match_at(repos@, repo_id_is(id@), n as int);
    }
    None
}

/// Where the first profile with id `id` stands in `profiles`.
pub fn profile_position(profiles: &Vec<Profile>, id: &str) -> (r: Option<usize>)
    ensures
        match r {
            Some(i) => i == profile_pos(profiles@, id@) && i < profiles@.len(),
            None => profile_pos(profiles@, id@) == -1,
        },
{
    let n = profiles.len();
    for i in 0..n
        invariant
            n == profiles@.len(),
            forall|j: int| 0 <= j < i ==> !profile_id_is(id@)(#[trigger] profiles@[j]),
    {
        if str_eq(profiles[i].id.as_str(), id) {
            proof {
                lemma_first_match_at(profiles@, profile_id_is(id@), i as int);
            }
            return Some(i);
        }
    }
    proof {
        lemma_first_match_at(profiles@, profile_id_is(id@), n as int);
    }
    None
}

/// The repository with id `repo_id` (the first one, should there be several).
pub fn find_repo<'a>(cfg: &'a AppConfig, repo_id: &str) -> (r: Result<&'a Repo, ConfigError>)
    ensures
        match r {
            Ok(repo) => repo_pos(cfg@.repos, repo_id@) >= 0 && *repo == cfg@.repos[repo_pos(
                cfg@.repos,
                repo_id@,
            )],
            Err(e) => repo_pos(cfg@.repos, repo_id@) == -1 && is_message(e, "repo not found"@),
        },
{
    match repo_position(&cfg.repos, repo_id) {
        Some(i) => Ok(&cfg.repos[i]),
        None => Err(message_error("repo not found")),
    }
}

/// The profile with id `profile_id` (the first one, should there be several).
pub fn find_profile<'a>(cfg: &'a AppConfig, profile_id: &str) -> (r: Result<
    &'a Profile,
    ConfigError,
>)
    ensures
        match r {
            Ok(p) => profile_pos(cfg@.profiles, profile_id@) >= 0 && *p == cfg@.profiles[profile_pos(
                cfg@.profiles,
                profile_id@,
            )],
            Err(e) => profile_pos(cfg@.profiles, profile_id@) == -1 && is_message(
                e,
                "profile not found"@,
            ),
        },
{
    match profile_position(&cfg.profiles, profile_id) {
        Some(i) => Ok(&cfg.profiles[i]),
        None => Err(message_error("profile not found")),
    }
}

/// The configuration after removing every repository with id `id`; a
/// selection of that id moves to the first remaining repository.
pub open spec fn remove_repo_view(c: ConfigView, id: Seq<char>) -> ConfigView {
    let repos = c.repos.filter(repo_id_isnt(id));
    ConfigView {
        repos: repos,
        profiles: c.profiles,
        selected: if c.selected == Some(id) {
            if repos.len() > 0 {
                Some(repos[0].id@)
            } else {
                None
            }
        } else {
            c.selected
        },
    }
}

/// The configuration after selecting repository `id`, or the message that
/// refuses it.
pub open spec fn select_repo_view(c: ConfigView, id: Seq<char>) -> Result<ConfigView, Seq<char>> {
    if repo_pos(c.repos, id) >= 0 {
        Ok(ConfigView { repos: c.repos, profiles: c.profiles, selected: Some(id) })
    } else {
        Err("repo not found"@)
    }
}

/// The profiles after inserting `p`, or replacing the first profile with its id.
pub open spec fn upsert_profiles(profiles: Seq<Profile>, p: Profile) -> Seq<Profile> {
    let i = profile_pos(profiles, p.id@);
    if i >= 0 {
        profiles.update(i, p)
    } else {
        profiles.push(p)
    }
}

/// The configuration after `upsert_profile`.
pub open spec fn upsert_profile_view(c: ConfigView, p: Profile) -> ConfigView {
    ConfigView { repos: c.repos, profiles: upsert_profiles(c.profiles, p), selected: c.selected }
}

/// `r` with its binding to profile `id` dropped.
pub open spec fn unbind(r: Repo, id: Seq<char>) -> Repo {
    if opt_str(r.profile_id) == Some(id) {
        Repo { id: r.id, name: r.name, path: r.path, profile_id: None }
    } else {
        r
    }
}

/// Drops bindings to profile `id`.
pub open spec fn unbinder(id: Seq<char>) -> spec_fn(Repo) -> Repo {
    |r: Repo| unbind(r, id)
}

/// The configuration after deleting profile `id` and every binding to it.
pub open spec fn delete_profile_view(c: ConfigView, id: Seq<char>) -> ConfigView {
    ConfigView {
        repos: c.repos.map_values(unbinder(id)),
        profiles: c.profiles.filter(profile_id_isnt(id)),
        selected: c.selected,
    }
}

/// `r` bound to `pid`.
pub open spec fn rebind(r: Repo, pid: Option<String>) -> Repo {
    Repo { id: r.id, name: r.name, path: r.path, profile_id: pid }
}

/// The configuration after binding repository `repo_id` to `pid`, or the
/// message that refuses it.
pub open spec fn bind_repo_profile_view(
    c: ConfigView,
    repo_id: Seq<char>,
    pid: Option<String>,
) -> Result<ConfigView, Seq<char>> {
    if pid is Some && profile_pos(c.profiles, pid->0@) < 0 {
        Err("profile not found"@)
    } else if repo_pos(c.repos, repo_id) < 0 {
        Err("repo not found"@)
    } else {
        let i = repo_pos(c.repos, repo_id);
        Ok(
            ConfigView {
                repos: c.repos.update(i, rebind(c.repos[i], pid)),
                profiles: c.profiles,
                selected: c.selected,
            },
        )
    }
}

/// Whether `r` is the outcome that `expected` describes: the new
/// configuration, or the message of the error.
pub open spec fn outcome_is(r: Result<AppConfig, ConfigError>, expected: Result<ConfigView, Seq<char>>) -> bool {
    match r {
        Ok(c) => expected == Ok::<ConfigView, Seq<char>>(c@),
        Err(e) => expected is Err && is_message(e, expected->Err_0),
    }
}

/// Removes the repositories with id `repo_id`; if it was selected, the first
/// remaining repository becomes selected.
pub fn remove_repo(cfg: AppConfig, repo_id: &str) -> (r: AppConfig)
    ensures
        r@ == remove_repo_view(cfg@, repo_id@),
{
    let AppConfig { repos, profiles, selected_repo_id } = cfg;
    let ghost keep = repo_id_isnt(repo_id@);
    let mut kept: Vec<Repo> = Vec::new();
    let n = repos.len();
    for i in 0..n
        invariant
            n == repos@.len(),
            keep == repo_id_isnt(repo_id@),
            kept@ == repos@.take(i as int).filter(keep),
    {
        assert(repos@.take(i + 1) =~= repos@.take(i as int).push(repos@[i as int]));
        proof {
            repos@.take(i as int).lemma_filter_push(repos@[i as int], keep);
        }
        if !str_eq(repos[i].id.as_str(), repo_id) {
            let c = repos[i].clone();
            kept.push(c);
        }
    }
    assert(repos@.take(n as int) =~= repos@);
    let selected = match selected_repo_id {
        Some(s) => {
            if str_eq(s.as_str(), repo_id) {
                if kept.len() > 0 {
                    Some(kept[0].id.clone())
                } else {
                    None
                }
            } else {
                Some(s)
            }
        },
        None => None,
    };
    AppConfig { repos: kept, profiles, selected_repo_id: selected }
}

/// Selects repository `repo_id`; refused with "repo not found" when there is none.
pub fn select_repo(cfg: AppConfig, repo_id: &str) -> (r: Result<AppConfig, ConfigError>)
    ensures
        outcome_is(r, select_repo_view(cfg@, repo_id@)),
{
    match repo_position(&cfg.repos, repo_id) {
        None => Err(message_error("repo not found")),
        Some(_) => {
            let AppConfig { repos, profiles, selected_repo_id: _ } = cfg;
            Ok(AppConfig { repos, profiles, selected_repo_id: Some(owned(repo_id)) })
        },
    }
}

/// Replaces the first profile with the id of `profile`, or appends `profile`.
pub fn upsert_profile(cfg: AppConfig, profile: Profile) -> (r: AppConfig)
    ensures
        r@ == upsert_profile_view(cfg@, profile),
{
    let AppConfig { repos, mut profiles, selected_repo_id } = cfg;
    match profile_position(&profiles, profile.id.as_str()) {
        Some(i) => {
            profiles.set(i, profile);
        },
        None => {
            profiles.push(profile);
        },
    }
    AppConfig { repos, profiles, selected_repo_id }
}

/// Deletes the profiles with id `profile_id` and unbinds every repository bound to it.
pub fn delete_profile(cfg: AppConfig, profile_id: &str) -> (r: AppConfig)
    ensures
        r@ == delete_profile_view(cfg@, profile_id@),
{
    let AppConfig { repos, profiles, selected_repo_id } = cfg;
    let ghost keep = profile_id_isnt(profile_id@);
    let ghost f = unbinder(profile_id@);
    let mut kept: Vec<Profile> = Vec::new();
    let n = profiles.len();
    for i in 0..n
        invariant
            n == profiles@.len(),
            keep == profile_id_isnt(profile_id@),
            kept@ == profiles@.take(i as int).filter(keep),
    {
        assert(profiles@.take(i + 1) =~= profiles@.take(i as int).push(profiles@[i as int]));
        proof {
            profiles@.take(i as int).lemma_filter_push(profiles@[i as int], keep);
        }
        if !str_eq(profiles[i].id.as_str(), profile_id) {
            kept.push(profiles[i].clone());
        }
    }
    assert(profiles@.take(n as int) =~= profiles@);
    let mut new_repos: Vec<Repo> = Vec::new();
    let m = repos.len();
    for i in 0..m
        invariant
            m == repos@.len(),
            f == unbinder(profile_id@),
            new_repos@ == repos@.take(i as int).map_values(f),
    {
        let mut r = repos[i].clone();
        let bound = match &r.profile_id {
            Some(p) => str_eq(p.as_str(), profile_id),
            None => false,
        };
        if bound {
            r.profile_id = None;
        }
        assert(r == f(repos@[i as int]));
        assert(repos@.take(i + 1).map_values(f) =~= repos@.take(i as int).map_values(f).push(
            f(repos@[i as int]),
        ));
        new_repos.push(r);
    }
    assert(repos@.take(m as int) =~= repos@);
    AppConfig { repos: new_repos, profiles: kept, selected_repo_id }
}

/// Binds repository `repo_id` to `profile_id` (or unbinds it with `None`);
/// refused with "profile not found" for an unknown profile, then with
/// "repo not found" for an unknown repository.
pub fn bind_repo_profile(cfg: AppConfig, repo_id: &str, profile_id: Option<String>) -> (r: Result<
    AppConfig,
    ConfigError,
>)
    ensures
        outcome_is(r, bind_repo_profile_view(cfg@, repo_id@, profile_id)),
{
    if let Some(pid) = &profile_id {
        if profile_position(&cfg.profiles, pid.as_str()).is_none() {
            return Err(message_error("profile not found"));
        }
    }
    match repo_position(&cfg.repos, repo_id) {
        None => Err(message_error("repo not found")),
        Some(i) => {
            let AppConfig { mut repos, profiles, selected_repo_id } = cfg;
            let old = repos[i].clone();
            let updated = Repo { id: old.id, name: old.name, path: old.path, profile_id };
            repos.set(i, updated);
            Ok(AppConfig { repos, profiles, selected_repo_id })
        },
    }
}

/// A repository selection, if any, names a known repository.
pub open spec fn selection_valid(c: ConfigView) -> bool {
    c.selected matches Some(s) ==> repo_pos(c.repos, s) >= 0
}

/// The binding of `r`, if any, names one of `profiles`.
pub open spec fn binding_known(r: Repo, profiles: Seq<Profile>) -> bool {
    match r.profile_id {
        Some(p) => profile_pos(profiles, p@) >= 0,
        None => true,
    }
}

/// Every profile binding names a known profile.
pub open spec fn bindings_valid(c: ConfigView) -> bool {
    forall|i: int| 0 <= i < c.repos.len() ==> binding_known(#[trigger] c.repos[i], c.profiles)
}

/// The configuration is consistent: its selection and its bindings refer to
/// existing entries.
pub open spec fn well_formed(c: ConfigView) -> bool {
    selection_valid(c) && bindings_valid(c)
}

/// No two profiles share an id.
pub open spec fn profile_ids_unique(profiles: Seq<Profile>) -> bool {
    forall|i: int, j: int|
        0 <= i < j < profiles.len() ==> (#[trigger] profiles[i]).id@ != (#[trigger] profiles[j]).id@
}

/// An accepted element makes the search succeed, at or before it.
pub proof fn lemma_first_match_found<T>(s: Seq<T>, p: spec_fn(T) -> bool, j: int)
    requires
        0 <= j < s.len(),
        p(s[j]),
    ensures
        0 <= first_match(s, p) <= j,
{
    lemma_first_match(s, p);
}

/// Filtering twice by the same predicate filters once.
pub proof fn lemma_filter_idempotent<T>(s: Seq<T>, p: spec_fn(T) -> bool)
    ensures
        s.filter(p).filter(p) == s.filter(p),
    decreases s.len(),
{
    reveal(Seq::filter);
    if s.len() > 0 {
        let t = s.drop_last().filter(p);
        lemma_filter_idempotent(s.drop_last(), p);
        if p(s.last()) {
            t.lemma_filter_push(s.last(), p);
        }
    }
}

/// A repository that the filter keeps can still be found by its id.
proof fn lemma_kept_repo_found(repos: Seq<Repo>, keep: spec_fn(Repo) -> bool, k: int)
    requires
        0 <= k < repos.len(),
        keep(repos[k]),
    ensures
        repo_pos(repos.filter(keep), repos[k].id@) >= 0,
{
    let f = repos.filter(keep);
    repos.lemma_filter_contains(keep, k);
    let j = choose|j: int| 0 <= j < f.len() && f[j] == repos[k];
    lemma_first_match_found(f, repo_id_is(repos[k].id@), j);
}

/// Law: after `select_repo` succeeds, the selection is the requested id and
/// names a known repository; it is refused exactly when no repository has
/// that id.
pub proof fn law_select_then_selected(c: ConfigView, id: Seq<char>)
    ensures
        select_repo_view(c, id) is Err <==> repo_pos(c.repos, id) == -1,
        select_repo_view(c, id) matches Ok(n) ==> n.selected == Some(id) && repo_pos(n.repos, id)
            >= 0,
{
    lemma_first_match(c.repos, repo_id_is(id));
}

/// Law: after `remove_repo`, no repository with that id is left, every other
/// repository is kept, and repeating the removal changes nothing.
pub proof fn law_remove_repo(c: ConfigView, id: Seq<char>)
    ensures
        repo_pos(remove_repo_view(c, id).repos, id) == -1,
        forall|k: int|
            0 <= k < c.repos.len() && (#[trigger] c.repos[k]).id@ != id ==> remove_repo_view(
                c,
                id,
            ).repos.contains(c.repos[k]),
        remove_repo_view(remove_repo_view(c, id), id) == remove_repo_view(c, id),
{
    let n = remove_repo_view(c, id);
    let keep = repo_id_isnt(id);
    assert forall|j: int| 0 <= j < n.repos.len() implies !repo_id_is(id)(#[trigger] n.repos[j]) by {
        c.repos.lemma_filter_pred(keep, j);
    }
    lemma_first_match_at(n.repos, repo_id_is(id), n.repos.len() as int);
    assert forall|k: int|
        0 <= k < c.repos.len() && (#[trigger] c.repos[k]).id@ != id implies n.repos.contains(
        c.repos[k],
    ) by {
        c.repos.lemma_filter_contains(keep, k);
    }
    lemma_filter_idempotent(c.repos, keep);
    if n.repos.len() > 0 {
        c.repos.lemma_filter_pred(keep, 0);
    }
}

/// Law: after `upsert_profile(p)`, looking up `p`'s id finds `p`; upserting
/// the same profile again changes nothing.
pub proof fn law_upsert_then_find(c: ConfigView, p: Profile)
    ensures
        profile_pos(upsert_profile_view(c, p).profiles, p.id@) >= 0,
        upsert_profile_view(c, p).profiles[profile_pos(upsert_profile_view(c, p).profiles, p.id@)]
            == p,
        upsert_profile_view(upsert_profile_view(c, p), p) == upsert_profile_view(c, p),
{
    let old = c.profiles;
    let i = profile_pos(old, p.id@);
    let new = upsert_profiles(old, p);
    let is_p = profile_id_is(p.id@);
    lemma_first_match(old, is_p);
    if i >= 0 {
        assert forall|j: int| 0 <= j < i implies !is_p(#[trigger] new[j]) by {
            assert(new[j] == old[j]);
        }
        lemma_first_match_at(new, is_p, i);
    } else {
        assert forall|j: int| 0 <= j < old.len() implies !is_p(#[trigger] new[j]) by {
            assert(new[j] == old[j]);
        }
        lemma_first_match_at(new, is_p, old.len() as int);
    }
    let k = profile_pos(new, p.id@);
    assert(new.update(k, p) =~= new);
}

/// Law: after `delete_profile(id)`, no profile has that id and no repository
/// is bound to it; every other profile is kept.
pub proof fn law_delete_profile(c: ConfigView, id: Seq<char>)
    ensures
        profile_pos(delete_profile_view(c, id).profiles, id) == -1,
        forall|i: int|
            0 <= i < c.repos.len() ==> opt_str(
                (#[trigger] delete_profile_view(c, id).repos[i]).profile_id,
            ) != Some(id),
        forall|k: int|
            0 <= k < c.profiles.len() && (#[trigger] c.profiles[k]).id@ != id
                ==> delete_profile_view(c, id).profiles.contains(c.profiles[k]),
{
    let n = delete_profile_view(c, id);
    let keep = profile_id_isnt(id);
    assert forall|j: int| 0 <= j < n.profiles.len() implies !profile_id_is(id)(
        #[trigger] n.profiles[j],
    ) by {
        c.profiles.lemma_filter_pred(keep, j);
    }
    lemma_first_match_at(n.profiles, profile_id_is(id), n.profiles.len() as int);
    assert forall|k: int|
        0 <= k < c.profiles.len() && (#[trigger] c.profiles[k]).id@ != id implies n.profiles.contains(
        c.profiles[k],
    ) by {
        c.profiles.lemma_filter_contains(keep, k);
    }
}

/// Law: after `bind_repo_profile` succeeds, the repository found by its id
/// carries the requested binding.
pub proof fn law_bind_then_find(c: ConfigView, repo_id: Seq<char>, pid: Option<String>)
    ensures
        bind_repo_profile_view(c, repo_id, pid) matches Ok(n) ==> {
            &&& repo_pos(n.repos, repo_id) == repo_pos(c.repos, repo_id) >= 0
            &&& n.repos[repo_pos(n.repos, repo_id)].profile_id == pid
        },
{
    let i = repo_pos(c.repos, repo_id);
    if bind_repo_profile_view(c, repo_id, pid) is Ok {
        let n = bind_repo_profile_view(c, repo_id, pid)->Ok_0;
        lemma_first_match(c.repos, repo_id_is(repo_id));
        assert forall|j: int| 0 <= j < i implies !repo_id_is(repo_id)(#[trigger] n.repos[j]) by {
            assert(n.repos[j] == c.repos[j]);
        }
        lemma_first_match_at(n.repos, repo_id_is(repo_id), i);
    }
}

/// Every operation on the configuration keeps it well formed.
pub proof fn law_operations_keep_well_formed(
    c: ConfigView,
    id: Seq<char>,
    p: Profile,
    pid: Option<String>,
)
    requires
        well_formed(c),
    ensures
        well_formed(remove_repo_view(c, id)),
        select_repo_view(c, id) matches Ok(n) ==> well_formed(n),
        well_formed(upsert_profile_view(c, p)),
        well_formed(delete_profile_view(c, id)),
        bind_repo_profile_view(c, id, pid) matches Ok(n) ==> well_formed(n),
{
    lemma_remove_keeps(c, id);
    law_select_then_selected(c, id);
    lemma_upsert_keeps(c, p);
    lemma_delete_keeps(c, id);
    lemma_bind_keeps(c, id, pid);
}

proof fn lemma_remove_keeps(c: ConfigView, id: Seq<char>)
    requires
        well_formed(c),
    ensures
        well_formed(remove_repo_view(c, id)),
{
    let n = remove_repo_view(c, id);
    let keep = repo_id_isnt(id);
    assert forall|i: int| 0 <= i < n.repos.len() implies binding_known(#[trigger] n.repos[i], n.profiles) by {
        c.repos.lemma_filter_contains_rev(keep, n.repos[i]);
    }
    if c.selected == Some(id) {
        if n.repos.len() > 0 {
            lemma_first_match_found(n.repos, repo_id_is(n.repos[0].id@), 0);
        }
    } else if c.selected is Some {
        let s = c.selected->0;
        lemma_first_match(c.repos, repo_id_is(s));
        lemma_kept_repo_found(c.repos, keep, repo_pos(c.repos, s));
    }
}

/// Replacing or adding a profile never loses a profile id.
proof fn lemma_upsert_keeps_ids(old: Seq<Profile>, p: Profile, q: Seq<char>)
    requires
        profile_pos(old, q) >= 0,
    ensures
        profile_pos(upsert_profiles(old, p), q) >= 0,
{
    let new = upsert_profiles(old, p);
    let k = profile_pos(old, q);
    let i = profile_pos(old, p.id@);
    lemma_first_match(old, profile_id_is(q));
    lemma_first_match(old, profile_id_is(p.id@));
    if i == k {
        assert(new[k].id@ == q);
    } else {
        assert(new[k] == old[k]);
    }
    lemma_first_match_found(new, profile_id_is(q), k);
}

proof fn lemma_upsert_keeps(c: ConfigView, p: Profile)
    requires
        well_formed(c),
    ensures
        well_formed(upsert_profile_view(c, p)),
{
    let n = upsert_profile_view(c, p);
    assert forall|i: int| 0 <= i < n.repos.len() implies binding_known(#[trigger] n.repos[i], n.profiles) by {
        if n.repos[i].profile_id is Some {
            lemma_upsert_keeps_ids(c.profiles, p, n.repos[i].profile_id->0@);
        }
    }
}

proof fn lemma_delete_keeps(c: ConfigView, id: Seq<char>)
    requires
        well_formed(c),
    ensures
        well_formed(delete_profile_view(c, id)),
{
    let n = delete_profile_view(c, id);
    let keep = profile_id_isnt(id);
    assert forall|i: int| 0 <= i < n.repos.len() implies binding_known(#[trigger] n.repos[i], n.profiles) by {
        if n.repos[i].profile_id is Some {
            let q = n.repos[i].profile_id->0@;
            assert(n.repos[i] == unbind(c.repos[i], id));
            assert(q != id);
            assert(c.repos[i].profile_id == n.repos[i].profile_id);
            lemma_first_match(c.profiles, profile_id_is(q));
            let k = profile_pos(c.profiles, q);
            c.profiles.lemma_filter_contains(keep, k);
            let j = choose|j: int| 0 <= j < n.profiles.len() && n.profiles[j] == c.profiles[k];
            lemma_first_match_found(n.profiles, profile_id_is(q), j);
        }
    }
    if c.selected is Some {
        assert(n.repos.len() == c.repos.len());
        let s = c.selected->0;
        lemma_first_match(c.repos, repo_id_is(s));
        let k = repo_pos(c.repos, s);
        assert(n.repos[k].id == c.repos[k].id);
        lemma_first_match_found(n.repos, repo_id_is(s), k);
    }
}

proof fn lemma_bind_keeps(c: ConfigView, repo_id: Seq<char>, pid: Option<String>)
    requires
        well_formed(c),
    ensures
        bind_repo_profile_view(c, repo_id, pid) matches Ok(n) ==> well_formed(n),
{
    if bind_repo_profile_view(c, repo_id, pid) is Ok {
        let n = bind_repo_profile_view(c, repo_id, pid)->Ok_0;
        let i = repo_pos(c.repos, repo_id);
        lemma_first_match(c.repos, repo_id_is(repo_id));
        assert forall|j: int| 0 <= j < n.repos.len() implies binding_known(#[trigger] n.repos[j], n.profiles) by {
            if j != i {
                assert(n.repos[j] == c.repos[j]);
            }
        }
        if c.selected is Some {
            let s = c.selected->0;
            lemma_first_match(c.repos, repo_id_is(s));
            let k = repo_pos(c.repos, s);
            assert(n.repos[k].id == c.repos[k].id);
            lemma_first_match_found(n.repos, repo_id_is(s), k);
        }
    }
}

/// Law: `upsert_profile` and `delete_profile` keep profile ids unique.
pub proof fn law_profile_ids_stay_unique(c: ConfigView, p: Profile, id: Seq<char>)
    requires
        profile_ids_unique(c.profiles),
    ensures
        profile_ids_unique(upsert_profile_view(c, p).profiles),
        profile_ids_unique(delete_profile_view(c, id).profiles),
{
    let old = c.profiles;
    let i = profile_pos(old, p.id@);
    lemma_first_match(old, profile_id_is(p.id@));
    let new = upsert_profiles(old, p);
    assert forall|a: int, b: int| 0 <= a < b < new.len() implies (#[trigger] new[a]).id@ != (
    #[trigger] new[b]).id@ by {
        if i < 0 && b == old.len() {
            assert(new[a] == old[a]);
        }
    }
    lemma_filter_unique(old, profile_id_isnt(id));
}

/// Filtering keeps ids unique.
proof fn lemma_filter_unique(s: Seq<Profile>, keep: spec_fn(Profile) -> bool)
    requires
        profile_ids_unique(s),
    ensures
        profile_ids_unique(s.filter(keep)),
    decreases s.len(),
{
    reveal(Seq::filter);
    if s.len() > 0 {
        let rest = s.drop_last();
        assert forall|a: int, b: int| 0 <= a < b < rest.len() implies (#[trigger] rest[a]).id@ != (
        #[trigger] rest[b]).id@ by {
            assert(rest[a] == s[a] && rest[b] == s[b]);
        }
        lemma_filter_unique(rest, keep);
        let t = rest.filter(keep);
        if keep(s.last()) {
            let u = t.push(s.last());
            assert forall|a: int, b: int| 0 <= a < b < u.len() implies (#[trigger] u[a]).id@ != (
            #[trigger] u[b]).id@ by {
                if b == t.len() {
                    assert(t.contains(u[a]));
                    rest.lemma_filter_contains_rev(keep, u[a]);
                    let k = choose|k: int| 0 <= k < rest.len() && rest[k] == u[a];
                    assert(s[k] == rest[k]);
                } else {
                    assert(u[a] == t[a] && u[b] == t[b]);
                }
            }
        }
    }
}

} // verus!
