//! SSH keys under `~/.ssh`, and the profiles made from them.
use vstd::prelude::*;
use crate::config::{AppConfig, ConfigError, ConfigView, Profile, well_formed, binding_known, profile_pos, first_match, profile_id_is, lemma_first_match, lemma_first_match_found};
use crate::ids::{new_id, uuid_shaped};
use crate::order::{text_less, text_lt, lemma_text_irreflexive, lemma_text_transitive};
use crate::path::{expand_spec, expand_tilde_with_home, home_dir, opt_text};
use crate::sort::{Ordered, is_sorted, sort_by_order, lemma_map_same_multiset};
use crate::text::{chars_of, concat_chars, ends_with, has_prefix, has_suffix, owned, same_chars, starts_with, str_eq, string_of, views, words, words_of};

verus! {

/// A private key found under `~/.ssh` that has a `.pub` companion.
#[derive(Debug)]
pub struct SshKeyInfo {
    pub name: String,
    pub path: String,
    pub pub_path: Option<String>,
    pub comment: Option<String>,
}

/// A regular file in the SSH directory whose name is valid text, with what
/// is known of its `.pub` companion.
#[derive(Debug)]
pub struct SshDirEntry {
    /// The file name.
    pub name: String,
    /// Whether `<name>.pub` is a regular file.
    pub has_pub: bool,
    /// The contents of `<name>.pub`, when it could be read as text.
    pub pub_contents: Option<String>,
}

/// The view of a key.
pub struct KeyView {
    pub name: Seq<char>,
    pub path: Seq<char>,
    pub pub_path: Option<Seq<char>>,
    pub comment: Option<Seq<char>>,
}

/// The view of `k`.
pub open spec fn key_view(k: SshKeyInfo) -> KeyView {
    KeyView {
        name: k.name@,
        path: k.path@,
        pub_path: opt_text(k.pub_path),
        comment: opt_text(k.comment),
    }
}

/// Maps a key to its view.
pub open spec fn key_viewer() -> spec_fn(SshKeyInfo) -> KeyView {
    |k: SshKeyInfo| key_view(k)
}

/// The views of `keys`.
pub open spec fn key_views(keys: Seq<SshKeyInfo>) -> Seq<KeyView> {
    keys.map_values(key_viewer())
}

impl Ordered for SshKeyInfo {
    open spec fn before(a: Self, b: Self) -> bool {
        text_lt(a.name@, b.name@)
    }

    proof fn lemma_before_irreflexive(a: Self) {
        lemma_text_irreflexive(a.name@);
    }

    proof fn lemma_before_transitive(a: Self, b: Self, c: Self) {
        lemma_text_transitive(a.name@, b.name@, c.name@);
    }

    fn is_before(&self, other: &Self) -> (r: bool) {
        text_less(&self.name, &other.name)
    }
}

/// Whether a file name can be a private key: not a `.pub` file, and not one
/// of SSH's own files (`config`, `config.*`, `known_hosts`, `known_hosts.*`,
/// `authorized_keys`, `authorized_keys2`).
pub open spec fn is_key_candidate(name: Seq<char>) -> bool {
    !{
        ||| has_suffix(name, ".pub"@)
        ||| name == "config"@
        ||| has_prefix(name, "config."@)
        ||| name == "known_hosts"@
        ||| has_prefix(name, "known_hosts."@)
        ||| name == "authorized_keys"@
        ||| name == "authorized_keys2"@
    }
}

/// The comment of a public key file: its third word, if it has one.
pub open spec fn key_comment(contents: Option<Seq<char>>) -> Option<Seq<char>> {
    match contents {
        Some(c) => if words(c).len() > 2 {
            Some(words(c)[2])
        } else {
            None
        },
        None => None,
    }
}

/// The key that a directory entry gives.
pub open spec fn key_for(e: SshDirEntry) -> KeyView {
    KeyView {
        name: e.name@,
        path: "~/.ssh/"@ + e.name@,
        pub_path: Some("~/.ssh/"@ + e.name@ + ".pub"@),
        comment: key_comment(opt_text(e.pub_contents)),
    }
}

/// Whether a directory entry is listed: a key candidate with a `.pub` file.
pub open spec fn is_listed(e: SshDirEntry) -> bool {
    is_key_candidate(e.name@) && e.has_pub
}

/// The keys that the entries give, in entry order.
pub open spec fn listed_keys(entries: Seq<SshDirEntry>) -> Seq<KeyView>
    decreases entries.len(),
{
    if entries.len() == 0 {
        Seq::empty()
    } else {
        let rest = listed_keys(entries.drop_last());
        if is_listed(entries.last()) {
            rest.push(key_for(entries.last()))
        } else {
            rest
        }
    }
}

/// Whether `name` can be a private key file.
pub fn is_key_file_name(name: &String) -> (r: bool)
    ensures
        r == is_key_candidate(name@),
{
    let v = chars_of(name.as_str());
    let pubx = chars_of(".pub");
    let config = chars_of("config");
    let config_dot = chars_of("config.");
    let known = chars_of("known_hosts");
    let known_dot = chars_of("known_hosts.");
    let auth = chars_of("authorized_keys");
    let auth2 = chars_of("authorized_keys2");
    !(ends_with(&v, &pubx) || same_chars(&v, &config) || starts_with(&v, &config_dot)
        || same_chars(&v, &known) || starts_with(&v, &known_dot) || same_chars(&v, &auth)
        || same_chars(&v, &auth2))
}

/// The comment of a public key file: its third word, if any.
pub fn public_key_comment(contents: &Option<String>) -> (r: Option<String>)
    ensures
        opt_text(r) == key_comment(opt_text(*contents)),
{
    match contents {
        None => None,
        Some(c) => {
            let ws = words_of(&chars_of(c.as_str()));
            assert(views(ws@).len() == ws@.len());
            if ws.len() > 2 {
                assert(views(ws@)[2] == ws@[2]@);
                Some(string_of(&ws[2]))
            } else {
                None
            }
        },
    }
}

/// The key that a listed directory entry gives.
fn key_from_entry(e: &SshDirEntry) -> (k: SshKeyInfo)
    ensures
        key_view(k) == key_for(*e),
{
    let name = chars_of(e.name.as_str());
    let dir = chars_of("~/.ssh/");
    let pubx = chars_of(".pub");
    let path = concat_chars(&dir, &name);
    let pub_path = concat_chars(&path, &pubx);
    SshKeyInfo {
        name: e.name.clone(),
        path: string_of(&path),
        pub_path: Some(string_of(&pub_path)),
        comment: public_key_comment(&e.pub_contents),
    }
}

/// The private keys among the entries of the SSH directory: candidates with
/// a `.pub` companion, named `~/.ssh/<name>`, with the comment of their public
/// key, sorted by name.
pub fn list_ssh_keys(entries: &Vec<SshDirEntry>) -> (r: Vec<SshKeyInfo>)
    ensures
        is_sorted(r@),
        key_views(r@).to_multiset() == listed_keys(entries@).to_multiset(),
{
    let mut keys: Vec<SshKeyInfo> = Vec::new();
    let n = entries.len();
    for i in 0..n
        invariant
            n == entries@.len(),
            key_views(keys@) == listed_keys(entries@.take(i as int)),
    {
        assert(entries@.take(i + 1).drop_last() =~= entries@.take(i as int));
        let e = &entries[i];
        if is_key_file_name(&e.name) && e.has_pub {
            let k = key_from_entry(e);
            keys.push(k);
            assert(key_views(keys@) =~= key_views(keys@.drop_last()).push(key_view(k)));
        }
    }
    assert(entries@.take(n as int) =~= entries@);
    let sorted = sort_by_order(keys);
    proof {
        lemma_map_same_multiset(sorted@, keys@, key_viewer());
    }
    sorted
}

/// The profile made for a key: named by the key's comment or file name,
/// with the key's path and empty identity fields.
pub open spec fn is_key_profile(p: Profile, k: SshKeyInfo) -> bool {
    &&& p.name@ == (match k.comment {
        Some(c) => c@,
        None => k.name@,
    })
    &&& p.user_name@.len() == 0
    &&& p.user_email@.len() == 0
    &&& p.ssh_key_path == k.path
    &&& p.ssh_host_alias@.len() == 0
}

/// The profile for `key`, with id `id`.
pub fn profile_for_key(key: &SshKeyInfo, id: String) -> (p: Profile)
    ensures
        is_key_profile(p, *key),
        p.id == id,
{
    let name = match &key.comment {
        Some(c) => c.clone(),
        None => key.name.clone(),
    };
    Profile {
        id,
        name,
        user_name: String::new(),
        user_email: String::new(),
        ssh_key_path: key.path.clone(),
        ssh_host_alias: String::new(),
    }
}

/// One profile per key, in key order, each with a fresh id.
pub fn default_profiles(keys: &Vec<SshKeyInfo>) -> (r: Vec<Profile>)
    ensures
        r@.len() == keys@.len(),
        forall|i: int|
            0 <= i < keys@.len() ==> is_key_profile(#[trigger] r@[i], keys@[i]) && uuid_shaped(
                r@[i].id@,
            ),
{
    let mut r: Vec<Profile> = Vec::new();
    let n = keys.len();
    for i in 0..n
        invariant
            n == keys@.len(),
            r@.len() == i,
            forall|j: int|
                0 <= j < i ==> is_key_profile(#[trigger] r@[j], keys@[j]) && uuid_shaped(
                    r@[j].id@,
                ),
    {
        let p = profile_for_key(&keys[i], new_id());
        r.push(p);
    }
    r
}

/// The configuration written on first use: no repositories and no
/// selection, with a profile for each SSH key when the keys could be listed,
/// and none when they could not.
pub fn initial_config(keys: Result<Vec<SshKeyInfo>, ConfigError>) -> (r: AppConfig)
    ensures
        r@.repos.len() == 0,
        r@.selected is None,
        match keys {
            Ok(ks) => r@.profiles.len() == ks@.len() && forall|i: int|
                0 <= i < ks@.len() ==> is_key_profile(#[trigger] r@.profiles[i], ks@[i])
                    && uuid_shaped(r@.profiles[i].id@),
            Err(_) => r@.profiles.len() == 0,
        },
{
    let profiles = match &keys {
        Ok(ks) => default_profiles(ks),
        Err(_) => Vec::new(),
    };
    AppConfig { repos: Vec::new(), profiles, selected_repo_id: None }
}

/// The key paths that profiles refer to.
pub open spec fn profile_paths(ps: Seq<Profile>) -> Seq<Seq<char>> {
    ps.map_values(|p: Profile| p.ssh_key_path@)
}

/// Whether some path of `paths` refers to the key at `key_path`: the same
/// text, or the same path once `~` is expanded.
pub open spec fn referenced(paths: Seq<Seq<char>>, key_path: Seq<char>, home: Option<Seq<char>>) -> bool {
    exists|i: int|
        0 <= i < paths.len() && (#[trigger] paths[i] == key_path || expand_spec(paths[i], home)
            == expand_spec(key_path, home))
}

/// The keys that importing adds, in order: each key that no profile refers
/// to yet, counting the profiles added for earlier keys.
pub open spec fn imported_keys(paths: Seq<Seq<char>>, keys: Seq<SshKeyInfo>, home: Option<Seq<char>>) -> Seq<SshKeyInfo>
    decreases keys.len(),
{
    if keys.len() == 0 {
        Seq::empty()
    } else if referenced(paths, keys[0].path@, home) {
        imported_keys(paths, keys.drop_first(), home)
    } else {
        seq![keys[0]] + imported_keys(paths.push(keys[0].path@), keys.drop_first(), home)
    }
}

/// `new` is `old` with one profile appended for each key of `added`, each
/// with a fresh id.
pub open spec fn appended_key_profiles(old: Seq<Profile>, new: Seq<Profile>, added: Seq<SshKeyInfo>) -> bool {
    &&& new.len() == old.len() + added.len()
    &&& new.take(old.len() as int) == old
    &&& forall|j: int|
        0 <= j < added.len() ==> is_key_profile(#[trigger] new[old.len() + j], added[j])
            && uuid_shaped(new[old.len() + j].id@)
}

/// What importing the keys against home `home` makes of configuration `c`.
pub open spec fn import_result(c: ConfigView, keys: Seq<SshKeyInfo>, home: Option<Seq<char>>, n: ConfigView) -> bool {
    &&& n.repos == c.repos
    &&& n.selected == c.selected
    &&& appended_key_profiles(c.profiles, n.profiles, imported_keys(profile_paths(c.profiles), keys, home))
}

/// Whether some profile of `profiles` refers to the key at `key_path`.
fn is_referenced(profiles: &Vec<Profile>, key_path: &String, abs: &String, home: &Option<String>) -> (r: bool)
    requires
        abs@ == expand_spec(key_path@, opt_text(*home)),
    ensures
        r == referenced(profile_paths(profiles@), key_path@, opt_text(*home)),
{
    let ghost paths = profile_paths(profiles@);
    let n = profiles.len();
    for j in 0..n
        invariant
            n == profiles@.len(),
            paths == profile_paths(profiles@),
            abs@ == expand_spec(key_path@, opt_text(*home)),
            forall|k: int|
                0 <= k < j ==> !(#[trigger] paths[k] == key_path@ || expand_spec(
                    paths[k],
                    opt_text(*home),
                ) == abs@),
    {
        let p = &profiles[j];
        assert(paths[j as int] == p.ssh_key_path@);
        if str_eq(p.ssh_key_path.as_str(), key_path.as_str()) {
            return true;
        }
        let e = expand_tilde_with_home(p.ssh_key_path.as_str(), crate::config::clone_opt(home));
        if str_eq(e.as_str(), abs.as_str()) {
            return true;
        }
    }
    false
}

/// Adds a profile, with a fresh id, for each key that no profile refers to
/// yet, expanding `~` against `home`.
pub fn import_missing_with_home(cfg: AppConfig, keys: &Vec<SshKeyInfo>, home: Option<String>) -> (r: AppConfig)
    ensures
        import_result(cfg@, keys@, opt_text(home), r@),
        well_formed(cfg@) ==> well_formed(r@),
{
    let ghost h = opt_text(home);
    let AppConfig { repos, mut profiles, selected_repo_id } = cfg;
    let ghost p0 = profiles@;
    let ghost mut added: Seq<SshKeyInfo> = Seq::empty();
    let n = keys.len();
    assert(keys@.skip(0) =~= keys@);
    assert(profiles@.take(p0.len() as int) =~= p0);
    assert(Seq::<SshKeyInfo>::empty() + imported_keys(profile_paths(p0), keys@, h) =~= imported_keys(profile_paths(p0), keys@, h));
    for i in 0..n
        invariant
            n == keys@.len(),
            h == opt_text(home),
            appended_key_profiles(p0, profiles@, added),
            added + imported_keys(profile_paths(profiles@), keys@.skip(i as int), h)
                == imported_keys(profile_paths(p0), keys@, h),
    {
        let key = &keys[i];
        let ghost rest = keys@.skip(i as int);
        assert(rest[0] == keys@[i as int]);
        assert(rest.drop_first() =~= keys@.skip(i + 1));
        let abs = expand_tilde_with_home(key.path.as_str(), crate::config::clone_opt(&home));
        if !is_referenced(&profiles, &key.path, &abs, &home) {
            let p = profile_for_key(key, new_id());
            let ghost before = profiles@;
            profiles.push(p);
            proof {
                assert(profile_paths(profiles@) =~= profile_paths(before).push(key.path@));
                assert(seq![*key] + imported_keys(profile_paths(profiles@), keys@.skip(i + 1), h)
                    == imported_keys(profile_paths(before), rest, h));
                assert(added.push(*key) + imported_keys(profile_paths(profiles@), keys@.skip(i + 1), h)
                    =~= added + (seq![*key] + imported_keys(profile_paths(profiles@), keys@.skip(i + 1), h)));
                assert(profiles@.take(p0.len() as int) =~= before.take(p0.len() as int));
                assert forall|j: int| 0 <= j < added.len() + 1 implies is_key_profile(
                    #[trigger] profiles@[p0.len() + j],
                    added.push(*key)[j],
                ) && uuid_shaped(profiles@[p0.len() + j].id@) by {
                    if j < added.len() {
                        assert(profiles@[p0.len() + j] == before[p0.len() + j]);
                    }
                }
                added = added.push(*key);
            }
        }
    }
    let r = AppConfig { repos, profiles, selected_repo_id };
    proof {
        assert(keys@.skip(n as int) =~= Seq::<SshKeyInfo>::empty());
        assert(added + Seq::<SshKeyInfo>::empty() =~= added);
        lemma_growing_profiles_keep_bindings(cfg@, r@);
    }
    r
}

/// Appending profiles keeps every binding valid.
proof fn lemma_growing_profiles_keep_bindings(c: ConfigView, n: ConfigView)
    requires
        n.repos == c.repos,
        n.selected == c.selected,
        n.profiles.len() >= c.profiles.len(),
        n.profiles.take(c.profiles.len() as int) == c.profiles,
    ensures
        well_formed(c) ==> well_formed(n),
{
    if well_formed(c) {
        assert forall|i: int| 0 <= i < n.repos.len() implies binding_known(
            #[trigger] n.repos[i],
            n.profiles,
        ) by {
            assert(binding_known(c.repos[i], c.profiles));
            if n.repos[i].profile_id is Some {
                let q = n.repos[i].profile_id->0@;
                lemma_first_match(c.profiles, profile_id_is(q));
                let k = profile_pos(c.profiles, q);
                assert(n.profiles[k] == c.profiles[k]);
                lemma_first_match_found(n.profiles, profile_id_is(q), k);
            }
        }
    }
}

/// Adds a profile, with a fresh id, for each SSH key that no profile refers
/// to yet. Whatever the home directory is, the result is the import against it.
pub fn import_missing_ssh_profiles(cfg: AppConfig, keys: &Vec<SshKeyInfo>) -> (r: AppConfig)
    ensures
        exists|h: Option<Seq<char>>| import_result(cfg@, keys@, h, r@),
        well_formed(cfg@) ==> well_formed(r@),
{
    let home = home_dir();
    let ghost h = opt_text(home);
    let r = import_missing_with_home(cfg, keys, home);
    assert(import_result(cfg@, keys@, h, r@));
    r
}

/// Law: after importing, every key is referred to by some profile; so
/// importing is idempotent: importing the same keys again (with the same home
/// directory) adds no profile.
pub proof fn law_import_idempotent(c: ConfigView, keys: Seq<SshKeyInfo>, home: Option<Seq<char>>, n: ConfigView)
    requires
        import_result(c, keys, home, n),
    ensures
        forall|t: int|
            0 <= t < keys.len() ==> referenced(profile_paths(n.profiles), #[trigger] keys[t].path@, home),
        imported_keys(profile_paths(n.profiles), keys, home).len() == 0,
{
    let old = c.profiles;
    let added = imported_keys(profile_paths(old), keys, home);
    let added_paths = added.map_values(|k: SshKeyInfo| k.path@);
    assert(profile_paths(n.profiles) =~= profile_paths(old) + added_paths) by {
        assert forall|i: int| 0 <= i < n.profiles.len() implies profile_paths(n.profiles)[i] == (
        profile_paths(old) + added_paths)[i] by {
            if i < old.len() {
                assert(n.profiles.take(old.len() as int)[i] == n.profiles[i]);
            } else {
                assert(is_key_profile(n.profiles[old.len() + (i - old.len())], added[i - old.len()]));
            }
        }
    }
    lemma_imported_referenced(profile_paths(old), keys, home);
    lemma_all_referenced_none_imported(profile_paths(old) + added_paths, keys, home);
}

/// Law: importing never adds a second profile for a key. Every profile it
/// adds is for a key that none of the existing profiles refers to (by the
/// same text or the same path once `~` is expanded against `home`), and no
/// two added profiles refer to the same key either. A key path that is
/// text-equal to an existing profile's key path gets no profile whatever the
/// home directory is.
pub proof fn law_import_adds_no_duplicate(c: ConfigView, keys: Seq<SshKeyInfo>, home: Option<Seq<char>>, n: ConfigView)
    requires
        import_result(c, keys, home, n),
    ensures
        forall|j: int|
            c.profiles.len() <= j < n.profiles.len() ==> !referenced(
                profile_paths(c.profiles),
                (#[trigger] n.profiles[j]).ssh_key_path@,
                home,
            ),
        forall|j: int, i: int|
            c.profiles.len() <= j < n.profiles.len() && 0 <= i < c.profiles.len() ==> (#[trigger] n.profiles[j]).ssh_key_path@
                != (#[trigger] c.profiles[i]).ssh_key_path@,
        forall|a: int, b: int|
            c.profiles.len() <= a < b < n.profiles.len() ==> !referenced(
                seq![(#[trigger] n.profiles[a]).ssh_key_path@],
                (#[trigger] n.profiles[b]).ssh_key_path@,
                home,
            ),
{
    let old = c.profiles;
    let paths = profile_paths(old);
    let added = imported_keys(paths, keys, home);
    lemma_imported_unreferenced(paths, keys, home);
    assert forall|j: int| old.len() <= j < n.profiles.len() implies n.profiles[j].ssh_key_path@ == added[j - old.len()].path@ by {
        assert(is_key_profile(n.profiles[old.len() + (j - old.len())], added[j - old.len()]));
    }
    assert forall|j: int, i: int|
        old.len() <= j < n.profiles.len() && 0 <= i < old.len() implies (#[trigger] n.profiles[j]).ssh_key_path@
            != (#[trigger] old[i]).ssh_key_path@ by {
        assert(paths[i] == old[i].ssh_key_path@);
        if n.profiles[j].ssh_key_path@ == old[i].ssh_key_path@ {
            assert(referenced(paths, n.profiles[j].ssh_key_path@, home));
        }
    }
}

/// The keys that importing adds are referred to by none of the paths, nor by
/// an earlier added key.
proof fn lemma_imported_unreferenced(paths: Seq<Seq<char>>, keys: Seq<SshKeyInfo>, home: Option<Seq<char>>)
    ensures
        forall|i: int|
            0 <= i < imported_keys(paths, keys, home).len() ==> !referenced(
                paths,
                (#[trigger] imported_keys(paths, keys, home)[i]).path@,
                home,
            ),
        forall|a: int, b: int|
            0 <= a < b < imported_keys(paths, keys, home).len() ==> !referenced(
                seq![(#[trigger] imported_keys(paths, keys, home)[a]).path@],
                (#[trigger] imported_keys(paths, keys, home)[b]).path@,
                home,
            ),
    decreases keys.len(),
{
    if keys.len() > 0 {
        let k0 = keys[0];
        let rest = keys.drop_first();
        if referenced(paths, k0.path@, home) {
            lemma_imported_unreferenced(paths, rest, home);
        } else {
            let grown = paths.push(k0.path@);
            lemma_imported_unreferenced(grown, rest, home);
            let tail = imported_keys(grown, rest, home);
            let all = imported_keys(paths, keys, home);
            assert(all == seq![k0] + tail);
            assert forall|i: int| 0 <= i < all.len() implies !referenced(paths, (#[trigger] all[i]).path@, home) by {
                if i > 0 {
                    assert(all[i] == tail[i - 1]);
                    if referenced(paths, tail[i - 1].path@, home) {
                        let w = choose|w: int|
                            0 <= w < paths.len() && (#[trigger] paths[w] == tail[i - 1].path@ || expand_spec(paths[w], home)
                                == expand_spec(tail[i - 1].path@, home));
                        assert(grown[w] == paths[w]);
                        assert(referenced(grown, tail[i - 1].path@, home));
                    }
                }
            }
            assert forall|a: int, b: int| 0 <= a < b < all.len() implies !referenced(
                seq![(#[trigger] all[a]).path@],
                (#[trigger] all[b]).path@,
                home,
            ) by {
                assert(all[b] == tail[b - 1]);
                if a == 0 {
                    if referenced(seq![k0.path@], tail[b - 1].path@, home) {
                        assert(seq![k0.path@][0] == k0.path@);
                        assert(grown[paths.len() as int] == k0.path@);
                        assert(referenced(grown, tail[b - 1].path@, home));
                    }
                } else {
                    assert(all[a] == tail[a - 1]);
                }
            }
        }
    }
}

/// After importing, every key is referenced by the grown list of paths.
proof fn lemma_imported_referenced(paths: Seq<Seq<char>>, keys: Seq<SshKeyInfo>, home: Option<Seq<char>>)
    ensures
        forall|t: int|
            0 <= t < keys.len() ==> referenced(
                paths + imported_keys(paths, keys, home).map_values(|k: SshKeyInfo| k.path@),
                #[trigger] keys[t].path@,
                home,
            ),
    decreases keys.len(),
{
    if keys.len() > 0 {
        let k0 = keys[0];
        let rest = keys.drop_first();
        let all = paths + imported_keys(paths, keys, home).map_values(|k: SshKeyInfo| k.path@);
        if referenced(paths, k0.path@, home) {
            lemma_imported_referenced(paths, rest, home);
            assert(all == paths + imported_keys(paths, rest, home).map_values(|k: SshKeyInfo| k.path@));
            let w = choose|i: int|
                0 <= i < paths.len() && (#[trigger] paths[i] == k0.path@ || expand_spec(paths[i], home)
                    == expand_spec(k0.path@, home));
            assert(all[w] == paths[w]);
        } else {
            let grown = paths.push(k0.path@);
            lemma_imported_referenced(grown, rest, home);
            assert(all =~= grown + imported_keys(grown, rest, home).map_values(|k: SshKeyInfo| k.path@));
            assert(all[paths.len() as int] == k0.path@);
        }
        assert forall|t: int| 0 <= t < keys.len() implies referenced(all, #[trigger] keys[t].path@, home) by {
            if t > 0 {
                assert(keys[t] == rest[t - 1]);
            } else {
                if !referenced(paths, k0.path@, home) {
                    assert(all[paths.len() as int] == k0.path@);
                }
            }
        }
    }
}

/// When every key is referenced already, importing adds nothing.
proof fn lemma_all_referenced_none_imported(paths: Seq<Seq<char>>, keys: Seq<SshKeyInfo>, home: Option<Seq<char>>)
    requires
        forall|t: int| 0 <= t < keys.len() ==> referenced(paths, #[trigger] keys[t].path@, home),
    ensures
        imported_keys(paths, keys, home).len() == 0,
    decreases keys.len(),
{
    if keys.len() > 0 {
        assert(referenced(paths, keys[0].path@, home));
        let rest = keys.drop_first();
        assert forall|t: int| 0 <= t < rest.len() implies referenced(paths, #[trigger] rest[t].path@, home) by {
            assert(rest[t] == keys[t + 1]);
        }
        lemma_all_referenced_none_imported(paths, rest, home);
    }
}

} // verus!
