//! File-system paths as text: joining, `~` expansion, the last component,
//! and where the configuration lives.
//!
//! The rules are those of Unix paths: `/` is the only separator and a path
//! is absolute when it starts with `/`. On Windows, `std::path` also treats
//! `\` as a separator and knows drive and verbatim prefixes; there the texts
//! built here still use `/` (which Windows accepts as a separator), and
//! `file_name` of a `\`-separated path is the whole path.
use vstd::prelude::*;
use crate::text::{
    chars_of, concat_chars, owned, same_chars, split_chars, split_on, string_of, views,
};

verus! {

/// `rest` appended to `base` as `PathBuf::push` does on Unix: an absolute
/// `rest` replaces `base`; otherwise one `/` separates them unless `base` is
/// empty or already ends with one.
pub open spec fn join_spec(base: Seq<char>, rest: Seq<char>) -> Seq<char> {
    if rest.len() > 0 && rest[0] == '/' {
        rest
    } else if base.len() == 0 || base.last() == '/' {
        base + rest
    } else {
        base + seq!['/'] + rest
    }
}

/// `rest` joined onto `base`.
pub fn join_path(base: &str, rest: &str) -> (r: String)
    ensures
        r@ == join_spec(base@, rest@),
{
    let b = chars_of(base);
    let t = chars_of(rest);
    if t.len() > 0 && t[0] == '/' {
        return string_of(&t);
    }
    if b.len() == 0 || b[b.len() - 1] == '/' {
        let j = concat_chars(&b, &t);
        return string_of(&j);
    }
    let mut sep: Vec<char> = Vec::new();
    sep.push('/');
    let bs = concat_chars(&b, &sep);
    let j = concat_chars(&bs, &t);
    assert(sep@ =~= seq!['/']);
    string_of(&j)
}

/// `path` with a leading `~/` or a lone `~` replaced by `home`; without a
/// home, or without a leading `~`, the path is unchanged.
pub open spec fn expand_spec(path: Seq<char>, home: Option<Seq<char>>) -> Seq<char> {
    if path.len() >= 2 && path[0] == '~' && path[1] == '/' && home is Some {
        join_spec(home->0, path.skip(2))
    } else if path =~= seq!['~'] && home is Some {
        home->0
    } else {
        path
    }
}

/// The user's home directory (`dirs::home_dir`), as text. What it returns
/// depends on the environment; the crate returns `None` rather than an empty
/// path, which the contract states. Nothing else is stated of its value.
#[verifier::external_body]
pub(crate) fn home_dir() -> (r: Option<String>)
    ensures
        r matches Some(h) ==> h@.len() > 0,
{
    match dirs::home_dir() {
        Some(p) => Some(p.to_string_lossy().into_owned()),
        None => None,
    }
}

/// `path` with `~` expanded against the given home directory.
pub fn expand_tilde_with_home(path: &str, home: Option<String>) -> (r: String)
    ensures
        r@ == expand_spec(path@, opt_text(home)),
{
    let v = chars_of(path);
    if v.len() >= 2 && v[0] == '~' && v[1] == '/' {
        if let Some(h) = &home {
            let rest = crate::text::slice_chars(&v, 2, v.len());
            let rs = string_of(&rest);
            assert(rest@ =~= path@.skip(2));
            return join_path(h.as_str(), rs.as_str());
        }
    }
    if v.len() == 1 && v[0] == '~' {
        if let Some(h) = home {
            assert(path@ =~= seq!['~']);
            return h;
        }
    }
    proof {
        if v@.len() == 1 && v@[0] == '~' {
            assert(path@ =~= seq!['~']);
        }
        if path@ =~= seq!['~'] {
            assert(v@.len() == 1 && v@[0] == '~');
        }
    }
    owned(path)
}

/// The view of an optional string.
pub open spec fn opt_text(o: Option<String>) -> Option<Seq<char>> {
    match o {
        Some(s) => Some(s@),
        None => None,
    }
}

/// `path` with `~` expanded against the user's home directory, found afresh.
/// Whatever the home directory is, the result is the expansion against it; a
/// path that does not begin with `~` is returned as it is.
pub fn expand_tilde(path: &str) -> (r: String)
    ensures
        exists|h: Option<Seq<char>>| r@ == expand_spec(path@, h),
        (path@.len() == 0 || path@[0] != '~') ==> r@ == path@,
{
    let home = home_dir();
    let ghost h = opt_text(home);
    let r = expand_tilde_with_home(path, home);
    assert(r@ == expand_spec(path@, h));
    r
}

/// Whether a path component is kept by `Path::components` other than at
/// the start: empty pieces and `.` are dropped.
pub open spec fn is_component(seg: Seq<char>) -> bool {
    seg.len() > 0 && !(seg =~= seq!['.'])
}

/// The components of a Unix path, without the root and `.` pieces.
pub open spec fn components(p: Seq<char>) -> Seq<Seq<char>> {
    split_on(p, '/').filter(|seg: Seq<char>| is_component(seg))
}

/// The last component of `p`, unless there is none or it is `..`
/// (`Path::file_name`).
pub open spec fn file_name_spec(p: Seq<char>) -> Option<Seq<char>> {
    let comps = components(p);
    if comps.len() == 0 || comps.last() =~= seq!['.', '.'] {
        None
    } else {
        Some(comps.last())
    }
}

/// The last component of `path`, unless there is none or it is `..`.
pub fn file_name(path: &str) -> (r: Option<String>)
    ensures
        opt_text(r) == file_name_spec(path@),
{
    let v = chars_of(path);
    let pieces = split_chars(&v, '/');
    let ghost keep = |seg: Seq<char>| is_component(seg);
    let ghost all = views(pieces@);
    let mut last: Option<Vec<char>> = None;
    let ghost mut kept: Seq<Seq<char>> = Seq::empty();
    let n = pieces.len();
    for i in 0..n
        invariant
            n == pieces@.len(),
            all == views(pieces@),
            keep == (|seg: Seq<char>| is_component(seg)),
            kept == all.take(i as int).filter(keep),
            match last {
                Some(l) => kept.len() > 0 && l@ == kept.last(),
                None => kept.len() == 0,
            },
    {
        let seg = &pieces[i];
        assert(all.take(i + 1) =~= all.take(i as int).push(all[i as int]));
        assert(all[i as int] == seg@);
        proof {
            all.take(i as int).lemma_filter_push(all[i as int], keep);
        }
        let is_dot = seg.len() == 1 && seg[0] == '.';
        assert(is_dot == (seg@ =~= seq!['.']));
        if seg.len() > 0 && !is_dot {
            let mut copy: Vec<char> = Vec::new();
            copy = crate::text::slice_chars(seg, 0, seg.len());
            assert(copy@ =~= seg@);
            last = Some(copy);
            proof {
                kept = kept.push(seg@);
            }
        }
    }
    assert(all.take(n as int) =~= all);
    match last {
        None => None,
        Some(l) => {
            let mut dd: Vec<char> = Vec::new();
            dd.push('.');
            dd.push('.');
            assert(dd@ =~= seq!['.', '.']);
            if same_chars(&l, &dd) {
                None
            } else {
                Some(string_of(&l))
            }
        },
    }
}

/// The configuration directory that is preferred: `~/.gitswitch`.
pub fn preferred_config_dir(home: &str) -> (r: String)
    ensures
        r@ == join_spec(home@, ".gitswitch"@),
{
    join_path(home, ".gitswitch")
}

/// The configuration directory of earlier releases: `~/.gitbench`.
pub fn legacy_config_dir(home: &str) -> (r: String)
    ensures
        r@ == join_spec(home@, ".gitbench"@),
{
    join_path(home, ".gitbench")
}

/// Where the configuration lives: the legacy directory is kept while it
/// exists and the preferred one does not; otherwise the preferred one.
pub fn config_dir(home: &str, preferred_exists: bool, legacy_exists: bool) -> (r: String)
    ensures
        r@ == (if !preferred_exists && legacy_exists {
            join_spec(home@, ".gitbench"@)
        } else {
            join_spec(home@, ".gitswitch"@)
        }),
{
    if !preferred_exists && legacy_exists {
        legacy_config_dir(home)
    } else {
        preferred_config_dir(home)
    }
}

/// The configuration file inside directory `dir`.
pub fn config_path(dir: &str) -> (r: String)
    ensures
        r@ == join_spec(dir@, "config.json"@),
{
    join_path(dir, "config.json")
}

/// The SSH directory under `home`.
pub fn ssh_dir(home: &str) -> (r: String)
    ensures
        r@ == join_spec(home@, ".ssh"@),
{
    join_path(home, ".ssh")
}

} // verus!
