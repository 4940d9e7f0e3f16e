//! What the git commands are asked and what their output means: branch
//! listings, repository status, identity settings, and the command
//! sequences of checkout, fetch and push.
use vstd::prelude::*;
use crate::config::{
    ConfigError, Profile, first_match, is_message, lemma_first_match_at, message_error,
};
use crate::order::{
    lemma_opt_irreflexive, lemma_opt_total, lemma_opt_transitive, lemma_text_irreflexive,
    lemma_text_transitive, opt_text_less, opt_text_lt, opt_view, text_less, text_lt,
};
use crate::path::{expand_spec, expand_tilde_with_home, home_dir, join_spec, opt_text};
use crate::sort::{Ordered, is_sorted, lemma_map_same_multiset, sort_by_order};
use crate::text::{
    all_ws, chars_of, concat_chars, ends_with, find_char_from, has_suffix, is_blank, is_char,
    lines, lines_of, owned, run_len, same_chars, slice_chars, string_of, string_views, trim,
    trim_chars, views,
};

verus! {

/// A branch as the branch list shows it.
#[derive(Debug)]
pub struct BranchInfo {
    pub name: String,
    pub is_current: bool,
    pub is_remote: bool,
    pub upstream: Option<String>,
    /// The remote this branch belongs to or tracks (such as `origin`).
    pub remote: Option<String>,
}

/// The view of a branch.
pub struct BranchView {
    pub name: Seq<char>,
    pub is_current: bool,
    pub is_remote: bool,
    pub upstream: Option<Seq<char>>,
    pub remote: Option<Seq<char>>,
}

/// The view of `b`.
pub open spec fn branch_view(b: BranchInfo) -> BranchView {
    BranchView {
        name: b.name@,
        is_current: b.is_current,
        is_remote: b.is_remote,
        upstream: opt_text(b.upstream),
        remote: opt_text(b.remote),
    }
}

/// Maps a branch to its view.
pub open spec fn branch_viewer() -> spec_fn(BranchInfo) -> BranchView {
    |b: BranchInfo| branch_view(b)
}

/// The views of `bs`.
pub open spec fn branch_views(bs: Seq<BranchInfo>) -> Seq<BranchView> {
    bs.map_values(branch_viewer())
}

/// Branch list order: the current branch first, then local before remote
/// branches, then by remote (none first), then by name.
pub open spec fn branch_before(a: BranchInfo, b: BranchInfo) -> bool {
    if a.is_current != b.is_current {
        a.is_current
    } else if a.is_remote != b.is_remote {
        !a.is_remote
    } else if opt_text_lt(opt_view(a.remote), opt_view(b.remote)) {
        true
    } else if opt_text_lt(opt_view(b.remote), opt_view(a.remote)) {
        false
    } else {
        text_lt(a.name@, b.name@)
    }
}

impl Ordered for BranchInfo {
    open spec fn before(a: Self, b: Self) -> bool {
        branch_before(a, b)
    }

    proof fn lemma_before_irreflexive(a: Self) {
        lemma_opt_irreflexive(opt_view(a.remote));
        lemma_text_irreflexive(a.name@);
    }

    proof fn lemma_before_transitive(a: Self, b: Self, c: Self) {
        let (ra, rb, rc) = (opt_view(a.remote), opt_view(b.remote), opt_view(c.remote));
        if opt_text_lt(ra, rb) && opt_text_lt(rb, rc) {
            lemma_opt_transitive(ra, rb, rc);
        }
        if !opt_text_lt(ra, rb) && !opt_text_lt(rb, ra) {
            lemma_opt_total(ra, rb);
        }
        if !opt_text_lt(rb, rc) && !opt_text_lt(rc, rb) {
            lemma_opt_total(rb, rc);
        }
        if opt_text_lt(ra, rb) && opt_text_lt(rb, ra) {
            lemma_opt_transitive(ra, rb, ra);
            lemma_opt_irreflexive(ra);
        }
        if opt_text_lt(rb, rc) && opt_text_lt(rc, rb) {
            lemma_opt_transitive(rb, rc, rb);
            lemma_opt_irreflexive(rb);
        }
        if opt_text_lt(rc, ra) && opt_text_lt(ra, rb) {
            lemma_opt_transitive(rc, ra, rb);
        }
        if opt_text_lt(rb, rc) && opt_text_lt(rc, ra) {
            lemma_opt_transitive(rb, rc, ra);
        }
        if text_lt(a.name@, b.name@) && text_lt(b.name@, c.name@) {
            lemma_text_transitive(a.name@, b.name@, c.name@);
        }
    }

    fn is_before(&self, other: &Self) -> (r: bool) {
        if self.is_current != other.is_current {
            self.is_current
        } else if self.is_remote != other.is_remote {
            !self.is_remote
        } else if opt_text_less(&self.remote, &other.remote) {
            true
        } else if opt_text_less(&other.remote, &self.remote) {
            false
        } else {
            text_less(&self.name, &other.name)
        }
    }
}

/// The branch that `git rev-parse --abbrev-ref HEAD` names, unless HEAD is
/// detached (it then prints `HEAD`) or the command failed.
pub open spec fn current_branch(head: Option<Seq<char>>) -> Option<Seq<char>> {
    match head {
        Some(h) => if trim(h) == "HEAD"@ {
            None
        } else {
            Some(trim(h))
        },
        None => None,
    }
}

/// The remote of a ref such as `origin/main`: the text before the first
/// `/`, unless the ref is blank.
pub open spec fn remote_of_ref(r: Seq<char>) -> Option<Seq<char>> {
    let t = trim(r);
    if t.len() == 0 {
        None
    } else {
        Some(t.take(run_len(t, is_char('/')) as int))
    }
}

/// The text of `l` before its first `|`.
pub open spec fn before_bar(l: Seq<char>) -> Seq<char> {
    l.take(run_len(l, is_char('|')) as int)
}

/// The text of `l` after its first `|`, if it has one.
pub open spec fn after_bar(l: Seq<char>) -> Option<Seq<char>> {
    let n = run_len(l, is_char('|'));
    if n < l.len() {
        Some(l.skip(n as int + 1))
    } else {
        None
    }
}

/// The trimmed text, unless it is blank.
pub open spec fn nonblank(o: Option<Seq<char>>) -> Option<Seq<char>> {
    match o {
        Some(s) => if trim(s).len() > 0 {
            Some(trim(s))
        } else {
            None
        },
        None => None,
    }
}

/// The remote that a local branch tracks: the remote name that git reports
/// for its upstream (`%(upstream:remotename)`), trimmed; none when there is no
/// upstream, when git reports no remote, or when the upstream is a local
/// branch (git reports the remote `.`).
pub open spec fn tracked_remote(upstream: Option<Seq<char>>, remote_name: Option<Seq<char>>) -> Option<Seq<char>> {
    match upstream {
        Some(_) => match nonblank(remote_name) {
            Some(r) => if r == "."@ {
                None
            } else {
                Some(r)
            },
            None => None,
        },
        None => None,
    }
}

/// The local branch that a `name|upstream|remotename` line describes (the
/// output of `git for-each-ref
/// --format=%(refname:short)|%(upstream:short)|%(upstream:remotename)`):
/// the trimmed name, the upstream unless blank, and the remote it tracks.
/// A branch whose upstream is a local branch tracks no remote.
pub open spec fn local_branch(l: Seq<char>, current: Option<Seq<char>>) -> BranchView {
    let name = trim(before_bar(l));
    let rest = after_bar(l);
    let upstream = match rest {
        Some(t) => nonblank(Some(before_bar(t))),
        None => None,
    };
    let remote_name = match rest {
        Some(t) => after_bar(t),
        None => None,
    };
    BranchView {
        name: name,
        is_current: current == Some(name),
        is_remote: false,
        upstream: upstream,
        remote: tracked_remote(upstream, remote_name),
    }
}

/// The local branches of the lines, blank lines skipped.
pub open spec fn local_branches(ls: Seq<Seq<char>>, current: Option<Seq<char>>) -> Seq<BranchView>
    decreases ls.len(),
{
    if ls.len() == 0 {
        Seq::empty()
    } else {
        let rest = local_branches(ls.drop_last(), current);
        if all_ws(ls.last()) {
            rest
        } else {
            rest.push(local_branch(ls.last(), current))
        }
    }
}

/// Whether a remote ref line names a branch: not blank, not `<remote>/HEAD`.
pub open spec fn is_remote_branch_line(l: Seq<char>) -> bool {
    trim(l).len() > 0 && !has_suffix(trim(l), "/HEAD"@)
}

/// The remote-tracking branch that a line names.
pub open spec fn remote_branch(l: Seq<char>) -> BranchView {
    BranchView {
        name: trim(l),
        is_current: false,
        is_remote: true,
        upstream: None,
        remote: remote_of_ref(trim(l)),
    }
}

/// The remote branches of the lines.
pub open spec fn remote_branches(ls: Seq<Seq<char>>) -> Seq<BranchView>
    decreases ls.len(),
{
    if ls.len() == 0 {
        Seq::empty()
    } else {
        let rest = remote_branches(ls.drop_last());
        if is_remote_branch_line(ls.last()) {
            rest.push(remote_branch(ls.last()))
        } else {
            rest
        }
    }
}

/// The branches that the outputs describe, in output order: local ones,
/// then remote ones.
pub open spec fn listed_branches(
    head: Option<Seq<char>>,
    local_raw: Seq<char>,
    remote_raw: Option<Seq<char>>,
) -> Seq<BranchView> {
    local_branches(lines(local_raw), current_branch(head)) + remote_branches(
        lines(
            match remote_raw {
                Some(r) => r,
                None => Seq::empty(),
            },
        ),
    )
}

/// The remote of `ref_name`: the text before its first `/`, unless it is blank.
pub fn remote_from_ref(ref_name: &str) -> (r: Option<String>)
    ensures
        opt_text(r) == remote_of_ref(ref_name@),
{
    let t = trim_chars(&chars_of(ref_name));
    if t.len() == 0 {
        return None;
    }
    let j = find_char_from(&t, '/', 0);
    assert(t@.skip(0) =~= t@);
    Some(string_of(&slice_chars(&t, 0, j)))
}

/// The view of optional characters.
pub open spec fn opt_chars(o: Option<Vec<char>>) -> Option<Seq<char>> {
    match o {
        Some(v) => Some(v@),
        None => None,
    }
}

/// The branch that HEAD names, from the output of
/// `git rev-parse --abbrev-ref HEAD`.
fn current_from_head(head: &Option<String>) -> (r: Option<Vec<char>>)
    ensures
        match r {
            Some(v) => current_branch(opt_text(*head)) == Some(v@),
            None => current_branch(opt_text(*head)) is None,
        },
{
    match head {
        None => None,
        Some(h) => {
            let t = trim_chars(&chars_of(h.as_str()));
            let head_word = chars_of("HEAD");
            if same_chars(&t, &head_word) {
                None
            } else {
                Some(t)
            }
        },
    }
}

/// The trimmed characters of `v` from `lo` up to `hi`, unless they are blank.
fn nonblank_slice(v: &Vec<char>, lo: usize, hi: usize) -> (r: Option<Vec<char>>)
    requires
        lo <= hi <= v.len(),
    ensures
        opt_chars(r) == nonblank(Some(v@.subrange(lo as int, hi as int))),
{
    let t = trim_chars(&slice_chars(v, lo, hi));
    if t.len() > 0 {
        Some(t)
    } else {
        None
    }
}

/// The remote a local branch tracks, from its upstream and the text where
/// git reported the remote name.
fn remote_of_upstream(upstream: &Option<Vec<char>>, remote_text: Option<Vec<char>>) -> (r: Option<String>)
    ensures
        opt_text(r) == tracked_remote(opt_chars(*upstream), opt_chars(remote_text)),
{
    if upstream.is_none() {
        return None;
    }
    match remote_text {
        None => None,
        Some(raw) => {
            let t = trim_chars(&raw);
            if t.len() == 0 {
                return None;
            }
            let dot = chars_of(".");
            if same_chars(&t, &dot) {
                None
            } else {
                Some(string_of(&t))
            }
        },
    }
}

/// The local branch of a `name|upstream|remotename` line.
fn parse_local_line(l: &Vec<char>, current: &Option<Vec<char>>) -> (b: BranchInfo)
    ensures
        branch_view(b) == local_branch(l@, opt_chars(*current)),
{
    let n = l.len();
    let j = find_char_from(l, '|', 0);
    assert(l@.skip(0) =~= l@);
    let name = trim_chars(&slice_chars(l, 0, j));
    assert(l@.subrange(0, j as int) =~= before_bar(l@));
    let mut upstream: Option<Vec<char>> = None;
    let mut remote_name: Option<Vec<char>> = None;
    if j < n {
        let ghost t = l@.skip(j + 1);
        assert(after_bar(l@) == Some(t));
        let k = find_char_from(l, '|', j + 1);
        assert(l@.subrange(j + 1, k as int) =~= before_bar(t));
        upstream = nonblank_slice(l, j + 1, k);
        if k < n {
            assert(l@.subrange(k + 1, n as int) =~= t.skip(k - j));
            remote_name = Some(slice_chars(l, k + 1, n));
            assert(after_bar(t) == Some(l@.subrange(k + 1, n as int)));
        } else {
            assert(after_bar(t) is None);
        }
    }
    let remote = remote_of_upstream(&upstream, remote_name);
    let is_current = match current {
        Some(c) => same_chars(c, &name),
        None => false,
    };
    BranchInfo {
        name: string_of(&name),
        is_current,
        is_remote: false,
        upstream: match upstream {
            Some(u) => Some(string_of(&u)),
            None => None,
        },
        remote,
    }
}

/// The branches that git reports, sorted for display: `head` is the output
/// of `git rev-parse --abbrev-ref HEAD` (if it succeeded), `local_raw` that
/// of `git for-each-ref
/// --format=%(refname:short)|%(upstream:short)|%(upstream:remotename) refs/heads`,
/// `remote_raw` that of `git for-each-ref --format=%(refname:short)
/// refs/remotes` (if it succeeded).
pub fn list_branches(head: Option<String>, local_raw: &str, remote_raw: Option<String>) -> (r: Vec<BranchInfo>)
    ensures
        is_sorted(r@),
        branch_views(r@).to_multiset() == listed_branches(
            opt_text(head),
            local_raw@,
            opt_text(remote_raw),
        ).to_multiset(),
{
    let current = current_from_head(&head);
    let ghost cur = opt_chars(current);
    let local_lines = lines_of(&chars_of(local_raw));
    let ghost ll = views(local_lines@);
    let mut branches: Vec<BranchInfo> = Vec::new();
    let n = local_lines.len();
    for i in 0..n
        invariant
            n == local_lines@.len(),
            ll == views(local_lines@),
            cur == opt_chars(current),
            branch_views(branches@) == local_branches(ll.take(i as int), cur),
    {
        let l = &local_lines[i];
        assert(ll.take(i + 1).drop_last() =~= ll.take(i as int));
        assert(ll[i as int] == l@);
        if !is_blank(l) {
            let b = parse_local_line(l, &current);
            branches.push(b);
            assert(branch_views(branches@) =~= branch_views(branches@.drop_last()).push(
                branch_view(b),
            ));
        }
    }
    assert(ll.take(n as int) =~= ll);
    let ghost local_part = branch_views(branches@);
    let remote_text = match &remote_raw {
        Some(r) => chars_of(r.as_str()),
        None => Vec::new(),
    };
    let remote_lines = lines_of(&remote_text);
    let ghost rl = views(remote_lines@);
    let m = remote_lines.len();
    let head_suffix = chars_of("/HEAD");
    for i in 0..m
        invariant
            m == remote_lines@.len(),
            rl == views(remote_lines@),
            head_suffix@ == "/HEAD"@,
            branch_views(branches@) == local_part + remote_branches(rl.take(i as int)),
    {
        let l = &remote_lines[i];
        assert(rl.take(i + 1).drop_last() =~= rl.take(i as int));
        assert(rl[i as int] == l@);
        let name = trim_chars(l);
        if name.len() > 0 && !ends_with(&name, &head_suffix) {
            let b = BranchInfo {
                name: string_of(&name),
                is_current: false,
                is_remote: true,
                upstream: None,
                remote: remote_from_ref(string_of(&name).as_str()),
            };
            proof {
                crate::text::lemma_trim_idempotent(l@);
            }
            let ghost before = branch_views(branches@);
            branches.push(b);
            assert(branch_views(branches@) =~= before.push(branch_view(b)));
        }
    }
    assert(rl.take(m as int) =~= rl);
    proof {
        assert(remote_text@ == match opt_text(remote_raw) {
            Some(r) => r,
            None => Seq::<char>::empty(),
        });
    }
    let sorted = sort_by_order(branches);
    proof {
        lemma_map_same_multiset(sorted@, branches@, branch_viewer());
    }
    sorted
}

/// A remote as `git remote -v` lists it.
#[derive(Debug)]
pub struct RemoteInfo {
    pub name: String,
    pub url: String,
}

/// The view of a remote: its name and URL.
pub struct RemoteView {
    pub name: Seq<char>,
    pub url: Seq<char>,
}

/// The state of a repository as the status panel shows it.
#[derive(Debug)]
pub struct RepoStatus {
    pub path: String,
    pub current_branch: Option<String>,
    pub is_dirty: bool,
    pub ahead: u32,
    pub behind: u32,
    pub remotes: Vec<RemoteInfo>,
    pub user_name: Option<String>,
    pub user_email: Option<String>,
    pub ssh_command: Option<String>,
}

/// What git printed for the status of a repository; `None` where the command
/// failed.
#[derive(Debug)]
pub struct StatusOutputs {
    /// `git rev-parse --abbrev-ref HEAD`
    pub head: Option<String>,
    /// `git status --porcelain` (which must succeed)
    pub porcelain: String,
    /// `git rev-list --left-right --count HEAD...@{upstream}`
    pub counts: Option<String>,
    /// `git remote -v`
    pub remotes: Option<String>,
    /// `git config --local --get user.name`
    pub user_name: Option<String>,
    /// `git config --local --get user.email`
    pub user_email: Option<String>,
    /// `git config --local --get core.sshCommand`
    pub ssh_command: Option<String>,
}

/// An ASCII decimal digit.
pub open spec fn is_digit(c: char) -> bool {
    '0' <= c && c <= '9'
}

/// Whether every character of `d` is a decimal digit.
pub open spec fn all_digits(d: Seq<char>) -> bool {
    forall|i: int| 0 <= i < d.len() ==> is_digit(#[trigger] d[i])
}

/// The value of a run of decimal digits.
pub open spec fn digits_value(d: Seq<char>) -> int
    decreases d.len(),
{
    if d.len() == 0 {
        0
    } else {
        digits_value(d.drop_last()) * 10 + (d.last() as int - '0' as int)
    }
}

/// `u32::from_str`: an optional `+`, then one or more decimal digits whose
/// value fits in a `u32`.
pub open spec fn parse_u32_spec(s: Seq<char>) -> Option<u32> {
    let d = if s.len() > 0 && s[0] == '+' {
        s.skip(1)
    } else {
        s
    };
    if d.len() == 0 || !all_digits(d) || digits_value(d) > u32::MAX {
        None
    } else {
        Some(digits_value(d) as u32)
    }
}

proof fn lemma_digits_value_grows(d: Seq<char>, k: int)
    requires
        0 <= k <= d.len(),
        forall|i: int| 0 <= i < d.len() ==> is_digit(#[trigger] d[i]),
    ensures
        0 <= digits_value(d.take(k)) <= digits_value(d),
    decreases d.len(),
{
    if k < d.len() {
        assert forall|i: int| 0 <= i < d.drop_last().len() implies is_digit(#[trigger] d.drop_last()[i]) by {
            assert(d.drop_last()[i] == d[i]);
        }
        lemma_digits_value_grows(d.drop_last(), k);
        assert(d.drop_last().take(k) =~= d.take(k));
        assert(is_digit(d.last()));
        lemma_digits_value_grows(d.drop_last(), d.len() - 1);
        assert(d.drop_last().take(d.len() - 1) =~= d.drop_last());
    } else {
        assert(d.take(k) =~= d);
        if d.len() > 0 {
            assert forall|i: int| 0 <= i < d.drop_last().len() implies is_digit(#[trigger] d.drop_last()[i]) by {
                assert(d.drop_last()[i] == d[i]);
            }
            lemma_digits_value_grows(d.drop_last(), d.len() - 1);
            assert(d.drop_last().take(d.len() - 1) =~= d.drop_last());
        }
    }
}

/// The `u32` that `s` spells, if any.
#[verifier::rlimit(30)]
pub fn parse_u32(s: &Vec<char>) -> (r: Option<u32>)
    ensures
        r == parse_u32_spec(s@),
{
    let n = s.len();
    let start: usize = if n > 0 && s[0] == '+' {
        1
    } else {
        0
    };
    let ghost d = if s@.len() > 0 && s@[0] == '+' {
        s@.skip(1)
    } else {
        s@
    };
    assert(d =~= s@.skip(start as int));
    if start == n {
        return None;
    }
    let mut acc: u64 = 0;
    let mut i = start;
    while i < n
        invariant
            start <= i <= n == s@.len(),
            d == s@.skip(start as int),
            d == (if s@.len() > 0 && s@[0] == '+' {
                s@.skip(1)
            } else {
                s@
            }),
            d.len() > 0,
            forall|k: int| start <= k < i ==> is_digit(#[trigger] s@[k]),
            acc == digits_value(d.take(i - start)),
            acc <= u32::MAX,
        decreases n - i,
    {
        let c = s[i];
        if !('0' <= c && c <= '9') {
            assert(d[i - start] == c);
            assert(!is_digit(d[i - start]));
            return None;
        }
        let digit = (c as u32 - '0' as u32) as u64;
        assert(d.take(i - start + 1).drop_last() =~= d.take(i - start));
        assert(d.take(i - start + 1).last() == c);
        acc = acc * 10 + digit;
        if acc > 0xffff_ffff {
            proof {
                let j = i - start + 1;
                assert(acc == digits_value(d.take(j)));
                if all_digits(d) {
                    lemma_digits_value_grows(d, j);
                    assert(digits_value(d) > u32::MAX);
                }
            }
            return None;
        }
        i += 1;
    }
    proof {
        assert(d.take(n - start) =~= d);
        assert forall|k: int| 0 <= k < d.len() implies is_digit(#[trigger] d[k]) by {
            assert(d[k] == s@[k + start]);
        }
    }
    Some(acc as u32)
}

/// The remote that a `git remote -v` line lists, if it is a fetch line.
pub open spec fn remote_of_line(l: Seq<char>) -> Option<RemoteView> {
    let w = crate::text::words(l);
    if w.len() > 2 && crate::text::has_infix(w[2], "fetch"@) {
        Some(RemoteView { name: w[0], url: w[1] })
    } else {
        None
    }
}

/// The fetch remotes of the lines, in order.
pub open spec fn remotes_of(ls: Seq<Seq<char>>) -> Seq<RemoteView>
    decreases ls.len(),
{
    if ls.len() == 0 {
        Seq::empty()
    } else {
        let rest = remotes_of(ls.drop_last());
        match remote_of_line(ls.last()) {
            Some(r) => rest.push(r),
            None => rest,
        }
    }
}

/// The view of a remote.
pub open spec fn remote_view(r: RemoteInfo) -> RemoteView {
    RemoteView { name: r.name@, url: r.url@ }
}

/// The views of remotes.
pub open spec fn remote_views(rs: Seq<RemoteInfo>) -> Seq<RemoteView> {
    rs.map_values(|r: RemoteInfo| remote_view(r))
}

/// The commits ahead and behind that a `rev-list --count` output gives:
/// exactly two words, each read as a `u32` (0 where it is not one).
pub open spec fn ahead_behind(counts: Option<Seq<char>>) -> (u32, u32) {
    match counts {
        Some(c) => {
            let w = crate::text::words(c);
            if w.len() == 2 {
                (
                    match parse_u32_spec(w[0]) {
                        Some(v) => v,
                        None => 0,
                    },
                    match parse_u32_spec(w[1]) {
                        Some(v) => v,
                        None => 0,
                    },
                )
            } else {
                (0, 0)
            }
        },
        None => (0, 0),
    }
}

/// The status that the outputs describe.
pub open spec fn status_matches(st: RepoStatus, path: Seq<char>, out: StatusOutputs) -> bool {
    &&& st.path@ == path
    &&& opt_text(st.current_branch) == match opt_text(out.head) {
        Some(h) => Some(trim(h)),
        None => None,
    }
    &&& st.is_dirty == !all_ws(out.porcelain@)
    &&& (st.ahead, st.behind) == ahead_behind(opt_text(out.counts))
    &&& remote_views(st.remotes@) == remotes_of(
        lines(
            match opt_text(out.remotes) {
                Some(r) => r,
                None => Seq::empty(),
            },
        ),
    )
    &&& opt_text(st.user_name) == nonblank(opt_text(out.user_name))
    &&& opt_text(st.user_email) == nonblank(opt_text(out.user_email))
    &&& opt_text(st.ssh_command) == nonblank(opt_text(out.ssh_command))
}

/// The trimmed output, unless it is blank.
fn nonblank_output(o: &Option<String>) -> (r: Option<String>)
    ensures
        opt_text(r) == nonblank(opt_text(*o)),
{
    match o {
        None => None,
        Some(s) => {
            let t = trim_chars(&chars_of(s.as_str()));
            if t.len() > 0 {
                Some(string_of(&t))
            } else {
                None
            }
        },
    }
}

/// The ahead/behind counts of a `rev-list --count` output.
fn parse_counts(counts: &Option<String>) -> (r: (u32, u32))
    ensures
        r == ahead_behind(opt_text(*counts)),
{
    match counts {
        None => (0, 0),
        Some(c) => {
            let w = crate::text::words_of(&chars_of(c.as_str()));
            if w.len() == 2 {
                assert(views(w@)[0] == w@[0]@ && views(w@)[1] == w@[1]@);
                let a = match parse_u32(&w[0]) {
                    Some(v) => v,
                    None => 0,
                };
                let b = match parse_u32(&w[1]) {
                    Some(v) => v,
                    None => 0,
                };
                (a, b)
            } else {
                (0, 0)
            }
        },
    }
}

/// The fetch remotes of a `git remote -v` output.
fn parse_remotes(raw: &Option<String>) -> (r: Vec<RemoteInfo>)
    ensures
        remote_views(r@) == remotes_of(
            lines(
                match opt_text(*raw) {
                    Some(t) => t,
                    None => Seq::empty(),
                },
            ),
        ),
{
    let text = match raw {
        Some(t) => chars_of(t.as_str()),
        None => Vec::new(),
    };
    let ls = lines_of(&text);
    let ghost lv = views(ls@);
    let fetch = chars_of("fetch");
    let mut out: Vec<RemoteInfo> = Vec::new();
    let n = ls.len();
    for i in 0..n
        invariant
            n == ls@.len(),
            lv == views(ls@),
            fetch@ == "fetch"@,
            remote_views(out@) == remotes_of(lv.take(i as int)),
    {
        assert(lv.take(i + 1).drop_last() =~= lv.take(i as int));
        assert(lv[i as int] == ls@[i as int]@);
        let w = crate::text::words_of(&ls[i]);
        if w.len() > 2 {
            assert(views(w@)[0] == w@[0]@ && views(w@)[1] == w@[1]@ && views(w@)[2] == w@[2]@);
            if crate::text::contains_chars(&w[2], &fetch) {
                let r = RemoteInfo { name: string_of(&w[0]), url: string_of(&w[1]) };
                let ghost before = out@;
                out.push(r);
                assert(remote_views(out@) =~= remote_views(before).push(remote_view(r)));
            }
        }
    }
    assert(lv.take(n as int) =~= lv);
    out
}

/// The status of the repository at `path`, from what git printed.
pub fn repo_status(path: String, out: &StatusOutputs) -> (r: RepoStatus)
    ensures
        status_matches(r, path@, *out),
{
    let current_branch = match &out.head {
        Some(h) => Some(crate::text::trimmed(h.as_str())),
        None => None,
    };
    let is_dirty = !is_blank(&chars_of(out.porcelain.as_str()));
    let (ahead, behind) = parse_counts(&out.counts);
    let remotes = parse_remotes(&out.remotes);
    RepoStatus {
        path,
        current_branch,
        is_dirty,
        ahead,
        behind,
        remotes,
        user_name: nonblank_output(&out.user_name),
        user_email: nonblank_output(&out.user_email),
        ssh_command: nonblank_output(&out.ssh_command),
    }
}

/// The `Debug` form of a list of strings, `["a", "b"]` with each string
/// quoted and escaped, as `format!("{:?}", ..)` writes it.
pub uninterp spec fn debug_list(items: Seq<Seq<char>>) -> Seq<char>;

/// `format!("{:?}", args)`: std's `Debug` form of the argument list. The
/// contract names the result (`debug_list`) and states nothing of its
/// characters, which std's escaping rules decide.
#[verifier::external_body]
fn debug_args(args: &Vec<String>) -> (r: String)
    ensures
        r@ == debug_list(string_views(args@)),
{
    format!("{:?}", args)
}

/// The message for a failed git command whose output says nothing:
/// `git <args> failed`, given the `Debug` form of the arguments.
pub fn failed_command_message(args_debug: &str) -> (r: String)
    ensures
        r@ == "git "@ + args_debug@ + " failed"@,
{
    let a = concat_chars(&chars_of("git "), &chars_of(args_debug));
    let b = concat_chars(&a, &chars_of(" failed"));
    string_of(&b)
}

/// The message of a failed git command: its trimmed standard error, else its
/// trimmed standard output, else `git <args> failed`.
pub open spec fn failure_text(stderr: Seq<char>, stdout: Seq<char>, args: Seq<Seq<char>>) -> Seq<char> {
    if trim(stderr).len() > 0 {
        trim(stderr)
    } else if trim(stdout).len() > 0 {
        trim(stdout)
    } else {
        "git "@ + debug_list(args) + " failed"@
    }
}

/// The error of a git command that exited with failure.
pub fn run_failure_error(stderr: &str, stdout: &str, args: &Vec<String>) -> (e: ConfigError)
    ensures
        is_message(e, failure_text(stderr@, stdout@, string_views(args@))),
{
    let err = trim_chars(&chars_of(stderr));
    if err.len() > 0 {
        return ConfigError::Message(string_of(&err));
    }
    let out = trim_chars(&chars_of(stdout));
    if out.len() > 0 {
        return ConfigError::Message(string_of(&out));
    }
    let d = debug_args(args);
    ConfigError::Message(failed_command_message(d.as_str()))
}

/// The message of a failed git command run with an SSH command: its trimmed
/// standard error, else `git <args> failed`.
pub open spec fn env_failure_text(stderr: Seq<char>, args: Seq<Seq<char>>) -> Seq<char> {
    if trim(stderr).len() > 0 {
        trim(stderr)
    } else {
        "git "@ + debug_list(args) + " failed"@
    }
}

/// The error of a git command, run with an SSH command, that exited with failure.
pub fn env_run_failure_error(stderr: &str, args: &Vec<String>) -> (e: ConfigError)
    ensures
        is_message(e, env_failure_text(stderr@, string_views(args@))),
{
    let err = trim_chars(&chars_of(stderr));
    if err.len() > 0 {
        return ConfigError::Message(string_of(&err));
    }
    let d = debug_args(args);
    ConfigError::Message(failed_command_message(d.as_str()))
}

/// The error when git could not be started at all.
pub fn spawn_failure_error(reason: &str) -> (e: ConfigError)
    ensures
        is_message(e, "failed to run git: "@ + reason@),
{
    let m = concat_chars(&chars_of("failed to run git: "), &chars_of(reason));
    ConfigError::Message(string_of(&m))
}

/// The `GIT_SSH_COMMAND` for a profile: none for a blank key path, else
/// `ssh -i <key> -o IdentitiesOnly=yes` with `~` in the trimmed key path
/// expanded against `home`.
pub open spec fn ssh_command_spec(key_path: Seq<char>, home: Option<Seq<char>>) -> Option<Seq<char>> {
    let k = trim(key_path);
    if k.len() == 0 {
        None
    } else {
        Some("ssh -i "@ + expand_spec(k, home) + " -o IdentitiesOnly=yes"@)
    }
}

/// The SSH command for `profile`, expanding `~` against `home`.
pub fn build_ssh_command_with_home(profile: &Profile, home: Option<String>) -> (r: Option<String>)
    ensures
        opt_text(r) == ssh_command_spec(profile.ssh_key_path@, opt_text(home)),
{
    let key = trim_chars(&chars_of(profile.ssh_key_path.as_str()));
    if key.len() == 0 {
        return None;
    }
    let expanded = expand_tilde_with_home(string_of(&key).as_str(), home);
    let a = concat_chars(&chars_of("ssh -i "), &chars_of(expanded.as_str()));
    let b = concat_chars(&a, &chars_of(" -o IdentitiesOnly=yes"));
    Some(string_of(&b))
}

/// The SSH command for `profile`. Whatever the home directory is, the result
/// is the command for it; there is none exactly when the key path is blank.
pub fn build_ssh_command(profile: &Profile) -> (r: Option<String>)
    ensures
        exists|h: Option<Seq<char>>| opt_text(r) == ssh_command_spec(profile.ssh_key_path@, h),
        r is None <==> trim(profile.ssh_key_path@).len() == 0,
{
    let home = home_dir();
    let ghost h = opt_text(home);
    let r = build_ssh_command_with_home(profile, home);
    assert(opt_text(r) == ssh_command_spec(profile.ssh_key_path@, h));
    r
}

/// A git command to run in the repository: its arguments, the
/// `GIT_SSH_COMMAND` to run it with, if any, and whether it talks to a remote.
/// A command that talks to a remote runs with `GIT_SSH_COMMAND` set when
/// there is one, and a failure of it is reported by its standard error alone
/// (`env_run_failure_error`); a local command reports its standard error,
/// else its standard output (`run_failure_error`).
#[derive(Debug)]
pub struct GitInvocation {
    pub args: Vec<String>,
    pub ssh_command: Option<String>,
    pub remote: bool,
}

/// Whether `inv` is the local command `git <args>` with SSH command `ssh`.
pub open spec fn invocation_is(inv: GitInvocation, args: Seq<Seq<char>>, ssh: Option<Seq<char>>) -> bool {
    string_views(inv.args@) == args && opt_text(inv.ssh_command) == ssh && !inv.remote
}

/// Whether `inv` is the command `git <args>`, talking to a remote, with SSH
/// command `ssh`.
pub open spec fn remote_invocation_is(inv: GitInvocation, args: Seq<Seq<char>>, ssh: Option<Seq<char>>) -> bool {
    string_views(inv.args@) == args && opt_text(inv.ssh_command) == ssh && inv.remote
}

/// Appends the argument `a`.
fn push_arg(args: &mut Vec<String>, a: &str)
    ensures
        string_views(final(args)@) == string_views(old(args)@).push(a@),
{
    let ghost before = args@;
    args.push(owned(a));
    assert(string_views(args@) =~= string_views(before).push(a@));
}

/// An argument list of one string.
fn args1(a: &str) -> (v: Vec<String>)
    ensures
        string_views(v@) == seq![a@],
{
    let mut v: Vec<String> = Vec::new();
    push_arg(&mut v, a);
    assert(string_views(v@) =~= seq![a@]);
    v
}

/// An argument list of two strings.
fn args2(a: &str, b: &str) -> (v: Vec<String>)
    ensures
        string_views(v@) == seq![a@, b@],
{
    let mut v = args1(a);
    push_arg(&mut v, b);
    assert(string_views(v@) =~= seq![a@, b@]);
    v
}

/// An argument list of three strings.
fn args3(a: &str, b: &str, c: &str) -> (v: Vec<String>)
    ensures
        string_views(v@) == seq![a@, b@, c@],
{
    let mut v = args2(a, b);
    push_arg(&mut v, c);
    assert(string_views(v@) =~= seq![a@, b@, c@]);
    v
}

/// An argument list of four strings.
fn args4(a: &str, b: &str, c: &str, d: &str) -> (v: Vec<String>)
    ensures
        string_views(v@) == seq![a@, b@, c@, d@],
{
    let mut v = args3(a, b, c);
    push_arg(&mut v, d);
    assert(string_views(v@) =~= seq![a@, b@, c@, d@]);
    v
}

/// An argument list of five strings.
fn args5(a: &str, b: &str, c: &str, d: &str, e: &str) -> (v: Vec<String>)
    ensures
        string_views(v@) == seq![a@, b@, c@, d@, e@],
{
    let mut v = args4(a, b, c, d);
    push_arg(&mut v, e);
    assert(string_views(v@) =~= seq![a@, b@, c@, d@, e@]);
    v
}

/// Whether a name can be checked out: not empty, no `..`, no leading `-`,
/// no space.
pub open spec fn valid_checkout_name(n: Seq<char>) -> bool {
    !(n.len() == 0 || crate::text::has_infix(n, ".."@) || n[0] == '-' || n.contains(' '))
}

/// Whether a name can be given to a new branch: as for checkout, and no
/// line break.
pub open spec fn valid_new_branch_name(n: Seq<char>) -> bool {
    valid_checkout_name(n) && !n.contains('\n')
}

/// Whether a name can be deleted: not empty, no `..`, no leading `-`.
pub open spec fn valid_deleted_branch_name(n: Seq<char>) -> bool {
    !(n.len() == 0 || crate::text::has_infix(n, ".."@) || n[0] == '-')
}

/// Checks the three rules that every branch name must pass.
fn passes_basic_rules(v: &Vec<char>) -> (r: bool)
    ensures
        r == valid_deleted_branch_name(v@),
{
    if v.len() == 0 {
        return false;
    }
    let dots = chars_of("..");
    !crate::text::contains_chars(v, &dots) && v[0] != '-'
}

/// The command that creates branch `name`, switching to it when `checkout`
/// is set; refused with "invalid branch name" for a name that fails the rules.
pub fn create_branch(name: &str, checkout: bool) -> (r: Result<GitInvocation, ConfigError>)
    ensures
        match r {
            Ok(inv) => valid_new_branch_name(name@) && invocation_is(
                inv,
                if checkout {
                    seq!["switch"@, "-c"@, name@]
                } else {
                    seq!["branch"@, name@]
                },
                None,
            ),
            Err(e) => !valid_new_branch_name(name@) && is_message(e, "invalid branch name"@),
        },
{
    let v = chars_of(name);
    if !passes_basic_rules(&v) || crate::text::contains_char(&v, ' ')
        || crate::text::contains_char(&v, '\n') {
        return Err(message_error("invalid branch name"));
    }
    let args = if checkout {
        args3("switch", "-c", name)
    } else {
        args2("branch", name)
    };
    Ok(GitInvocation { args, ssh_command: None, remote: false })
}

/// The command that deletes branch `name` (`-D` when `force` is set, else
/// `-d`); refused with "invalid branch name" for a name that fails the rules.
pub fn delete_branch(name: &str, force: bool) -> (r: Result<GitInvocation, ConfigError>)
    ensures
        match r {
            Ok(inv) => valid_deleted_branch_name(name@) && invocation_is(
                inv,
                seq![
                    "branch"@,
                    if force {
                        "-D"@
                    } else {
                        "-d"@
                    },
                    name@,
                ],
                None,
            ),
            Err(e) => !valid_deleted_branch_name(name@) && is_message(e, "invalid branch name"@),
        },
{
    let v = chars_of(name);
    if !passes_basic_rules(&v) {
        return Err(message_error("invalid branch name"));
    }
    let flag = if force {
        "-D"
    } else {
        "-d"
    };
    Ok(GitInvocation { args: args3("branch", flag, name), ssh_command: None, remote: false })
}

/// The profile, if any, behind an optional reference.
pub open spec fn deref_profile(p: Option<&Profile>) -> Option<Profile> {
    match p {
        Some(q) => Some(*q),
        None => None,
    }
}

/// The SSH command of an optional profile.
pub open spec fn profile_ssh(profile: Option<Profile>, home: Option<Seq<char>>) -> Option<Seq<char>> {
    match profile {
        Some(p) => ssh_command_spec(p.ssh_key_path@, home),
        None => None,
    }
}

/// The SSH command of an optional profile, against `home`.
fn ssh_for(profile: Option<&Profile>, home: Option<String>) -> (r: Option<String>)
    ensures
        opt_text(r) == profile_ssh(
            deref_profile(profile),
            opt_text(home),
        ),
{
    match profile {
        Some(p) => build_ssh_command_with_home(p, home),
        None => None,
    }
}

/// The command that fetches every remote and prunes, with the profile's SSH
/// command (against `home`).
pub fn fetch_with_home(profile: Option<&Profile>, home: Option<String>) -> (r: GitInvocation)
    ensures
        remote_invocation_is(
            r,
            seq!["fetch"@, "--all"@, "--prune"@],
            profile_ssh(
                deref_profile(profile),
                opt_text(home),
            ),
        ),
{
    GitInvocation { args: args3("fetch", "--all", "--prune"), ssh_command: ssh_for(profile, home), remote: true }
}

/// The command that fetches every remote and prunes, with the profile's SSH
/// command. Whatever the home directory is, the command is the one for it.
pub fn fetch(profile: Option<&Profile>) -> (r: GitInvocation)
    ensures
        exists|h: Option<Seq<char>>|
            remote_invocation_is(
                r,
                seq!["fetch"@, "--all"@, "--prune"@],
                #[trigger] profile_ssh(
                    deref_profile(profile),
                    h,
                ),
            ),
{
    let home = home_dir();
    let ghost h = opt_text(home);
    fetch_with_home(profile, home)
}

/// A git command of a sequence, and whether its failure stops the sequence
/// with that error (when it does not, the failure is ignored).
#[derive(Debug)]
pub struct PlannedGit {
    pub invocation: GitInvocation,
    pub required: bool,
}

/// The view of a planned command: its arguments, its SSH command, and
/// whether it must succeed.
pub open spec fn planned_view(p: PlannedGit) -> (Seq<Seq<char>>, Option<Seq<char>>, bool) {
    (string_views(p.invocation.args@), opt_text(p.invocation.ssh_command), p.required)
}

/// The views of a plan.
pub open spec fn plan_views(ps: Seq<PlannedGit>) -> Seq<(Seq<Seq<char>>, Option<Seq<char>>, bool)> {
    ps.map_values(|p: PlannedGit| planned_view(p))
}

/// The commands that write a profile into the repository's local config:
/// `user.name` and `user.email` when they are not blank (trimmed), then
/// `core.sshCommand` when the profile has one, else an unset of it whose
/// failure is ignored.
pub open spec fn apply_plan(p: Profile, home: Option<Seq<char>>) -> Seq<(Seq<Seq<char>>, Option<Seq<char>>, bool)> {
    let name_part = if trim(p.user_name@).len() > 0 {
        seq![(seq!["config"@, "--local"@, "user.name"@, trim(p.user_name@)], None, true)]
    } else {
        Seq::empty()
    };
    let email_part = if trim(p.user_email@).len() > 0 {
        seq![(seq!["config"@, "--local"@, "user.email"@, trim(p.user_email@)], None, true)]
    } else {
        Seq::empty()
    };
    let ssh_part = match ssh_command_spec(p.ssh_key_path@, home) {
        Some(ssh) => seq![(seq!["config"@, "--local"@, "core.sshCommand"@, ssh], None, true)],
        None => seq![(seq!["config"@, "--local"@, "--unset"@, "core.sshCommand"@], None, false)],
    };
    name_part + email_part + ssh_part
}

/// Appends a required `git config --local <key> <value>`.
fn push_config(plan: &mut Vec<PlannedGit>, key: &str, value: &str)
    ensures
        plan_views(final(plan)@) == plan_views(old(plan)@).push(
            (seq!["config"@, "--local"@, key@, value@], None, true),
        ),
        final(plan)@.len() == old(plan)@.len() + 1,
        forall|i: int| 0 <= i < old(plan)@.len() ==> final(plan)@[i] == old(plan)@[i],
        !final(plan)@.last().invocation.remote,
{
    let ghost before = plan@;
    let g = PlannedGit {
        invocation: GitInvocation { args: args4("config", "--local", key, value), ssh_command: None, remote: false },
        required: true,
    };
    plan.push(g);
    assert(plan_views(plan@) =~= plan_views(before).push(planned_view(g)));
}

/// The commands that apply `profile` to a repository, expanding `~` against
/// `home`.
pub fn apply_profile_with_home(profile: &Profile, home: Option<String>) -> (r: Vec<PlannedGit>)
    ensures
        plan_views(r@) == apply_plan(*profile, opt_text(home)),
        forall|i: int| 0 <= i < r@.len() ==> !(#[trigger] r@[i]).invocation.remote,
{
    let mut plan: Vec<PlannedGit> = Vec::new();
    let ghost e: Seq<(Seq<Seq<char>>, Option<Seq<char>>, bool)> = Seq::empty();
    assert(plan_views(plan@) =~= e);
    let name = trim_chars(&chars_of(profile.user_name.as_str()));
    if name.len() > 0 {
        push_config(&mut plan, "user.name", string_of(&name).as_str());
    }
    let email = trim_chars(&chars_of(profile.user_email.as_str()));
    if email.len() > 0 {
        push_config(&mut plan, "user.email", string_of(&email).as_str());
    }
    let ghost so_far = plan_views(plan@);
    match build_ssh_command_with_home(profile, home) {
        Some(ssh) => {
            push_config(&mut plan, "core.sshCommand", ssh.as_str());
        },
        None => {
            let g = PlannedGit {
                invocation: GitInvocation {
                    args: args4("config", "--local", "--unset", "core.sshCommand"),
                    ssh_command: None,
                    remote: false,
                },
                required: false,
            };
            plan.push(g);
            assert(plan_views(plan@) =~= so_far.push(planned_view(g)));
        },
    }
    proof {
        let p = *profile;
        let h = opt_text(home);
        let np = if trim(p.user_name@).len() > 0 {
            seq![(seq!["config"@, "--local"@, "user.name"@, trim(p.user_name@)], None::<Seq<char>>, true)]
        } else {
            Seq::empty()
        };
        let ep = if trim(p.user_email@).len() > 0 {
            seq![(seq!["config"@, "--local"@, "user.email"@, trim(p.user_email@)], None::<Seq<char>>, true)]
        } else {
            Seq::empty()
        };
        assert(so_far =~= np + ep);
        assert(plan_views(plan@) =~= apply_plan(p, h));
    }
    plan
}

/// The commands that apply `profile` to a repository. Whatever the home
/// directory is, the plan is the one for it.
pub fn apply_profile(profile: &Profile) -> (r: Vec<PlannedGit>)
    ensures
        exists|h: Option<Seq<char>>| plan_views(r@) == #[trigger] apply_plan(*profile, h),
        forall|i: int| 0 <= i < r@.len() ==> !(#[trigger] r@[i]).invocation.remote,
{
    let home = home_dir();
    let ghost h = opt_text(home);
    let r = apply_profile_with_home(profile, home);
    assert(plan_views(r@) == apply_plan(*profile, h));
    r
}

/// The decimal digit character for `d < 10`.
pub open spec fn digit_char(d: nat) -> char {
    ((d + 48) as u32) as char
}

/// The decimal text of `n`, without leading zeros.
pub open spec fn decimal(n: nat) -> Seq<char>
    decreases n,
{
    if n < 10 {
        seq![digit_char(n)]
    } else {
        decimal(n / 10) + seq![digit_char(n % 10)]
    }
}

/// The character of digit `d`.
fn digit(d: usize) -> (c: char)
    requires
        d < 10,
    ensures
        c == digit_char(d as nat),
{
    match d {
        0 => '0',
        1 => '1',
        2 => '2',
        3 => '3',
        4 => '4',
        5 => '5',
        6 => '6',
        7 => '7',
        8 => '8',
        _ => '9',
    }
}

/// The decimal text of `n`.
pub fn decimal_chars(n: usize) -> (r: Vec<char>)
    ensures
        r@ == decimal(n as nat),
    decreases n,
{
    if n < 10 {
        let mut v: Vec<char> = Vec::new();
        v.push(digit(n));
        assert(v@ =~= seq![digit_char(n as nat)]);
        v
    } else {
        let high = decimal_chars(n / 10);
        let mut low: Vec<char> = Vec::new();
        low.push(digit(n % 10));
        assert(low@ =~= seq![digit_char((n % 10) as nat)]);
        concat_chars(&high, &low)
    }
}

/// How many log entries are shown when none is asked for.
pub fn log_limit(limit: Option<usize>) -> (r: usize)
    ensures
        r == match limit {
            Some(l) => l,
            None => 12,
        },
{
    match limit {
        Some(l) => l,
        None => 12,
    }
}

/// `limit` held to `1..=50`.
pub open spec fn clamp_limit(limit: nat) -> nat {
    if limit < 1 {
        1
    } else if limit > 50 {
        50
    } else {
        limit
    }
}

/// The command that lists the last `limit` commits (held to 1..=50), one
/// per line: abbreviated hash, subject, author and relative date separated
/// by tabs.
pub fn recent_log(limit: usize) -> (r: GitInvocation)
    ensures
        invocation_is(
            r,
            seq![
                "log"@,
                "-"@ + decimal(clamp_limit(limit as nat)),
                "--pretty=format:%h%x09%s%x09%an%x09%ar"@,
            ],
            None,
        ),
{
    let n: usize = if limit < 1 {
        1
    } else if limit > 50 {
        50
    } else {
        limit
    };
    let count = concat_chars(&chars_of("-"), &decimal_chars(n));
    let count_text = string_of(&count);
    GitInvocation {
        args: args3("log", count_text.as_str(), "--pretty=format:%h%x09%s%x09%an%x09%ar"),
        ssh_command: None,
        remote: false,
    }
}

/// Accepts the lines that hold at least one character.
pub open spec fn is_nonempty_line() -> spec_fn(Seq<char>) -> bool {
    |l: Seq<char>| l.len() > 0
}

/// The entries of a log output: its non-empty lines.
pub fn log_entries(raw: &str) -> (r: Vec<String>)
    ensures
        string_views(r@) == lines(raw@).filter(is_nonempty_line()),
{
    let ls = lines_of(&chars_of(raw));
    let ghost lv = views(ls@);
    let mut out: Vec<String> = Vec::new();
    let n = ls.len();
    for i in 0..n
        invariant
            n == ls@.len(),
            lv == views(ls@),
            string_views(out@) == lv.take(i as int).filter(is_nonempty_line()),
    {
        assert(lv.take(i + 1) =~= lv.take(i as int).push(lv[i as int]));
        assert(lv[i as int] == ls@[i as int]@);
        proof {
            lv.take(i as int).lemma_filter_push(lv[i as int], is_nonempty_line());
        }
        if ls[i].len() > 0 {
            let ghost before = out@;
            out.push(string_of(&ls[i]));
            assert(string_views(out@) =~= string_views(before).push(ls@[i as int]@));
        }
    }
    assert(lv.take(n as int) =~= lv);
    out
}

/// The next thing a command sequence does: run git, or finish with a result.
#[derive(Debug)]
pub enum GitStep<T> {
    Run(GitInvocation),
    Done(Result<T, ConfigError>),
}

/// Whether step `s` runs git with arguments `args` and SSH command `ssh`.
pub open spec fn runs<T>(s: GitStep<T>, args: Seq<Seq<char>>, ssh: Option<Seq<char>>) -> bool {
    s matches GitStep::Run(inv) && invocation_is(inv, args, ssh)
}

/// Whether step `s` runs git, talking to a remote, with arguments `args` and
/// SSH command `ssh`.
pub open spec fn runs_remote<T>(s: GitStep<T>, args: Seq<Seq<char>>, ssh: Option<Seq<char>>) -> bool {
    s matches GitStep::Run(inv) && remote_invocation_is(inv, args, ssh)
}

/// The result of a command whose output is not needed.
pub open spec fn unit_result(o: Result<String, ConfigError>) -> Result<(), ConfigError> {
    match o {
        Ok(_) => Ok(()),
        Err(e) => Err(e),
    }
}

/// The index of the last `c` in `s`, or -1.
pub open spec fn last_index_of(s: Seq<char>, c: char) -> int
    decreases s.len(),
{
    if s.len() == 0 {
        -1
    } else if s.last() == c {
        s.len() - 1
    } else {
        last_index_of(s.drop_last(), c)
    }
}

/// The local branch that checking out a remote ref such as `origin/feature`
/// tracks: the text after the last `/`, unless it is empty or there is no `/`.
pub open spec fn tracking_local(b: Seq<char>) -> Option<Seq<char>> {
    let k = last_index_of(b, '/');
    if k >= 0 && k + 1 < b.len() {
        Some(b.skip(k + 1))
    } else {
        None
    }
}

/// What checking out `b` does next, once the commands run so far gave
/// `outs`: a valid name is first looked up as a local branch and switched
/// to; failing that, a remote ref `<remote>/<local>` switches to the local
/// branch `<local>`, creating it to track the ref if it does not exist; a name
/// without such a local part is switched to directly. The result is that of
/// the last switch.
pub open spec fn checkout_step_is(b: Seq<char>, outs: Seq<Result<String, ConfigError>>, s: GitStep<()>) -> bool {
    if !valid_checkout_name(b) {
        s matches GitStep::Done(r) && (r matches Err(e) && is_message(e, "invalid branch name"@))
    } else if outs.len() == 0 {
        runs(s, seq!["show-ref"@, "--verify"@, "refs/heads/"@ + b], None)
    } else if outs[0] is Ok {
        if outs.len() == 1 {
            runs(s, seq!["switch"@, b], None)
        } else {
            s == GitStep::<()>::Done(unit_result(outs[1]))
        }
    } else {
        match tracking_local(b) {
            Some(l) => if outs.len() == 1 {
                runs(s, seq!["show-ref"@, "--verify"@, "refs/heads/"@ + l], None)
            } else if outs.len() == 2 {
                if outs[1] is Ok {
                    runs(s, seq!["switch"@, l], None)
                } else {
                    runs(s, seq!["switch"@, "--track"@, "-c"@, l, b], None)
                }
            } else {
                s == GitStep::<()>::Done(unit_result(outs[2]))
            },
            None => if outs.len() == 1 {
                runs(s, seq!["switch"@, b], None)
            } else {
                s == GitStep::<()>::Done(unit_result(outs[1]))
            },
        }
    }
}

/// A copy of a command's outcome.
fn clone_outcome(o: &Result<String, ConfigError>) -> (r: Result<String, ConfigError>)
    ensures
        r == *o,
{
    match o {
        Ok(s) => Ok(s.clone()),
        Err(e) => Err(e.clone()),
    }
}

/// The unit result of a command's outcome.
fn unit_of(o: &Result<String, ConfigError>) -> (r: Result<(), ConfigError>)
    ensures
        r == unit_result(*o),
{
    match o {
        Ok(_) => Ok(()),
        Err(e) => Err(e.clone()),
    }
}

/// The local part of a remote ref, if it has one.
#[verifier::rlimit(30)]
fn local_part(b: &Vec<char>) -> (r: Option<Vec<char>>)
    ensures
        match r {
            Some(l) => tracking_local(b@) == Some(l@),
            None => tracking_local(b@) is None,
        },
{
    let n = b.len();
    let mut k = n;
    assert(b@.take(n as int) =~= b@);
    while k > 0 && b[k - 1] != '/'
        invariant
            k <= n == b@.len(),
            forall|j: int| k <= j < n ==> b@[j] != '/',
            last_index_of(b@, '/') == last_index_of(b@.take(k as int), '/'),
        decreases k,
    {
        assert(b@.take(k as int).drop_last() =~= b@.take(k - 1));
        k -= 1;
    }
    if k > 0 {
        assert(b@.take(k as int).last() == '/');
        if k < n {
            let l = slice_chars(b, k, n);
            assert(l@ =~= b@.skip(k as int));
            return Some(l);
        }
    } else {
        assert(b@.take(0) =~= Seq::<char>::empty());
    }
    None
}

/// `refs/heads/<name>`
fn heads_ref(name: &Vec<char>) -> (r: String)
    ensures
        r@ == "refs/heads/"@ + name@,
{
    string_of(&concat_chars(&chars_of("refs/heads/"), name))
}

/// The next step of checking out `branch`, given the outcomes of the commands
/// run so far.
pub fn checkout_branch(branch: &str, outcomes: &Vec<Result<String, ConfigError>>) -> (s: GitStep<()>)
    ensures
        checkout_step_is(branch@, outcomes@, s),
{
    let v = chars_of(branch);
    if !passes_basic_rules(&v) || crate::text::contains_char(&v, ' ') {
        return GitStep::Done(Err(message_error("invalid branch name")));
    }
    let n = outcomes.len();
    if n == 0 {
        let r = heads_ref(&v);
        return GitStep::Run(
            GitInvocation { args: args3("show-ref", "--verify", r.as_str()), ssh_command: None, remote: false },
        );
    }
    if outcomes[0].is_ok() {
        if n == 1 {
            return GitStep::Run(GitInvocation { args: args2("switch", branch), ssh_command: None, remote: false });
        }
        return GitStep::Done(unit_of(&outcomes[1]));
    }
    match local_part(&v) {
        Some(l) => {
            let ls = string_of(&l);
            if n == 1 {
                let r = heads_ref(&l);
                GitStep::Run(
                    GitInvocation { args: args3("show-ref", "--verify", r.as_str()), ssh_command: None, remote: false },
                )
            } else if n == 2 {
                if outcomes[1].is_ok() {
                    GitStep::Run(GitInvocation { args: args2("switch", ls.as_str()), ssh_command: None, remote: false })
                } else {
                    GitStep::Run(
                        GitInvocation {
                            args: args5("switch", "--track", "-c", ls.as_str(), branch),
                            ssh_command: None,
                            remote: false,
                        },
                    )
                }
            } else {
                GitStep::Done(unit_of(&outcomes[2]))
            }
        },
        None => {
            if n == 1 {
                GitStep::Run(GitInvocation { args: args2("switch", branch), ssh_command: None, remote: false })
            } else {
                GitStep::Done(unit_of(&outcomes[1]))
            }
        },
    }
}

/// What pushing does next, once the commands run so far gave `outs`: with
/// `set_upstream`, it reads the current branch and pushes it to `origin`
/// setting the upstream (stopping if the read fails); otherwise a plain
/// push. The push talks to the remote with SSH command `ssh`; its output is
/// the result.
pub open spec fn push_step_is(ssh: Option<Seq<char>>, set_upstream: bool, outs: Seq<Result<String, ConfigError>>, s: GitStep<String>) -> bool {
    if !set_upstream {
        if outs.len() == 0 {
            runs_remote(s, seq!["push"@], ssh)
        } else {
            s == GitStep::Done(outs[0])
        }
    } else if outs.len() == 0 {
        runs(s, seq!["rev-parse"@, "--abbrev-ref"@, "HEAD"@], None)
    } else {
        match outs[0] {
            Err(e) => s == GitStep::<String>::Done(Err(e)),
            Ok(out) => if outs.len() == 1 {
                runs_remote(s, seq!["push"@, "-u"@, "origin"@, trim(out@)], ssh)
            } else {
                s == GitStep::Done(outs[1])
            },
        }
    }
}

/// The next step of pushing, with the profile's SSH command against `home`.
pub fn push_with_home(
    profile: Option<&Profile>,
    set_upstream: bool,
    home: Option<String>,
    outcomes: &Vec<Result<String, ConfigError>>,
) -> (s: GitStep<String>)
    ensures
        push_step_is(profile_ssh(deref_profile(profile), opt_text(home)), set_upstream, outcomes@, s),
{
    let n = outcomes.len();
    if !set_upstream {
        if n == 0 {
            return GitStep::Run(GitInvocation { args: args1("push"), ssh_command: ssh_for(profile, home), remote: true });
        }
        return GitStep::Done(clone_outcome(&outcomes[0]));
    }
    if n == 0 {
        return GitStep::Run(
            GitInvocation { args: args3("rev-parse", "--abbrev-ref", "HEAD"), ssh_command: None, remote: false },
        );
    }
    match &outcomes[0] {
        Err(e) => GitStep::Done(Err(e.clone())),
        Ok(out) => {
            if n == 1 {
                let branch = crate::text::trimmed(out.as_str());
                GitStep::Run(
                    GitInvocation {
                        args: args4("push", "-u", "origin", branch.as_str()),
                        ssh_command: ssh_for(profile, home),
                        remote: true,
                    },
                )
            } else {
                GitStep::Done(clone_outcome(&outcomes[1]))
            }
        },
    }
}

/// The next step of pushing. Whatever the home directory is, the step is the
/// one for it.
pub fn push(profile: Option<&Profile>, set_upstream: bool, outcomes: &Vec<Result<String, ConfigError>>) -> (s: GitStep<String>)
    ensures
        exists|h: Option<Seq<char>>|
            push_step_is(#[trigger] profile_ssh(deref_profile(profile), h), set_upstream, outcomes@, s),
{
    let home = home_dir();
    let ghost h = opt_text(home);
    let s = push_with_home(profile, set_upstream, home, outcomes);
    assert(push_step_is(profile_ssh(deref_profile(profile), h), set_upstream, outcomes@, s));
    s
}

/// Accepts `true`.
pub open spec fn is_true() -> spec_fn(bool) -> bool {
    |b: bool| b
}

/// For each outcome so far, whether it is the failure of a required command
/// of `plan`.
pub open spec fn failed_required(
    plan: Seq<(Seq<Seq<char>>, Option<Seq<char>>, bool)>,
    outs: Seq<Result<String, ConfigError>>,
) -> Seq<bool> {
    Seq::new(outs.len(), |i: int| i < plan.len() && plan[i].2 && outs[i] is Err)
}

/// What running a plan does next, once its first commands gave `outs`: at
/// the first failure of a required command it stops with that error (the
/// failure of a command that is not required is ignored); otherwise it runs
/// the next command of the plan, locally; after the last one it finishes
/// with success.
pub open spec fn plan_step_is(
    plan: Seq<(Seq<Seq<char>>, Option<Seq<char>>, bool)>,
    outs: Seq<Result<String, ConfigError>>,
    s: GitStep<()>,
) -> bool {
    let f = first_match(failed_required(plan, outs), is_true());
    if f >= 0 {
        s == GitStep::<()>::Done(Err(outs[f]->Err_0))
    } else if outs.len() < plan.len() {
        runs(s, plan[outs.len() as int].0, plan[outs.len() as int].1)
    } else {
        s == GitStep::<()>::Done(Ok(()))
    }
}

/// The next step of running `plan`, given the outcomes so far.
fn plan_step(plan: Vec<PlannedGit>, outcomes: &Vec<Result<String, ConfigError>>) -> (s: GitStep<()>)
    requires
        forall|i: int| 0 <= i < plan@.len() ==> !(#[trigger] plan@[i]).invocation.remote,
    ensures
        plan_step_is(plan_views(plan@), outcomes@, s),
{
    let ghost pv = plan_views(plan@);
    let ghost flags = failed_required(pv, outcomes@);
    let n = outcomes.len();
    for i in 0..n
        invariant
            n == outcomes@.len(),
            pv == plan_views(plan@),
            flags == failed_required(pv, outcomes@),
            forall|j: int| 0 <= j < i ==> !is_true()(#[trigger] flags[j]),
    {
        if i < plan.len() && plan[i].required {
            match &outcomes[i] {
                Err(e) => {
                    proof {
                        lemma_first_match_at(flags, is_true(), i as int);
                    }
                    return GitStep::Done(Err(e.clone()));
                },
                Ok(_) => {},
            }
        }
    }
    proof {
        lemma_first_match_at(flags, is_true(), n as int);
    }
    if n < plan.len() {
        let mut plan = plan;
        let p = plan.remove(n);
        GitStep::Run(p.invocation)
    } else {
        GitStep::Done(Ok(()))
    }
}

/// The next step of applying `profile` to a repository, with `~` expanded
/// against `home`, given the outcomes of the commands run so far.
pub fn apply_profile_step_with_home(
    profile: &Profile,
    home: Option<String>,
    outcomes: &Vec<Result<String, ConfigError>>,
) -> (s: GitStep<()>)
    ensures
        plan_step_is(apply_plan(*profile, opt_text(home)), outcomes@, s),
{
    let plan = apply_profile_with_home(profile, home);
    plan_step(plan, outcomes)
}

/// The next step of applying `profile` to a repository. Whatever the home
/// directory is, the step is the one for it.
pub fn apply_profile_step(profile: &Profile, outcomes: &Vec<Result<String, ConfigError>>) -> (s: GitStep<()>)
    ensures
        exists|h: Option<Seq<char>>| plan_step_is(#[trigger] apply_plan(*profile, h), outcomes@, s),
{
    let home = home_dir();
    let ghost h = opt_text(home);
    let s = apply_profile_step_with_home(profile, home, outcomes);
    assert(plan_step_is(apply_plan(*profile, h), outcomes@, s));
    s
}

/// Law: applying a profile finishes once every command of its plan has run;
/// when no required command failed it succeeds; and when the profile has no
/// key, its last command (the unset of `core.sshCommand`) is not required,
/// so its failure is ignored.
pub proof fn law_apply_profile_step(p: Profile, home: Option<Seq<char>>, outs: Seq<Result<String, ConfigError>>, s: GitStep<()>)
    requires
        plan_step_is(apply_plan(p, home), outs, s),
    ensures
        outs.len() >= apply_plan(p, home).len() ==> s is Done,
        outs.len() >= apply_plan(p, home).len() && (forall|i: int|
            0 <= i < outs.len() && (#[trigger] outs[i]) is Err ==> i >= apply_plan(p, home).len()
                || !apply_plan(p, home)[i].2) ==> s == GitStep::<()>::Done(Ok(())),
        trim(p.ssh_key_path@).len() == 0 ==> !apply_plan(p, home).last().2,
{
    let plan = apply_plan(p, home);
    let flags = failed_required(plan, outs);
    if forall|i: int|
        0 <= i < outs.len() && (#[trigger] outs[i]) is Err ==> i >= plan.len() || !plan[i].2 {
        assert forall|j: int| 0 <= j < flags.len() implies !is_true()(#[trigger] flags[j]) by {
            if j < plan.len() && plan[j].2 {
                assert(outs[j] is Ok || !(outs[j] is Err));
            }
        }
        lemma_first_match_at(flags, is_true(), flags.len() as int);
    }
}

/// Law: the SSH command that fetch, push and applying a profile use names
/// the profile's key file as `~` expansion finds it. With trimmed key path
/// `k`:
/// - a key `~/<rest>` with home directory `h` is the file `<rest>` under `h`
///   (joined as a path), so `~/.ssh/id` under `/home/me` is
///   `/home/me/.ssh/id`; a lone `~` is `h` itself;
/// - a key that does not start with `~`, or any key when there is no home
///   directory, is named as written, whatever the home directory is.
pub proof fn law_ssh_command_names_expanded_key(key_path: Seq<char>, home: Option<Seq<char>>, other_home: Option<Seq<char>>)
    ensures
        ({
            let k = trim(key_path);
            &&& k.len() >= 2 && k[0] == '~' && k[1] == '/' && home is Some ==> ssh_command_spec(
                key_path,
                home,
            ) == Some("ssh -i "@ + join_spec(home->0, k.subrange(2, k.len() as int)) + " -o IdentitiesOnly=yes"@)
            &&& k =~= seq!['~'] && home is Some ==> ssh_command_spec(key_path, home) == Some(
                "ssh -i "@ + home->0 + " -o IdentitiesOnly=yes"@,
            )
            &&& k.len() > 0 && k[0] != '~' ==> ssh_command_spec(key_path, home) == Some(
                "ssh -i "@ + k + " -o IdentitiesOnly=yes"@,
            ) && ssh_command_spec(key_path, other_home) == ssh_command_spec(key_path, home)
            &&& k.len() > 0 && home is None ==> ssh_command_spec(key_path, home) == Some(
                "ssh -i "@ + k + " -o IdentitiesOnly=yes"@,
            )
            &&& k.len() == 0 ==> ssh_command_spec(key_path, home) is None
        }),
{
    let k = trim(key_path);
    assert(k.skip(2) =~= k.subrange(2, k.len() as int));
}

/// Law: in the branch list, the current branch comes before every other, and
/// among branches that are equally current, local ones come before remote ones.
pub proof fn law_branch_list_order(bs: Seq<BranchInfo>)
    requires
        is_sorted(bs),
    ensures
        forall|i: int, j: int|
            0 <= i < j < bs.len() && (#[trigger] bs[j]).is_current ==> (#[trigger] bs[i]).is_current,
        forall|i: int, j: int|
            0 <= i < j < bs.len() && (#[trigger] bs[i]).is_current == (#[trigger] bs[j]).is_current
                && bs[i].is_remote ==> bs[j].is_remote,
{
    assert forall|i: int, j: int|
        0 <= i < j < bs.len() && (#[trigger] bs[j]).is_current implies (#[trigger] bs[i]).is_current by {
        assert(!branch_before(bs[j], bs[i]));
    }
    assert forall|i: int, j: int|
        0 <= i < j < bs.len() && (#[trigger] bs[i]).is_current == (#[trigger] bs[j]).is_current
            && bs[i].is_remote implies bs[j].is_remote by {
        assert(!branch_before(bs[j], bs[i]));
    }
}

/// Law: checking out runs at most three git commands, and none for an
/// invalid name.
pub proof fn law_checkout_ends(b: Seq<char>, outs: Seq<Result<String, ConfigError>>, s: GitStep<()>)
    requires
        checkout_step_is(b, outs, s),
    ensures
        outs.len() >= 3 ==> s is Done,
        !valid_checkout_name(b) ==> s is Done,
{
}

/// Law: pushing runs at most two git commands, one when no upstream is set.
pub proof fn law_push_ends(ssh: Option<Seq<char>>, set_upstream: bool, outs: Seq<Result<String, ConfigError>>, s: GitStep<String>)
    requires
        push_step_is(ssh, set_upstream, outs, s),
    ensures
        outs.len() >= 2 ==> s is Done,
        !set_upstream && outs.len() >= 1 ==> s is Done,
{
}

/// Law: applying a profile only writes the repository's local config: every
/// command it runs is `git config --local ...`, none with an SSH command.
pub proof fn law_apply_profile_local_only(p: Profile, home: Option<Seq<char>>)
    ensures
        forall|i: int|
            0 <= i < apply_plan(p, home).len() ==> {
                let c = #[trigger] apply_plan(p, home)[i];
                c.0.len() >= 4 && c.0[0] == "config"@ && c.0[1] == "--local"@ && c.1 is None
            },
{
}

} // verus!
