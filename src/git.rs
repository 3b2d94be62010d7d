use vstd::prelude::*;
use vstd::string::*;

use crate::numstat::{added_total, deleted_total, sum_numstat, MAX_FEED_LINES};
use crate::ranking::{
    desc_order, int_sum, keys_in_order, lemma_desc_order_ranked, lemma_desc_order_sum,
    lemma_insert_slot_is_first, precedes,
};
use crate::share::{share_is_zero, share_lt, Share};

pub use crate::summary::calculate_author_summaries;

verus! {

/// One author's activity within one repository.
#[derive(Debug)]
pub struct Contribution {
    pub author: String,
    pub email: String,
    pub commits: u64,
    pub lines_added: u64,
    pub lines_deleted: u64,
    /// The author's changed lines out of the repository's changed lines.
    pub contribution_percent: Share,
    pub repository: String,
}

/// An author as the history names one: email (the identity) and display name.
#[derive(Debug)]
pub struct AuthorIdentity {
    pub email: String,
    pub name: String,
}

/// What the history provider reports of one author in one repository: its
/// commit count and the numstat lines of its own commits.
#[derive(Debug)]
pub struct AuthorActivity {
    pub author: AuthorIdentity,
    pub commits: u64,
    pub numstat: Vec<String>,
}

pub open spec fn line_views(lines: Seq<String>) -> Seq<Seq<char>> {
    lines.map_values(|l: String| l@)
}

/// Position of the first `|` at or after `i` (the length where there is none).
pub open spec fn bar_index(s: Seq<char>, i: int) -> int
    decreases s.len() - i,
{
    if i < 0 || i >= s.len() {
        s.len() as int
    } else if s[i] == '|' {
        i
    } else {
        bar_index(s, i + 1)
    }
}

/// The (email, name) of an authors line `<email>|<display name>`.
pub open spec fn author_entry(s: Seq<char>) -> Option<(Seq<char>, Seq<char>)> {
    let p = bar_index(s, 0);
    if p < s.len() {
        Some((s.subrange(0, p), s.subrange(p + 1, s.len() as int)))
    } else {
        None
    }
}

pub open spec fn email_listed(seen: Seq<(Seq<char>, Seq<char>)>, e: Seq<char>) -> bool {
    exists|q: int| 0 <= q < seen.len() && (#[trigger] seen[q]).0 == e
}

/// Distinct authors of an authors feed in order of first appearance, each
/// with the display name that came with its email first.
pub open spec fn authors_seen(lines: Seq<Seq<char>>) -> Seq<(Seq<char>, Seq<char>)>
    decreases lines.len(),
{
    if lines.len() == 0 {
        Seq::empty()
    } else {
        let prev = authors_seen(lines.drop_last());
        match author_entry(lines.last()) {
            Some((e, n)) => if email_listed(prev, e) {
                prev
            } else {
                prev.push((e, n))
            },
            None => prev,
        }
    }
}

pub open spec fn identity_view(a: AuthorIdentity) -> (Seq<char>, Seq<char>) {
    (a.email@, a.name@)
}

/// Lines changed (added plus deleted) by one author's records.
pub open spec fn activity_changed(a: AuthorActivity) -> int {
    added_total(line_views(a.numstat@)) + deleted_total(line_views(a.numstat@))
}

pub open spec fn activity_keys(acts: Seq<AuthorActivity>) -> Seq<int> {
    acts.map_values(|a: AuthorActivity| activity_changed(a))
}

/// `c` is the contribution of activity `a` to repository `repo`, whose
/// records change `total` lines.
pub open spec fn is_contribution_of(
    c: Contribution,
    repo: Seq<char>,
    total: int,
    a: AuthorActivity,
) -> bool {
    &&& c.author@ == a.author.name@
    &&& c.email@ == a.author.email@
    &&& c.commits == a.commits
    &&& c.lines_added == added_total(line_views(a.numstat@))
    &&& c.lines_deleted == deleted_total(line_views(a.numstat@))
    &&& c.contribution_percent.part == activity_changed(a)
    &&& c.contribution_percent.whole == total
    &&& c.repository@ == repo
}

/// Lines changed by all records of a repository's numstat feed.
pub open spec fn feed_changed(lines: Seq<String>) -> int {
    added_total(line_views(lines)) + deleted_total(line_views(lines))
}

/// `r` lists the contributions of `authors` to repository `repo`, whose whole
/// numstat feed is `total_numstat`, ranked by `desc_order` of their changed lines.
pub open spec fn is_repository_ranking(
    r: Seq<Contribution>,
    repo: Seq<char>,
    total_numstat: Seq<String>,
    authors: Seq<AuthorActivity>,
) -> bool {
    &&& r.len() == authors.len()
    &&& forall|q: int|
        0 <= q < r.len() ==> is_contribution_of(
            #[trigger] r[q],
            repo,
            feed_changed(total_numstat),
            authors[desc_order(activity_keys(authors))[q]],
        )
}

fn first_bar(s: &str, len: usize) -> (r: usize)
    requires
        len == s@.len(),
    ensures
        r == bar_index(s@, 0),
        r <= len,
{
    let mut i: usize = 0;
    while i < len && s.get_char(i) != '|'
        invariant
            i <= len == s@.len(),
            bar_index(s@, 0) == bar_index(s@, i as int),
        decreases len - i,
    {
        i = i + 1;
    }
    i
}

/// The identity on one authors line, or `None` where it holds no `|`.
pub fn parse_author_line(line: &str) -> (r: Option<AuthorIdentity>)
    ensures
        r matches Some(a) ==> author_entry(line@) == Some(identity_view(a)),
        r is None ==> author_entry(line@) is None,
{
    let len = line.unicode_len();
    let p = first_bar(line, len);
    if p == len {
        return None;
    }
    let email = line.substring_char(0, p).to_owned();
    let name = line.substring_char(p + 1, len).to_owned();
    Some(AuthorIdentity { email, name })
}

/// The distinct authors of an authors feed, in order of first appearance,
/// each under the display name seen first with its email; lines without a
/// `|` are skipped.
pub fn distinct_authors(lines: &Vec<String>) -> (r: Vec<AuthorIdentity>)
    ensures
        r@.map_values(|a: AuthorIdentity| identity_view(a)) == authors_seen(line_views(lines@)),
{
    let ghost ls = line_views(lines@);
    let mut out: Vec<AuthorIdentity> = Vec::new();
    let mut i: usize = 0;
    while i < lines.len()
        invariant
            i <= lines@.len(),
            ls == line_views(lines@),
            out@.map_values(|a: AuthorIdentity| identity_view(a)) == authors_seen(ls.take(i as int)),
        decreases lines@.len() - i,
    {
        let ghost prev = authors_seen(ls.take(i as int));
        proof {
            assert(ls.take(i + 1).drop_last() == ls.take(i as int));
            assert(ls.take(i + 1).last() == lines@[i as int]@);
        }
        match parse_author_line(lines[i].as_str()) {
            Some(a) => {
                let mut q: usize = 0;
                let mut found = false;
                while q < out.len()
                    invariant
                        q <= out@.len(),
                        prev == out@.map_values(|a: AuthorIdentity| identity_view(a)),
                        found ==> email_listed(prev, a.email@),
                        !found ==> forall|t: int| 0 <= t < q ==> (#[trigger] prev[t]).0 != a.email@,
                    decreases out@.len() - q,
                {
                    if out[q].email == a.email {
                        assert(prev[q as int].0 == a.email@);
                        found = true;
                    }
                    q = q + 1;
                }
                if !found {
                    out.push(a);
                    proof {
                        assert(out@.map_values(|a: AuthorIdentity| identity_view(a)) == prev.push(
                            identity_view(a),
                        ));
                    }
                }
            },
            None => {},
        }
        i = i + 1;
    }
    assert(ls.take(lines@.len() as int) == ls);
    out
}

/// The contributions of a repository's authors: each author's lines changed
/// out of the lines changed by the repository's whole numstat feed, ranked by
/// descending share with authors of equal share in the order given.
pub fn analyze_repository(
    repo_name: &String,
    total_numstat: &Vec<String>,
    authors: &Vec<AuthorActivity>,
) -> (r: Vec<Contribution>)
    requires
        total_numstat@.len() <= MAX_FEED_LINES,
        forall|k: int| 0 <= k < authors@.len() ==> (#[trigger] authors@[k]).numstat@.len() <= MAX_FEED_LINES,
    ensures
        is_repository_ranking(r@, repo_name@, total_numstat@, authors@),
{
    let (total_added, total_deleted) = sum_numstat(total_numstat);
    let total = total_added + total_deleted;
    let ghost keys = activity_keys(authors@);
    let ghost mut o: Seq<int> = Seq::empty();
    let mut out: Vec<Contribution> = Vec::new();
    let mut k: usize = 0;
    while k < authors.len()
        invariant
            k <= authors@.len(),
            total == feed_changed(total_numstat@),
            keys == activity_keys(authors@),
            forall|j: int| 0 <= j < authors@.len() ==> (#[trigger] authors@[j]).numstat@.len() <= MAX_FEED_LINES,
            o == desc_order(keys.take(k as int)),
            out@.len() == k,
            forall|q: int|
                0 <= q < k ==> is_contribution_of(
                    #[trigger] out@[q],
                    repo_name@,
                    total as int,
                    authors@[o[q]],
                ),
        decreases authors@.len() - k,
    {
        let act = &authors[k];
        let (added, deleted) = sum_numstat(&act.numstat);
        let part = added + deleted;
        let c = Contribution {
            author: act.author.name.clone(),
            email: act.author.email.clone(),
            commits: act.commits,
            lines_added: added,
            lines_deleted: deleted,
            contribution_percent: Share { part, whole: total },
            repository: repo_name.clone(),
        };
        let ghost kk = keys.take(k + 1);
        proof {
            lemma_desc_order_ranked(keys.take(k as int));
            assert(kk.drop_last() == keys.take(k as int));
            assert forall|q: int| 0 <= q < o.len() implies 0 <= #[trigger] o[q] < kk.len() by {}
        }
        let mut p: usize = 0;
        while p < out.len() && out[p].contribution_percent.part >= part
            invariant
                p <= out@.len() == o.len() == k,
                kk == keys.take(k + 1),
                keys == activity_keys(authors@),
                part == kk[k as int],
                forall|q: int| 0 <= q < o.len() ==> 0 <= #[trigger] o[q] < k,
                forall|q: int|
                    0 <= q < k ==> (#[trigger] out@[q]).contribution_percent.part == kk[o[q]],
                forall|q: int| 0 <= q < p ==> kk[#[trigger] o[q]] >= kk[k as int],
            decreases out@.len() - p,
        {
            p = p + 1;
        }
        proof {
            lemma_insert_slot_is_first(o, kk, k as int, p as int);
        }
        out.insert(p, c);
        proof {
            o = o.insert(p as int, k as int);
        }
        k = k + 1;
    }
    assert(keys.take(authors@.len() as int) == keys);
    out
}

/// The changed lines that each contribution counts, in order.
pub open spec fn share_parts(r: Seq<Contribution>) -> Seq<int> {
    r.map_values(|c: Contribution| c.contribution_percent.part as int)
}

/// In a repository whose records change no line, every author's share is
/// exactly zero.
pub proof fn lemma_no_changes_no_share(
    repo: Seq<char>,
    total_numstat: Seq<String>,
    authors: Seq<AuthorActivity>,
    r: Seq<Contribution>,
)
    requires
        is_repository_ranking(r, repo, total_numstat, authors),
        feed_changed(total_numstat) == 0,
    ensures
        forall|q: int| 0 <= q < r.len() ==> share_is_zero(#[trigger] r[q].contribution_percent),
{
    assert forall|q: int| 0 <= q < r.len() implies share_is_zero(
        #[trigger] r[q].contribution_percent,
    ) by {
        assert(is_contribution_of(
            r[q],
            repo,
            feed_changed(total_numstat),
            authors[desc_order(activity_keys(authors))[q]],
        ));
    }
}

/// Where the authors' own records together change as many lines as the
/// repository's records, the authors' shares add up to the whole: the
/// percentages sum to 100 whenever that number is positive.
pub proof fn lemma_shares_add_up(
    repo: Seq<char>,
    total_numstat: Seq<String>,
    authors: Seq<AuthorActivity>,
    r: Seq<Contribution>,
)
    requires
        is_repository_ranking(r, repo, total_numstat, authors),
        int_sum(activity_keys(authors)) == feed_changed(total_numstat),
    ensures
        int_sum(share_parts(r)) == feed_changed(total_numstat),
        forall|q: int|
            0 <= q < r.len() ==> (#[trigger] r[q]).contribution_percent.whole == feed_changed(
                total_numstat,
            ),
{
    let keys = activity_keys(authors);
    let o = desc_order(keys);
    lemma_desc_order_ranked(keys);
    lemma_desc_order_sum(keys);
    assert forall|q: int| 0 <= q < r.len() implies (#[trigger] r[q]).contribution_percent.whole
        == feed_changed(total_numstat) by {
        assert(is_contribution_of(r[q], repo, feed_changed(total_numstat), authors[o[q]]));
    }
    assert(share_parts(r) =~= keys_in_order(o, keys)) by {
        assert forall|q: int| 0 <= q < r.len() implies #[trigger] share_parts(r)[q]
            == keys_in_order(o, keys)[q] by {
            assert(is_contribution_of(r[q], repo, feed_changed(total_numstat), authors[o[q]]));
        }
    }
}

/// Contributions come by descending share; of two with equal shares, the
/// author given first comes first.
pub proof fn lemma_contributions_ranked(
    repo: Seq<char>,
    total_numstat: Seq<String>,
    authors: Seq<AuthorActivity>,
    r: Seq<Contribution>,
)
    requires
        is_repository_ranking(r, repo, total_numstat, authors),
    ensures
        forall|a: int, b: int|
            0 <= a < b < r.len() ==> !share_lt(
                #[trigger] r[a].contribution_percent,
                #[trigger] r[b].contribution_percent,
            ),
        forall|a: int, b: int|
            0 <= a < b < r.len() && #[trigger] r[a].contribution_percent
                == #[trigger] r[b].contribution_percent ==> desc_order(activity_keys(authors))[a]
                < desc_order(activity_keys(authors))[b],
{
    let keys = activity_keys(authors);
    let o = desc_order(keys);
    let w = feed_changed(total_numstat);
    lemma_desc_order_ranked(keys);
    assert forall|a: int, b: int| 0 <= a < b < r.len() implies !share_lt(
        #[trigger] r[a].contribution_percent,
        #[trigger] r[b].contribution_percent,
    ) && (r[a].contribution_percent == r[b].contribution_percent ==> o[a] < o[b]) by {
        assert(is_contribution_of(r[a], repo, w, authors[o[a]]));
        assert(is_contribution_of(r[b], repo, w, authors[o[b]]));
        assert(precedes(keys, o[a], o[b]));
        let x = r[a].contribution_percent.part as int;
        let y = r[b].contribution_percent.part as int;
        if w > 0 {
            assert(x * w >= y * w) by (nonlinear_arith)
                requires
                    x >= y,
                    w > 0,
            ;
        }
    }
}

#[verifier::external_type_specification]
#[verifier::external_body]
pub struct ExPath(std::path::Path);

#[verifier::external_type_specification]
#[verifier::external_body]
pub struct ExPathBuf(std::path::PathBuf);

/// Relies on `std::path::Path::join`: the path of the entry `.git` inside `path`.
#[verifier::external_body]
fn git_dir_of(path: &std::path::Path) -> std::path::PathBuf {
    path.join(".git")
}

/// Relies on `std::path::Path::exists`: what it answers depends on the file
/// system, so nothing is stated of it.
#[verifier::external_body]
fn entry_exists(path: &std::path::PathBuf) -> bool {
    path.exists()
}

/// Relies on `std::path::Path::is_dir`: what it answers depends on the file
/// system, so nothing is stated of it.
#[verifier::external_body]
fn entry_is_dir(path: &std::path::PathBuf) -> bool {
    path.is_dir()
}

/// Whether `path` is a repository: its `.git` entry exists and is a
/// directory. The file system answers both, so no contract states more.
pub fn is_git_repository(path: &std::path::Path) -> bool {
    let git_dir = git_dir_of(path);
    let exists = entry_exists(&git_dir);
    let is_dir = entry_is_dir(&git_dir);
    exists && is_dir
}

} // verus!
