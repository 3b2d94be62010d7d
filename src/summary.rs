use vstd::prelude::*;

use crate::app::AuthorSummary;
use crate::git::Contribution;
use crate::ranking::{
    desc_order, lemma_desc_order_covers, lemma_desc_order_ranked, lemma_insert_slot_is_first,
    precedes,
};
use crate::share::{share_lt, Share};

verus! {

/// All contributions of all repositories, repository by repository.
pub open spec fn flat(repos: Seq<Vec<Contribution>>) -> Seq<Contribution>
    decreases repos.len(),
{
    if repos.len() == 0 {
        Seq::empty()
    } else {
        flat(repos.drop_last()) + repos.last()@
    }
}

/// Distinct emails of `f` in order of first appearance.
pub open spec fn emails_seen(f: Seq<Contribution>) -> Seq<Seq<char>>
    decreases f.len(),
{
    if f.len() == 0 {
        Seq::empty()
    } else {
        let prev = emails_seen(f.drop_last());
        if prev.contains(f.last().email@) {
            prev
        } else {
            prev.push(f.last().email@)
        }
    }
}

/// The display name that came first with email `e` in `f`.
pub open spec fn first_name(f: Seq<Contribution>, e: Seq<char>) -> Option<Seq<char>>
    decreases f.len(),
{
    if f.len() == 0 {
        None
    } else {
        let prev = first_name(f.drop_last(), e);
        if prev is Some {
            prev
        } else if f.last().email@ == e {
            Some(f.last().author@)
        } else {
            None
        }
    }
}

pub open spec fn commits_of(f: Seq<Contribution>, e: Seq<char>) -> int
    decreases f.len(),
{
    if f.len() == 0 {
        0
    } else {
        commits_of(f.drop_last(), e) + if f.last().email@ == e {
            f.last().commits as int
        } else {
            0
        }
    }
}

pub open spec fn added_of(f: Seq<Contribution>, e: Seq<char>) -> int
    decreases f.len(),
{
    if f.len() == 0 {
        0
    } else {
        added_of(f.drop_last(), e) + if f.last().email@ == e {
            f.last().lines_added as int
        } else {
            0
        }
    }
}

pub open spec fn deleted_of(f: Seq<Contribution>, e: Seq<char>) -> int
    decreases f.len(),
{
    if f.len() == 0 {
        0
    } else {
        deleted_of(f.drop_last(), e) + if f.last().email@ == e {
            f.last().lines_deleted as int
        } else {
            0
        }
    }
}

/// Commits over every contribution of `f`.
pub open spec fn commits_total(f: Seq<Contribution>) -> int
    decreases f.len(),
{
    if f.len() == 0 {
        0
    } else {
        commits_total(f.drop_last()) + f.last().commits
    }
}

/// Changed lines (added plus deleted) over every contribution of `f`.
pub open spec fn changed_total(f: Seq<Contribution>) -> int
    decreases f.len(),
{
    if f.len() == 0 {
        0
    } else {
        changed_total(f.drop_last()) + f.last().lines_added + f.last().lines_deleted
    }
}

/// Repository and share of the first contribution of email `e` whose share
/// exceeds those of all before it and zero; an empty name and zero where none does.
pub open spec fn preferred(f: Seq<Contribution>, e: Seq<char>) -> (Seq<char>, Share)
    decreases f.len(),
{
    if f.len() == 0 {
        (Seq::empty(), Share { part: 0, whole: 0 })
    } else {
        let prev = preferred(f.drop_last(), e);
        if f.last().email@ == e && share_lt(prev.1, f.last().contribution_percent) {
            (f.last().repository@, f.last().contribution_percent)
        } else {
            prev
        }
    }
}

/// Changed lines of each distinct author of `f`, in order of first appearance.
pub open spec fn summary_keys(f: Seq<Contribution>) -> Seq<int> {
    emails_seen(f).map_values(|e: Seq<char>| added_of(f, e) + deleted_of(f, e))
}

/// `s` is the rollup over `f` of the author with email `e`.
pub open spec fn is_summary_of(s: AuthorSummary, f: Seq<Contribution>, e: Seq<char>) -> bool {
    &&& s.email@ == e
    &&& first_name(f, e) == Some(s.author@)
    &&& s.total_commits == commits_of(f, e)
    &&& s.total_lines_added == added_of(f, e)
    &&& s.total_lines_deleted == deleted_of(f, e)
    &&& s.overall_contribution_percent.part == added_of(f, e) + deleted_of(f, e)
    &&& s.overall_contribution_percent.whole == changed_total(f)
    &&& (s.preferred_repo@, s.preferred_repo_percent) == preferred(f, e)
}

/// The commits and the changed lines of all of `f` fit in a `u64`.
pub open spec fn totals_fit(f: Seq<Contribution>) -> bool {
    commits_total(f) <= u64::MAX && changed_total(f) <= u64::MAX
}

/// The rollups of `f`, ranked by descending overall share, equal shares in
/// order of the authors' first appearance.
pub open spec fn is_summary_list(r: Seq<AuthorSummary>, f: Seq<Contribution>) -> bool {
    &&& r.len() == emails_seen(f).len()
    &&& forall|q: int|
        0 <= q < r.len() ==> is_summary_of(
            #[trigger] r[q],
            f,
            emails_seen(f)[desc_order(summary_keys(f))[q]],
        )
}

proof fn lemma_emails_grow(f: Seq<Contribution>)
    requires
        f.len() > 0,
    ensures
        emails_seen(f).contains(f.last().email@),
        forall|e: Seq<char>| emails_seen(f.drop_last()).contains(e) ==> emails_seen(f).contains(e),
{
    let prev = emails_seen(f.drop_last());
    if !prev.contains(f.last().email@) {
        assert(emails_seen(f)[prev.len() as int] == f.last().email@);
        assert forall|e: Seq<char>| prev.contains(e) implies emails_seen(f).contains(e) by {
            let q = choose|q: int| 0 <= q < prev.len() && prev[q] == e;
            assert(emails_seen(f)[q] == e);
        }
    }
}

/// No email is listed twice.
pub proof fn lemma_emails_distinct(f: Seq<Contribution>)
    ensures
        forall|a: int, b: int|
            0 <= a < b < emails_seen(f).len() ==> emails_seen(f)[a] != emails_seen(f)[b],
    decreases f.len(),
{
    if f.len() > 0 {
        lemma_emails_distinct(f.drop_last());
        let prev = emails_seen(f.drop_last());
        if !prev.contains(f.last().email@) {
            assert forall|a: int, b: int|
                0 <= a < b < emails_seen(f).len() implies emails_seen(f)[a]
                != emails_seen(f)[b] by {
                if b == prev.len() {
                    assert(prev[a] == emails_seen(f)[a]);
                }
            }
        }
    }
}

/// An email that `f` never shows has nothing summed for it.
proof fn lemma_absent(f: Seq<Contribution>, e: Seq<char>)
    requires
        !emails_seen(f).contains(e),
    ensures
        commits_of(f, e) == 0,
        added_of(f, e) == 0,
        deleted_of(f, e) == 0,
        first_name(f, e) is None,
        preferred(f, e) == (Seq::<char>::empty(), Share { part: 0, whole: 0 }),
    decreases f.len(),
{
    if f.len() > 0 {
        lemma_emails_grow(f);
        lemma_absent(f.drop_last(), e);
    }
}

proof fn lemma_email_within_total(f: Seq<Contribution>, e: Seq<char>)
    ensures
        0 <= commits_of(f, e) <= commits_total(f),
        0 <= added_of(f, e),
        0 <= deleted_of(f, e),
        added_of(f, e) + deleted_of(f, e) <= changed_total(f),
    decreases f.len(),
{
    if f.len() > 0 {
        lemma_email_within_total(f.drop_last(), e);
    }
}

proof fn lemma_prefix_within_total(f: Seq<Contribution>, i: int)
    requires
        0 <= i <= f.len(),
    ensures
        commits_total(f.take(i)) <= commits_total(f),
        changed_total(f.take(i)) <= changed_total(f),
    decreases f.len(),
{
    if i < f.len() {
        assert(f.drop_last().take(i) == f.take(i));
        lemma_prefix_within_total(f.drop_last(), i);
        lemma_totals_nonneg(f.drop_last());
    } else {
        assert(f.take(i) == f);
    }
}

proof fn lemma_totals_nonneg(f: Seq<Contribution>)
    ensures
        commits_total(f) >= 0,
        changed_total(f) >= 0,
    decreases f.len(),
{
    if f.len() > 0 {
        lemma_totals_nonneg(f.drop_last());
    }
}

/// A copy of a contribution, field for field.
pub fn copy_contribution(c: &Contribution) -> (r: Contribution)
    ensures
        r == *c,
{
    Contribution {
        author: c.author.clone(),
        email: c.email.clone(),
        commits: c.commits,
        lines_added: c.lines_added,
        lines_deleted: c.lines_deleted,
        contribution_percent: c.contribution_percent,
        repository: c.repository.clone(),
    }
}

/// Every contribution of every repository, repository by repository.
pub fn flatten(repos: &Vec<Vec<Contribution>>) -> (r: Vec<Contribution>)
    ensures
        r@ == flat(repos@),
{
    let mut out: Vec<Contribution> = Vec::new();
    let mut i: usize = 0;
    while i < repos.len()
        invariant
            i <= repos@.len(),
            out@ == flat(repos@.take(i as int)),
        decreases repos@.len() - i,
    {
        let ghost before = out@;
        let list = &repos[i];
        let mut j: usize = 0;
        while j < list.len()
            invariant
                j <= list@.len(),
                list == repos@[i as int],
                out@ == before + list@.take(j as int),
            decreases list@.len() - j,
        {
            let c = copy_contribution(&list[j]);
            out.push(c);
            proof {
                assert(list@.take(j + 1) == list@.take(j as int).push(list@[j as int]));
                assert(before + list@.take(j + 1) == (before + list@.take(j as int)).push(list@[j as int]));
            }
            j = j + 1;
        }
        proof {
            assert(repos@.take(i + 1).drop_last() == repos@.take(i as int));
            assert(list@.take(j as int) == list@);
        }
        i = i + 1;
    }
    assert(repos@.take(repos@.len() as int) == repos@);
    out
}

/// Whether the commits and the changed lines of all contributions fit in a
/// `u64`, as `calculate_author_summaries` needs.
pub fn summaries_fit(contributions: &Vec<Vec<Contribution>>) -> (r: bool)
    ensures
        r == totals_fit(flat(contributions@)),
{
    let f = flatten(contributions);
    let mut commits: u64 = 0;
    let mut changed: u64 = 0;
    let mut i: usize = 0;
    while i < f.len()
        invariant
            i <= f@.len(),
            f@ == flat(contributions@),
            commits == commits_total(f@.take(i as int)),
            changed == changed_total(f@.take(i as int)),
        decreases f@.len() - i,
    {
        let c = &f[i];
        proof {
            assert(f@.take(i + 1).drop_last() == f@.take(i as int));
            assert(f@.take(i + 1).last() == *c);
            lemma_prefix_within_total(f@, i + 1);
        }
        if c.commits > u64::MAX - commits {
            return false;
        }
        if c.lines_added > u64::MAX - changed || c.lines_deleted > u64::MAX - changed
            - c.lines_added {
            return false;
        }
        commits = commits + c.commits;
        changed = changed + c.lines_added + c.lines_deleted;
        i = i + 1;
    }
    assert(f@.take(f@.len() as int) == f@);
    true
}

/// Running totals of one author while the contributions are walked.
struct Tally {
    author: String,
    email: String,
    commits: u64,
    added: u64,
    deleted: u64,
    preferred_repo: String,
    preferred_share: Share,
}

spec fn tally_matches(t: Tally, g: Seq<Contribution>, e: Seq<char>) -> bool {
    &&& t.email@ == e
    &&& first_name(g, e) == Some(t.author@)
    &&& t.commits == commits_of(g, e)
    &&& t.added == added_of(g, e)
    &&& t.deleted == deleted_of(g, e)
    &&& (t.preferred_repo@, t.preferred_share) == preferred(g, e)
}

/// One tally per distinct email of `f`, in order of first appearance, and
/// the changed lines of all of `f`.
fn tally_authors(f: &Vec<Contribution>) -> (r: (Vec<Tally>, u64))
    requires
        commits_total(f@) <= u64::MAX,
        changed_total(f@) <= u64::MAX,
    ensures
        r.0@.len() == emails_seen(f@).len(),
        forall|t: int|
            0 <= t < r.0@.len() ==> tally_matches(#[trigger] r.0@[t], f@, emails_seen(f@)[t]),
        r.1 == changed_total(f@),
{
    let mut tallies: Vec<Tally> = Vec::new();
    let mut grand: u64 = 0;
    let mut i: usize = 0;
    while i < f.len()
        invariant
            i <= f@.len(),
            commits_total(f@) <= u64::MAX,
            changed_total(f@) <= u64::MAX,
            tallies@.len() == emails_seen(f@.take(i as int)).len(),
            forall|t: int|
                0 <= t < tallies@.len() ==> tally_matches(
                    #[trigger] tallies@[t],
                    f@.take(i as int),
                    emails_seen(f@.take(i as int))[t],
                ),
            grand == changed_total(f@.take(i as int)),
        decreases f@.len() - i,
    {
        let c = &f[i];
        let ghost g = f@.take(i as int);
        let ghost g1 = f@.take(i + 1);
        let ghost seen = emails_seen(g);
        proof {
            lemma_emails_distinct(g);
            assert(g1.drop_last() == g);
            assert(g1.last() == *c);
            lemma_prefix_within_total(f@, i + 1);
            lemma_email_within_total(g1, c.email@);
        }
        grand = grand + c.lines_added + c.lines_deleted;
        let mut q: usize = 0;
        while q < tallies.len() && tallies[q].email != c.email
            invariant
                q <= tallies@.len() == seen.len(),
                forall|t: int| 0 <= t < tallies@.len() ==> (#[trigger] tallies@[t]).email@ == seen[t],
                forall|t: int| 0 <= t < q ==> seen[t] != c.email@,
            decreases tallies@.len() - q,
        {
            q = q + 1;
        }
        if q < tallies.len() {
            let ghost e = c.email@;
            assert(tally_matches(tallies@[q as int], g, seen[q as int]));
            assert(seen[q as int] == e);
            assert(seen.contains(e));
            assert(emails_seen(g1) == seen);
            let old = &tallies[q];
            let (preferred_repo, preferred_share) = if old.preferred_share.is_less_than(
                &c.contribution_percent,
            ) {
                (c.repository.clone(), c.contribution_percent)
            } else {
                (old.preferred_repo.clone(), old.preferred_share)
            };
            let t = Tally {
                author: old.author.clone(),
                email: old.email.clone(),
                commits: old.commits + c.commits,
                added: old.added + c.lines_added,
                deleted: old.deleted + c.lines_deleted,
                preferred_repo,
                preferred_share,
            };
            let ghost before = tallies@;
            tallies.set(q, t);
            proof {
                assert forall|u: int| 0 <= u < tallies@.len() implies tally_matches(
                    #[trigger] tallies@[u],
                    g1,
                    emails_seen(g1)[u],
                ) by {
                    assert(tally_matches(before[u], g, seen[u]));
                    if u != q {
                        assert(seen[u] != seen[q as int]);
                    }
                }
            }
        } else {
            let ghost e = c.email@;
            assert(!seen.contains(e)) by {
                if seen.contains(e) {
                    let t = choose|t: int| 0 <= t < seen.len() && seen[t] == e;
                    assert(seen[t] != c.email@);
                }
            }
            proof {
                lemma_absent(g, e);
            }
            let zero = Share::zero();
            let (preferred_repo, preferred_share) = if zero.is_less_than(&c.contribution_percent) {
                (c.repository.clone(), c.contribution_percent)
            } else {
                (String::new(), zero)
            };
            let t = Tally {
                author: c.author.clone(),
                email: c.email.clone(),
                commits: c.commits,
                added: c.lines_added,
                deleted: c.lines_deleted,
                preferred_repo,
                preferred_share,
            };
            let ghost before = tallies@;
            tallies.push(t);
            proof {
                assert(emails_seen(g1) == seen.push(e));
                assert forall|u: int| 0 <= u < tallies@.len() implies tally_matches(
                    #[trigger] tallies@[u],
                    g1,
                    emails_seen(g1)[u],
                ) by {
                    if u < before.len() {
                        assert(tally_matches(before[u], g, seen[u]));
                        assert(seen[u] != e);
                    }
                }
            }
        }
        i = i + 1;
    }
    assert(f@.take(f@.len() as int) == f@);
    (tallies, grand)
}

/// Each author's rollup across all repositories, one per email: commits and
/// lines summed over every repository, the author's changed lines out of all
/// repositories' changed lines, and the repository (earliest on ties) where
/// the author's share is highest. Ranked by descending overall share, authors
/// of equal share in order of first appearance.
pub fn calculate_author_summaries(contributions: &Vec<Vec<Contribution>>) -> (r: Vec<AuthorSummary>)
    requires
        totals_fit(flat(contributions@)),
    ensures
        is_summary_list(r@, flat(contributions@)),
{
    let f = flatten(contributions);
    let (tallies, grand) = tally_authors(&f);
    let ghost keys = summary_keys(f@);
    let ghost seen = emails_seen(f@);
    let ghost mut o: Seq<int> = Seq::empty();
    let mut out: Vec<AuthorSummary> = Vec::new();
    let mut k: usize = 0;
    while k < tallies.len()
        invariant
            k <= tallies@.len() == seen.len() == keys.len(),
            seen == emails_seen(f@),
            keys == summary_keys(f@),
            grand == changed_total(f@),
            forall|t: int| 0 <= t < tallies@.len() ==> tally_matches(#[trigger] tallies@[t], f@, seen[t]),
            o == desc_order(keys.take(k as int)),
            out@.len() == k,
            forall|q: int| 0 <= q < k ==> is_summary_of(#[trigger] out@[q], f@, seen[o[q]]),
        decreases tallies@.len() - k,
    {
        let t = &tallies[k];
        proof {
            assert(tally_matches(tallies@[k as int], f@, seen[k as int]));
            lemma_email_within_total(f@, seen[k as int]);
        }
        let part = t.added + t.deleted;
        let s = AuthorSummary {
            author: t.author.clone(),
            email: t.email.clone(),
            total_commits: t.commits,
            total_lines_added: t.added,
            total_lines_deleted: t.deleted,
            overall_contribution_percent: Share { part, whole: grand },
            preferred_repo: t.preferred_repo.clone(),
            preferred_repo_percent: t.preferred_share,
        };
        let ghost kk = keys.take(k + 1);
        proof {
            lemma_desc_order_ranked(keys.take(k as int));
            assert(kk.drop_last() == keys.take(k as int));
            assert forall|q: int| 0 <= q < o.len() implies 0 <= #[trigger] o[q] < kk.len() by {}
            assert forall|q: int| 0 <= q < k implies (#[trigger] out@[q]).overall_contribution_percent.part
                == kk[o[q]] by {
                assert(is_summary_of(out@[q], f@, seen[o[q]]));
            }
        }
        let mut p: usize = 0;
        while p < out.len() && out[p].overall_contribution_percent.part >= part
            invariant
                p <= out@.len() == o.len() == k,
                part == kk[k as int],
                forall|q: int| 0 <= q < o.len() ==> 0 <= #[trigger] o[q] < k,
                forall|q: int|
                    0 <= q < k ==> (#[trigger] out@[q]).overall_contribution_percent.part == kk[o[q]],
                forall|q: int| 0 <= q < p ==> kk[#[trigger] o[q]] >= kk[k as int],
            decreases out@.len() - p,
        {
            p = p + 1;
        }
        proof {
            lemma_insert_slot_is_first(o, kk, k as int, p as int);
        }
        let ghost before = out@;
        out.insert(p, s);
        proof {
            o = o.insert(p as int, k as int);
            assert forall|q: int| 0 <= q < k + 1 implies is_summary_of(
                #[trigger] out@[q],
                f@,
                seen[o[q]],
            ) by {
                if q < p {
                    assert(out@[q] == before[q]);
                } else if q > p {
                    assert(out@[q] == before[q - 1]);
                }
            }
        }
        k = k + 1;
    }
    assert(keys.take(tallies@.len() as int) == keys);
    out
}

/// The values a summary holds, strings read as characters.
pub open spec fn summary_view(s: AuthorSummary) -> (
    Seq<char>,
    Seq<char>,
    u64,
    u64,
    u64,
    Share,
    Seq<char>,
    Share,
) {
    (
        s.author@,
        s.email@,
        s.total_commits,
        s.total_lines_added,
        s.total_lines_deleted,
        s.overall_contribution_percent,
        s.preferred_repo@,
        s.preferred_repo_percent,
    )
}

/// Every email of `f` is among the emails it shows first.
proof fn lemma_emails_cover(f: Seq<Contribution>)
    ensures
        forall|i: int| 0 <= i < f.len() ==> emails_seen(f).contains(#[trigger] f[i].email@),
    decreases f.len(),
{
    if f.len() > 0 {
        lemma_emails_cover(f.drop_last());
        lemma_emails_grow(f);
        assert forall|i: int| 0 <= i < f.len() implies emails_seen(f).contains(
            #[trigger] f[i].email@,
        ) by {
            if i < f.len() - 1 {
                assert(f.drop_last()[i] == f[i]);
            }
        }
    }
}

/// The summaries are fixed by their input: two results for the same
/// repositories hold the same values in the same order.
pub proof fn lemma_summaries_deterministic(
    repos: Seq<Vec<Contribution>>,
    r1: Seq<AuthorSummary>,
    r2: Seq<AuthorSummary>,
)
    requires
        is_summary_list(r1, flat(repos)),
        is_summary_list(r2, flat(repos)),
    ensures
        r1.map_values(|s: AuthorSummary| summary_view(s)) == r2.map_values(
            |s: AuthorSummary| summary_view(s),
        ),
{
    let f = flat(repos);
    let o = desc_order(summary_keys(f));
    assert forall|q: int| 0 <= q < r1.len() implies summary_view(#[trigger] r1[q])
        == summary_view(r2[q]) by {
        assert(is_summary_of(r1[q], f, emails_seen(f)[o[q]]));
        assert(is_summary_of(r2[q], f, emails_seen(f)[o[q]]));
    }
    assert(r1.map_values(|s: AuthorSummary| summary_view(s)) =~= r2.map_values(
        |s: AuthorSummary| summary_view(s),
    ));
}

/// Summaries come by descending overall share; of two with equal shares,
/// the author that appeared first comes first.
pub proof fn lemma_summaries_ranked(repos: Seq<Vec<Contribution>>, r: Seq<AuthorSummary>)
    requires
        is_summary_list(r, flat(repos)),
    ensures
        forall|a: int, b: int|
            0 <= a < b < r.len() ==> !share_lt(
                #[trigger] r[a].overall_contribution_percent,
                #[trigger] r[b].overall_contribution_percent,
            ),
        forall|a: int, b: int|
            0 <= a < b < r.len() && #[trigger] r[a].overall_contribution_percent
                == #[trigger] r[b].overall_contribution_percent ==> desc_order(
                summary_keys(flat(repos)),
            )[a] < desc_order(summary_keys(flat(repos)))[b],
{
    let f = flat(repos);
    let keys = summary_keys(f);
    let o = desc_order(keys);
    let w = changed_total(f);
    let seen = emails_seen(f);
    lemma_desc_order_ranked(keys);
    assert forall|a: int, b: int| 0 <= a < b < r.len() implies !share_lt(
        #[trigger] r[a].overall_contribution_percent,
        #[trigger] r[b].overall_contribution_percent,
    ) && (r[a].overall_contribution_percent == r[b].overall_contribution_percent ==> o[a]
        < o[b]) by {
        assert(is_summary_of(r[a], f, seen[o[a]]));
        assert(is_summary_of(r[b], f, seen[o[b]]));
        assert(precedes(keys, o[a], o[b]));
        let x = r[a].overall_contribution_percent.part as int;
        let y = r[b].overall_contribution_percent.part as int;
        if w > 0 {
            assert(x * w >= y * w) by (nonlinear_arith)
                requires
                    x >= y,
                    w > 0,
            ;
        }
    }
}

/// One summary per email: no email has two, every email of any repository
/// has one, and each carries the display name that came first with its email.
pub proof fn lemma_summaries_one_per_email(repos: Seq<Vec<Contribution>>, r: Seq<AuthorSummary>)
    requires
        is_summary_list(r, flat(repos)),
    ensures
        forall|a: int, b: int|
            0 <= a < b < r.len() ==> (#[trigger] r[a]).email@ != (#[trigger] r[b]).email@,
        forall|q: int|
            0 <= q < r.len() ==> first_name(flat(repos), (#[trigger] r[q]).email@) == Some(
                r[q].author@,
            ),
        forall|i: int|
            0 <= i < flat(repos).len() ==> exists|q: int|
                0 <= q < r.len() && (#[trigger] r[q]).email@ == (#[trigger] flat(repos)[i]).email@,
{
    let f = flat(repos);
    let keys = summary_keys(f);
    let o = desc_order(keys);
    let seen = emails_seen(f);
    lemma_desc_order_ranked(keys);
    lemma_desc_order_covers(keys);
    lemma_emails_distinct(f);
    lemma_emails_cover(f);
    assert forall|a: int, b: int| 0 <= a < b < r.len() implies (#[trigger] r[a]).email@ != (
    #[trigger] r[b]).email@ by {
        assert(is_summary_of(r[a], f, seen[o[a]]));
        assert(is_summary_of(r[b], f, seen[o[b]]));
        assert(precedes(keys, o[a], o[b]));
    }
    assert forall|q: int| 0 <= q < r.len() implies first_name(f, (#[trigger] r[q]).email@) == Some(
        r[q].author@,
    ) by {
        assert(is_summary_of(r[q], f, seen[o[q]]));
    }
    assert forall|i: int| 0 <= i < f.len() implies exists|q: int|
        0 <= q < r.len() && (#[trigger] r[q]).email@ == (#[trigger] f[i]).email@ by {
        assert(seen.contains(f[i].email@));
        let t = choose|t: int| 0 <= t < seen.len() && seen[t] == f[i].email@;
        assert(o.contains(t));
        let q = choose|q: int| 0 <= q < o.len() && o[q] == t;
        assert(is_summary_of(r[q], f, seen[o[q]]));
    }
}

} // verus!
