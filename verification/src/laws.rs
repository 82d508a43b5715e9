use vstd::prelude::*;

verus! {

use crate::error::Error;
use crate::lemmas::{lemma_add_issues_wf, lemma_add_repos_wf, lemma_filter_subset};
use crate::model::{
    OracleView, RepoView, add_issue_dup_at, add_repo_dup_at, count_named, is_admin,
    lemma_repo_index_unique, lemma_take_contains, mutation_outcome, new_issue, new_repo,
    oracle_wf, repo_index, repo_names, repos_has, repos_wf, spec_add_issues, spec_add_repos,
    spec_remove_issues, unclaimed_status, MAX_REPOS,
};

/// Reading is idempotent: the repository listing is a function of the state
/// alone, so two reads with no mutation between them are equal.
pub proof fn lemma_read_idempotent(v: OracleView, a: Seq<Seq<char>>, b: Seq<Seq<char>>)
    requires
        a == repo_names(v.repos),
        b == repo_names(v.repos),
    ensures
        a == b,
{
}

/// Uniqueness: with the admin calling, once `add_repos([a])` succeeded, the
/// same call again fails with `RepoAlreadyExists` and changes nothing, and
/// the collection still holds exactly one repository named `a`.
pub proof fn lemma_add_repo_twice(
    v0: OracleView,
    v1: OracleView,
    v2: OracleView,
    caller: Seq<char>,
    a: Seq<char>,
    r1: Result<(), Error>,
    r2: Result<(), Error>,
)
    requires
        oracle_wf(v0),
        is_admin(v0, caller),
        mutation_outcome(v0, v1, r1, caller, spec_add_repos(v0.repos, seq![a])),
        r1 == Ok::<(), Error>(()),
        mutation_outcome(v1, v2, r2, caller, spec_add_repos(v1.repos, seq![a])),
    ensures
        r2 == Err::<(), Error>(Error::RepoAlreadyExists),
        v2 == v1,
        count_named(v1.repos, a) == 1,
{
    let names = seq![a];
    let appended = names.map_values(|n: Seq<char>| new_repo(n));
    match spec_add_repos(v0.repos, names) {
        Ok(s) => {
            assert(v1.repos == s && v1.admin == v0.admin);
            assert(is_admin(v1, caller));
            assert(!add_repo_dup_at(v0.repos, names, 0));
            assert(!repos_has(v0.repos, a));
            assert(s == v0.repos + appended);
            assert(v1.repos[v0.repos.len() as int].name == a);
            assert(repos_has(v1.repos, a));
            assert(add_repo_dup_at(v1.repos, seq![a], 0));

            let pred = |r: RepoView| r.name == a;
            Seq::<RepoView>::filter_distributes_over_add(v0.repos, appended, pred);
            lemma_filter_subset(v0.repos, pred);
            assert(v0.repos.filter(pred).len() == 0) by {
                if v0.repos.filter(pred).len() > 0 {
                    v0.repos.lemma_filter_pred(pred, 0);
                    assert(v0.repos.contains(v0.repos.filter(pred)[0]));
                    let w = choose|w: int|
                        0 <= w < v0.repos.len() && v0.repos[w] == v0.repos.filter(pred)[0];
                    assert(repos_has(v0.repos, a));
                }
            }
            assert(appended.filter(pred).len() == 1) by {
                reveal_with_fuel(Seq::filter, 2);
                appended.drop_last().lemma_filter_len(pred);
                assert(appended.drop_last().filter(pred).len() == 0);
                assert(pred(appended.last()));
            }
        },
        Err(_) => {
            assert(false);
        },
    }
}

/// Capacity: with the admin calling, a batch of pairwise-distinct fresh
/// names whose addition would bring the count to the limit or beyond fails
/// with `RepoLimitExceeded`, and the state after the failed call equals the
/// state before.
pub proof fn lemma_add_repos_capacity(
    v0: OracleView,
    v1: OracleView,
    caller: Seq<char>,
    names: Seq<Seq<char>>,
    r: Result<(), Error>,
)
    requires
        oracle_wf(v0),
        is_admin(v0, caller),
        forall|i: int, j: int| 0 <= i < j < names.len() ==> names[i] != names[j],
        forall|i: int| 0 <= i < names.len() ==> !repos_has(v0.repos, #[trigger] names[i]),
        v0.repos.len() + names.len() >= MAX_REPOS,
        mutation_outcome(v0, v1, r, caller, spec_add_repos(v0.repos, names)),
    ensures
        r == Err::<(), Error>(Error::RepoLimitExceeded),
        v1 == v0,
{
    assert forall|i: int| 0 <= i < names.len() implies !add_repo_dup_at(v0.repos, names, i) by {
        lemma_take_contains(names, i, names[i]);
        if names.take(i).contains(names[i]) {
            let j = choose|j: int| 0 <= j < i && names[j] == names[i];
            assert(names[j] != names[i]);
        }
    }
}

/// Round trip: adding a fresh repository and then one issue to it leaves
/// that repository with exactly one issue, carrying status `unclaimed`.
pub proof fn lemma_round_trip(
    repos: Seq<RepoView>,
    rn: Seq<char>,
    iss: Seq<char>,
    r1: Seq<RepoView>,
    r2: Seq<RepoView>,
)
    requires
        repos_wf(repos),
        spec_add_repos(repos, seq![rn]) == Ok::<Seq<RepoView>, Error>(r1),
        spec_add_issues(r1, rn, seq![iss]) == Ok::<Seq<RepoView>, Error>(r2),
    ensures
        repos_has(r2, rn),
        r2[repo_index(r2, rn)].issues == seq![new_issue(iss)],
        r2[repo_index(r2, rn)].issues[0].status == unclaimed_status(),
{
    lemma_add_repos_wf(repos, seq![rn], r1);
    assert(r1[repos.len() as int].name == rn);
    lemma_repo_index_unique(r1, repos.len() as int);
    let k = repo_index(r1, rn);
    assert(k == repos.len());
    assert(r1[k].issues == new_repo(rn).issues);
    lemma_add_issues_wf(r1, rn, seq![iss], r2);
    assert(r2 == r1.update(
        k,
        RepoView {
            name: r1[k].name,
            issues: r1[k].issues + seq![iss].map_values(|n: Seq<char>| new_issue(n)),
        },
    ));
    assert(r2[k].name == rn);
    lemma_repo_index_unique(r2, k);
    assert(repo_index(r2, rn) == k);
    assert(r2[k].issues =~= seq![new_issue(iss)]);
}

/// Authorization: before initialization no principal is the admin — every
/// gated mutation then fails with `Unauthorized` — and afterwards exactly
/// the recorded principal is.
pub proof fn lemma_authorization(v: OracleView, caller: Seq<char>)
    ensures
        v.admin is None ==> !is_admin(v, caller),
        is_admin(v, caller) <==> v.admin == Some(caller),
{
}

/// Cross-repository independence: with the admin calling, a successful
/// removal of issues from one repository keeps that repository present and
/// leaves every other repository exactly as it was.
pub proof fn lemma_remove_issues_independent(
    v0: OracleView,
    v1: OracleView,
    caller: Seq<char>,
    repo: Seq<char>,
    names: Seq<Seq<char>>,
    r: Result<(), Error>,
    other: int,
)
    requires
        oracle_wf(v0),
        is_admin(v0, caller),
        mutation_outcome(v0, v1, r, caller, spec_remove_issues(v0.repos, repo, names)),
        r == Ok::<(), Error>(()),
        0 <= other < v0.repos.len(),
        v0.repos[other].name != repo,
    ensures
        v1.repos.len() == v0.repos.len(),
        v1.repos[other] == v0.repos[other],
        repos_has(v1.repos, repo),
{
    match spec_remove_issues(v0.repos, repo, names) {
        Ok(s) => {
            assert(repos_has(v0.repos, repo));
            let k = repo_index(v0.repos, repo);
            assert(0 <= k < v0.repos.len() && v0.repos[k].name == repo);
            assert(other != k);
            assert(v1.repos == s);
            assert(v1.repos[k].name == repo);
            assert(repos_has(v1.repos, repo));
        },
        Err(_) => {
            assert(false);
        },
    }
}

/// Batch atomicity: with the admin calling, an issue batch that repeats a
/// name is rejected with `IssueAlreadyExists`, and the state after the
/// failed call equals the state before — no issue of the batch, staged or
/// not, becomes visible.
pub proof fn lemma_add_issues_duplicate_batch(
    v0: OracleView,
    v1: OracleView,
    caller: Seq<char>,
    repo: Seq<char>,
    names: Seq<Seq<char>>,
    a: int,
    b: int,
    r: Result<(), Error>,
)
    requires
        is_admin(v0, caller),
        repos_has(v0.repos, repo),
        0 <= a < b < names.len(),
        names[a] == names[b],
        mutation_outcome(v0, v1, r, caller, spec_add_issues(v0.repos, repo, names)),
    ensures
        r == Err::<(), Error>(Error::IssueAlreadyExists),
        v1 == v0,
{
    let k = repo_index(v0.repos, repo);
    lemma_take_contains(names, b, names[b]);
    assert(names.take(b).contains(names[b]));
    assert(add_issue_dup_at(v0.repos[k].issues, names, b));
}

} // verus!
