use vstd::prelude::*;

verus! {

use crate::error::Error;
use crate::model::{
    IssueView, RepoView, add_issue_dup_at, add_repo_dup_at, issues_has, issues_wf,
    lemma_take_contains, new_issue, new_repo, repo_index, repos_has, repos_wf, spec_add_issues,
    spec_add_repos, spec_remove_issues, spec_remove_repos, MAX_ISSUES_PER_REPO, MAX_REPOS,
};

/// Every element of a filtered sequence is an element of the original.
pub proof fn lemma_filter_subset<A>(s: Seq<A>, pred: spec_fn(A) -> bool)
    ensures
        forall|i: int| 0 <= i < s.filter(pred).len() ==> s.contains(#[trigger] s.filter(pred)[i]),
    decreases s.len(),
{
    reveal(Seq::filter);
    if s.len() != 0 {
        lemma_filter_subset(s.drop_last(), pred);
        let f = s.filter(pred);
        let fd = s.drop_last().filter(pred);
        assert forall|i: int| 0 <= i < f.len() implies s.contains(f[i]) by {
            if i < fd.len() {
                assert(f[i] == fd[i]);
                assert(s.drop_last().contains(fd[i]));
                let k = choose|k: int|
                    0 <= k < s.drop_last().len() && s.drop_last()[k] == fd[i];
                assert(s[k] == fd[i]);
            } else {
                assert(f[i] == s.last());
                assert(s[s.len() - 1] == s.last());
            }
        }
    }
}

/// Filtering keeps keys pairwise distinct.
pub proof fn lemma_filter_keeps_distinct<A>(
    s: Seq<A>,
    pred: spec_fn(A) -> bool,
    key: spec_fn(A) -> Seq<char>,
)
    requires
        forall|i: int, j: int| 0 <= i < j < s.len() ==> key(s[i]) != key(s[j]),
    ensures
        forall|i: int, j: int|
            0 <= i < j < s.filter(pred).len() ==> key(#[trigger] s.filter(pred)[i]) != key(
                #[trigger] s.filter(pred)[j],
            ),
    decreases s.len(),
{
    reveal(Seq::filter);
    if s.len() != 0 {
        let d = s.drop_last();
        assert(forall|i: int| 0 <= i < d.len() ==> d[i] == s[i]);
        lemma_filter_keeps_distinct(d, pred, key);
        lemma_filter_subset(d, pred);
        let f = s.filter(pred);
        let fd = d.filter(pred);
        assert forall|i: int, j: int| 0 <= i < j < f.len() implies key(f[i]) != key(f[j]) by {
            if j < fd.len() {
                assert(f[i] == fd[i] && f[j] == fd[j]);
            } else {
                assert(f[j] == s.last());
                assert(f[i] == fd[i]);
                assert(d.contains(fd[i]));
                let k = choose|k: int| 0 <= k < d.len() && d[k] == fd[i];
                assert(key(s[k]) != key(s[s.len() - 1]));
            }
        }
    }
}

/// A successful repository add yields a well-formed collection again.
pub proof fn lemma_add_repos_wf(repos: Seq<RepoView>, names: Seq<Seq<char>>, r: Seq<RepoView>)
    requires
        repos_wf(repos),
        spec_add_repos(repos, names) == Ok::<Seq<RepoView>, Error>(r),
    ensures
        repos_wf(r),
{
    let nn = repos.len() as int;
    assert(r == repos + names.map_values(|n: Seq<char>| new_repo(n)));
    assert forall|i: int, j: int| 0 <= i < j < r.len() implies r[i].name != r[j].name by {
        if j >= nn {
            let b = j - nn;
            assert(!add_repo_dup_at(repos, names, b));
            lemma_take_contains(names, b, names[b]);
            assert(r[j].name == names[b]);
            if i < nn {
                if r[i].name == r[j].name {
                    assert(repos_has(repos, names[b]));
                }
            } else {
                let a = i - nn;
                if r[i].name == r[j].name {
                    assert(names[a] == names[b]);
                }
            }
        }
    }
    assert forall|i: int| 0 <= i < r.len() implies issues_wf(#[trigger] r[i].issues) by {
        if i >= nn {
            assert(r[i].issues =~= Seq::<IssueView>::empty());
        }
    }
}

/// A successful repository removal yields a well-formed collection again.
pub proof fn lemma_remove_repos_wf(repos: Seq<RepoView>, names: Seq<Seq<char>>, r: Seq<RepoView>)
    requires
        repos_wf(repos),
        spec_remove_repos(repos, names) == Ok::<Seq<RepoView>, Error>(r),
    ensures
        repos_wf(r),
{
    let pred = |x: RepoView| !names.contains(x.name);
    assert(r == repos.filter(pred));
    repos.lemma_filter_len(pred);
    lemma_filter_keeps_distinct(repos, pred, |x: RepoView| x.name);
    lemma_filter_subset(repos, pred);
    assert forall|i: int| 0 <= i < r.len() implies issues_wf(#[trigger] r[i].issues) by {
        assert(repos.contains(r[i]));
        let k = choose|k: int| 0 <= k < repos.len() && repos[k] == r[i];
        assert(issues_wf(repos[k].issues));
    }
}

/// A successful issue add yields a well-formed collection again.
pub proof fn lemma_add_issues_wf(
    repos: Seq<RepoView>,
    repo: Seq<char>,
    names: Seq<Seq<char>>,
    r: Seq<RepoView>,
)
    requires
        repos_wf(repos),
        spec_add_issues(repos, repo, names) == Ok::<Seq<RepoView>, Error>(r),
    ensures
        repos_wf(r),
{
    let k = repo_index(repos, repo);
    let issues = repos[k].issues;
    let grown = issues + names.map_values(|n: Seq<char>| new_issue(n));
    assert(r == repos.update(k, RepoView { name: repos[k].name, issues: grown }));
    let nn = issues.len() as int;
    assert forall|i: int, j: int| 0 <= i < j < grown.len() implies grown[i].name
        != grown[j].name by {
        if j >= nn {
            let b = j - nn;
            assert(!add_issue_dup_at(issues, names, b));
            lemma_take_contains(names, b, names[b]);
            assert(grown[j].name == names[b]);
            if i < nn {
                if grown[i].name == grown[j].name {
                    assert(issues_has(issues, names[b]));
                }
            } else {
                let a = i - nn;
                if grown[i].name == grown[j].name {
                    assert(names[a] == names[b]);
                }
            }
        }
    }
    assert(issues_wf(grown));
    assert forall|i: int, j: int| 0 <= i < j < r.len() implies r[i].name != r[j].name by {
        assert(repos[i].name != repos[j].name);
    }
}

/// A successful issue removal yields a well-formed collection again.
pub proof fn lemma_remove_issues_wf(
    repos: Seq<RepoView>,
    repo: Seq<char>,
    names: Seq<Seq<char>>,
    r: Seq<RepoView>,
)
    requires
        repos_wf(repos),
        spec_remove_issues(repos, repo, names) == Ok::<Seq<RepoView>, Error>(r),
    ensures
        repos_wf(r),
{
    let k = repo_index(repos, repo);
    let pred = |iss: IssueView| !names.contains(iss.name);
    let kept = repos[k].issues.filter(pred);
    assert(r == repos.update(k, RepoView { name: repos[k].name, issues: kept }));
    repos[k].issues.lemma_filter_len(pred);
    lemma_filter_keeps_distinct(repos[k].issues, pred, |iss: IssueView| iss.name);
    assert(issues_wf(kept));
    assert forall|i: int, j: int| 0 <= i < j < r.len() implies r[i].name != r[j].name by {
        assert(repos[i].name != repos[j].name);
    }
}

} // verus!
