use vstd::prelude::*;

verus! {

use crate::error::Error;

/// Strict upper bound on the number of repositories: an add whose result
/// would reach this count is rejected.
pub const MAX_REPOS: usize = 256;

/// Strict upper bound on the number of issues of one repository: an add
/// whose result would reach this count is rejected.
pub const MAX_ISSUES_PER_REPO: usize = 512;

/// Mathematical image of one issue: its name and its status string.
#[verifier::ext_equal]
pub ghost struct IssueView {
    pub name: Seq<char>,
    pub status: Seq<char>,
}

/// Mathematical image of one repository: its name and its issues, in
/// insertion order.
#[verifier::ext_equal]
pub ghost struct RepoView {
    pub name: Seq<char>,
    pub issues: Seq<IssueView>,
}

/// Mathematical image of the whole registry: the admin principal, if one was
/// recorded, and the repositories in insertion order.
#[verifier::ext_equal]
pub ghost struct OracleView {
    pub admin: Option<Seq<char>>,
    pub repos: Seq<RepoView>,
}

/// The status every issue carries when it is created.
pub open spec fn unclaimed_status() -> Seq<char> {
    "unclaimed"@
}

/// A repository of that name is present.
pub open spec fn repos_has(repos: Seq<RepoView>, name: Seq<char>) -> bool {
    exists|i: int| 0 <= i < repos.len() && repos[i].name == name
}

/// The position of the repository of that name; meaningful only when
/// `repos_has(repos, name)` holds and names are distinct.
pub open spec fn repo_index(repos: Seq<RepoView>, name: Seq<char>) -> int {
    choose|i: int| 0 <= i < repos.len() && repos[i].name == name
}

/// An issue of that name is present.
pub open spec fn issues_has(issues: Seq<IssueView>, name: Seq<char>) -> bool {
    exists|i: int| 0 <= i < issues.len() && issues[i].name == name
}

/// The repository names, in collection order.
pub open spec fn repo_names(repos: Seq<RepoView>) -> Seq<Seq<char>> {
    repos.map_values(|r: RepoView| r.name)
}

/// The name sequence of a batch argument.
pub open spec fn names_view(names: Seq<String>) -> Seq<Seq<char>> {
    names.map_values(|s: String| s@)
}

/// How many repositories of the collection carry this name.
pub open spec fn count_named(repos: Seq<RepoView>, name: Seq<char>) -> nat {
    repos.filter(|r: RepoView| r.name == name).len()
}

/// Well-formed issue collection: under the limit, names pairwise distinct.
pub open spec fn issues_wf(issues: Seq<IssueView>) -> bool {
    &&& issues.len() < MAX_ISSUES_PER_REPO
    &&& forall|i: int, j: int|
        0 <= i < j < issues.len() ==> issues[i].name != issues[j].name
}

/// Well-formed repository collection: under the limit, names pairwise
/// distinct, every issue collection well-formed.
pub open spec fn repos_wf(repos: Seq<RepoView>) -> bool {
    &&& repos.len() < MAX_REPOS
    &&& forall|i: int, j: int| 0 <= i < j < repos.len() ==> repos[i].name != repos[j].name
    &&& forall|i: int| 0 <= i < repos.len() ==> issues_wf(#[trigger] repos[i].issues)
}

/// Well-formed registry state.
pub open spec fn oracle_wf(v: OracleView) -> bool {
    repos_wf(v.repos)
}

/// The caller is the recorded admin.
pub open spec fn is_admin(v: OracleView, caller: Seq<char>) -> bool {
    v.admin == Some(caller)
}

/// A freshly added repository: the given name, no issues.
pub open spec fn new_repo(name: Seq<char>) -> RepoView {
    RepoView { name, issues: Seq::empty() }
}

/// A freshly added issue: the given name, status `unclaimed`.
pub open spec fn new_issue(name: Seq<char>) -> IssueView {
    IssueView { name, status: unclaimed_status() }
}

/// Adding the repository name at position `i` of the batch fails: the name is
/// already in the collection, or it already occurred earlier in the batch.
pub open spec fn add_repo_dup_at(repos: Seq<RepoView>, names: Seq<Seq<char>>, i: int) -> bool {
    repos_has(repos, names[i]) || names.take(i).contains(names[i])
}

/// What `add_repos` does to the repository collection, authorization aside:
/// the first duplicate (against the collection or within the batch, in input
/// order) aborts; then the post-add count must stay under the limit; on
/// success the new repositories are appended in input order, each empty.
pub open spec fn spec_add_repos(repos: Seq<RepoView>, names: Seq<Seq<char>>) -> Result<
    Seq<RepoView>,
    Error,
> {
    if exists|i: int| 0 <= i < names.len() && add_repo_dup_at(repos, names, i) {
        Err(Error::RepoAlreadyExists)
    } else if repos.len() + names.len() >= MAX_REPOS {
        Err(Error::RepoLimitExceeded)
    } else {
        Ok(repos + names.map_values(|n: Seq<char>| new_repo(n)))
    }
}

/// Removing the repository name at position `i` of the batch fails: the name
/// is absent, or an earlier occurrence in the batch already removed it.
pub open spec fn remove_repo_bad_at(repos: Seq<RepoView>, names: Seq<Seq<char>>, i: int) -> bool {
    !repos_has(repos, names[i]) || names.take(i).contains(names[i])
}

/// What `remove_repos` does to the repository collection, authorization
/// aside: every batch entry must name a repository still present when it is
/// reached, and on success exactly the named repositories are gone, the rest
/// keeping their relative order.
pub open spec fn spec_remove_repos(repos: Seq<RepoView>, names: Seq<Seq<char>>) -> Result<
    Seq<RepoView>,
    Error,
> {
    if exists|i: int| 0 <= i < names.len() && remove_repo_bad_at(repos, names, i) {
        Err(Error::RepoMissing)
    } else {
        Ok(repos.filter(|r: RepoView| !names.contains(r.name)))
    }
}

/// Adding the issue name at position `i` of the batch fails: the name is
/// already among the repository's issues, or occurred earlier in the batch.
pub open spec fn add_issue_dup_at(issues: Seq<IssueView>, names: Seq<Seq<char>>, i: int) -> bool {
    issues_has(issues, names[i]) || names.take(i).contains(names[i])
}

/// What `add_issues` does to the repository collection, authorization aside:
/// the repository must exist; the first duplicate issue name aborts; the
/// post-add issue count must stay under the limit; on success the new issues
/// are appended in input order, each with status `unclaimed`.
pub open spec fn spec_add_issues(
    repos: Seq<RepoView>,
    repo: Seq<char>,
    names: Seq<Seq<char>>,
) -> Result<Seq<RepoView>, Error> {
    if !repos_has(repos, repo) {
        Err(Error::RepoMissing)
    } else {
        let k = repo_index(repos, repo);
        let issues = repos[k].issues;
        if exists|i: int| 0 <= i < names.len() && add_issue_dup_at(issues, names, i) {
            Err(Error::IssueAlreadyExists)
        } else if issues.len() + names.len() >= MAX_ISSUES_PER_REPO {
            Err(Error::IssueLimitExceeded)
        } else {
            Ok(
                repos.update(
                    k,
                    RepoView {
                        name: repos[k].name,
                        issues: issues + names.map_values(|n: Seq<char>| new_issue(n)),
                    },
                ),
            )
        }
    }
}

/// Removing the issue name at position `i` of the batch fails: the name is
/// not among the repository's issues, or an earlier occurrence in the batch
/// already removed it.
pub open spec fn remove_issue_bad_at(
    issues: Seq<IssueView>,
    names: Seq<Seq<char>>,
    i: int,
) -> bool {
    !issues_has(issues, names[i]) || names.take(i).contains(names[i])
}

/// What `remove_issues` does to the repository collection, authorization
/// aside: the repository must exist; every batch entry must name an issue
/// still present when it is reached; on success exactly the named issues are
/// gone from that repository, the rest keeping their relative order, and no
/// other repository changes.
pub open spec fn spec_remove_issues(
    repos: Seq<RepoView>,
    repo: Seq<char>,
    names: Seq<Seq<char>>,
) -> Result<Seq<RepoView>, Error> {
    if !repos_has(repos, repo) {
        Err(Error::RepoMissing)
    } else {
        let k = repo_index(repos, repo);
        if exists|i: int| 0 <= i < names.len() && remove_issue_bad_at(repos[k].issues, names, i) {
            Err(Error::IssueMissing)
        } else {
            Ok(
                repos.update(
                    k,
                    RepoView {
                        name: repos[k].name,
                        issues: repos[k].issues.filter(
                            |iss: IssueView| !names.contains(iss.name),
                        ),
                    },
                ),
            )
        }
    }
}

/// What `config` does to the whole state: it fails when an admin is already
/// recorded; otherwise it records the admin and stages the initial
/// repositories exactly as `add_repos` would, all or nothing.
pub open spec fn spec_config(v: OracleView, admin: Seq<char>, names: Seq<Seq<char>>) -> Result<
    OracleView,
    Error,
> {
    if v.admin is Some {
        Err(Error::AlreadyInitialized)
    } else {
        match spec_add_repos(v.repos, names) {
            Ok(repos) => Ok(OracleView { admin: Some(admin), repos }),
            Err(e) => Err(e),
        }
    }
}

/// Membership in a batch prefix is membership at some earlier position.
pub proof fn lemma_take_contains(names: Seq<Seq<char>>, i: int, x: Seq<char>)
    requires
        0 <= i <= names.len(),
    ensures
        names.take(i).contains(x) <==> exists|j: int| 0 <= j < i && names[j] == x,
{
    if names.take(i).contains(x) {
        let k = choose|k: int| 0 <= k < names.take(i).len() && names.take(i)[k] == x;
        assert(names[k] == x);
    }
    if exists|j: int| 0 <= j < i && names[j] == x {
        let j = choose|j: int| 0 <= j < i && names[j] == x;
        assert(names.take(i)[j] == x);
    }
}

/// With pairwise-distinct names, the position a name is found at is the
/// position `repo_index` denotes.
pub proof fn lemma_repo_index_unique(repos: Seq<RepoView>, k: int)
    requires
        forall|i: int, j: int| 0 <= i < j < repos.len() ==> repos[i].name != repos[j].name,
        0 <= k < repos.len(),
    ensures
        repos_has(repos, repos[k].name),
        repo_index(repos, repos[k].name) == k,
{
    assert(repos_has(repos, repos[k].name));
    let c = repo_index(repos, repos[k].name);
    assert(0 <= c < repos.len() && repos[c].name == repos[k].name);
    if c != k {
        assert(repos[c].name != repos[k].name);
    }
}

/// The shared shape of every admin-gated mutation's outcome: without
/// authorization the call fails with `Unauthorized` and changes nothing; with
/// it, the repository collection follows `step` — on `Ok` the new collection
/// is installed and the admin is untouched, on `Err` that error is returned
/// and nothing changes.
pub open spec fn mutation_outcome(
    pre: OracleView,
    post: OracleView,
    r: Result<(), Error>,
    caller: Seq<char>,
    step: Result<Seq<RepoView>, Error>,
) -> bool {
    if !is_admin(pre, caller) {
        r == Err::<(), Error>(Error::Unauthorized) && post == pre
    } else {
        match step {
            Ok(repos) => r == Ok::<(), Error>(()) && post.admin == pre.admin && post.repos
                == repos,
            Err(e) => r == Err::<(), Error>(e) && post == pre,
        }
    }
}

} // verus!
