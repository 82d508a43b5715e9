use vstd::prelude::*;

verus! {

use crate::config::ConfigData;
use crate::error::Error;
use crate::lemmas::{
    lemma_add_issues_wf, lemma_add_repos_wf, lemma_remove_issues_wf, lemma_remove_repos_wf,
};
use crate::model::{
    IssueView, OracleView, RepoView, add_issue_dup_at, add_repo_dup_at, is_admin, issues_has,
    lemma_repo_index_unique, mutation_outcome, names_view, new_issue,
    new_repo, oracle_wf, remove_issue_bad_at, remove_repo_bad_at, repo_index, repo_names,
    repos_has, repos_wf, spec_add_issues, spec_add_repos, spec_config, spec_remove_issues,
    spec_remove_repos, unclaimed_status, MAX_ISSUES_PER_REPO, MAX_REPOS,
};

/// The major version this registry reports.
pub const VERSION_MAJOR: u32 = 1;

/// The mathematical image of an issue vector.
pub open spec fn issues_view(issues: Seq<Issue>) -> Seq<IssueView> {
    issues.map_values(|iss: Issue| iss@)
}

/// The status string every new issue is created with.
fn unclaimed_string() -> (s: String)
    ensures
        s@ == unclaimed_status(),
{
    "unclaimed".to_owned()
}

/// Whether one of the first `upto` batch entries is the name `x`.
fn name_in_prefix(names: &Vec<String>, upto: usize, x: &String) -> (r: bool)
    requires
        upto <= names.len(),
    ensures
        r == names_view(names@).take(upto as int).contains(x@),
{
    let ghost nv = names_view(names@);
    let mut j: usize = 0;
    while j < upto
        invariant
            j <= upto <= names.len(),
            nv == names_view(names@),
            forall|k: int| 0 <= k < j ==> nv[k] != x@,
        decreases upto - j,
    {
        if names[j] == *x {
            proof {
                assert(nv.take(upto as int)[j as int] == x@);
            }
            return true;
        }
        j = j + 1;
    }
    proof {
        assert(!nv.take(upto as int).contains(x@)) by {
            if nv.take(upto as int).contains(x@) {
                let k = choose|k: int|
                    0 <= k < nv.take(upto as int).len() && nv.take(upto as int)[k] == x@;
                assert(nv[k] == x@);
            }
        }
    }
    false
}

/// The position of the issue of that name, if it is present.
fn find_issue(issues: &Vec<Issue>, name: &String) -> (r: Option<usize>)
    ensures
        match r {
            Some(k) => k < issues@.len() && issues_view(issues@)[k as int].name == name@,
            None => !issues_has(issues_view(issues@), name@),
        },
{
    let n = issues.len();
    for j in 0..n
        invariant
            n == issues.len(),
            forall|k: int| 0 <= k < j ==> issues_view(issues@)[k].name != name@,
    {
        if issues[j].name == *name {
            return Some(j);
        }
    }
    None
}

/// Whether an issue of that name is present.
fn contains_issue(issues: &Vec<Issue>, name: &String) -> (r: bool)
    ensures
        r == issues_has(issues_view(issues@), name@),
{
    match find_issue(issues, name) {
        Some(_) => {
            proof {
                assert(issues_has(issues_view(issues@), name@));
            }
            true
        },
        None => false,
    }
}

/// A deep copy of an issue vector, equal to the original in the model.
fn copy_issues(src: &Vec<Issue>) -> (r: Vec<Issue>)
    ensures
        issues_view(r@) == issues_view(src@),
{
    let mut out: Vec<Issue> = Vec::new();
    let n = src.len();
    for i in 0..n
        invariant
            n == src.len(),
            issues_view(out@) == issues_view(src@).take(i as int),
    {
        proof {
            assert(issues_view(out@).len() == out@.len());
            assert(issues_view(src@).take(i as int).len() == i);
        }
        let iss = &src[i];
        out.push(Issue { name: iss.name.clone(), status: iss.status.clone() });
        proof {
            assert(issues_view(out@) =~= issues_view(src@).take(i + 1));
        }
    }
    proof {
        assert(issues_view(src@).take(n as int) =~= issues_view(src@));
    }
    out
}

/// A deep copy of a repository, equal to the original in the model.
fn copy_repo(src: &Repo) -> (r: Repo)
    ensures
        r@ == src@,
{
    let r = Repo { name: src.name.clone(), issues: copy_issues(&src.issues) };
    proof {
        assert(r@ =~= src@);
    }
    r
}

/// One tracked issue: its name and its status string. The status is
/// `"unclaimed"` on creation and otherwise opaque to the registry.
#[derive(Debug, PartialEq, Eq)]
pub struct Issue {
    pub name: String,
    pub status: String,
}

impl View for Issue {
    type V = IssueView;

    open spec fn view(&self) -> IssueView {
        IssueView { name: self.name@, status: self.status@ }
    }
}

/// One tracked repository: its name and its issues, in insertion order.
#[derive(Debug, PartialEq, Eq)]
pub struct Repo {
    pub name: String,
    pub issues: Vec<Issue>,
}

impl View for Repo {
    type V = RepoView;

    open spec fn view(&self) -> RepoView {
        RepoView { name: self.name@, issues: self.issues@.map_values(|iss: Issue| iss@) }
    }
}

/// The registry: the admin principal, once recorded, and the repository
/// collection in insertion order. Constructed empty; every mutation goes
/// through the protocol below and is all-or-nothing.
#[derive(Debug)]
pub struct GithubOracleContract {
    pub admin: Option<String>,
    pub repos: Vec<Repo>,
}

impl View for GithubOracleContract {
    type V = OracleView;

    open spec fn view(&self) -> OracleView {
        OracleView {
            admin: match self.admin {
                Some(a) => Some(a@),
                None => None,
            },
            repos: self.repos@.map_values(|r: Repo| r@),
        }
    }
}

impl GithubOracleContract {
    /// The state invariant: repository and issue counts under their limits,
    /// names unique at both levels.
    pub open spec fn wf(&self) -> bool {
        oracle_wf(self@)
    }

    /// A fresh registry: no admin, no repositories.
    pub fn new() -> (s: Self)
        ensures
            s.wf(),
            s@.admin is None,
            s@.repos == Seq::<RepoView>::empty(),
    {
        let s = GithubOracleContract { admin: None, repos: Vec::new() };
        proof {
            assert(s@.repos =~= Seq::<RepoView>::empty());
        }
        s
    }

    /// The major version of the registry's protocol.
    pub fn version() -> (v: u32)
        ensures
            v == VERSION_MAJOR,
    {
        VERSION_MAJOR
    }

    /// The recorded admin, or `None` before initialization. Read-only, no
    /// authorization required.
    pub fn admin(&self) -> (r: Option<String>)
        ensures
            match r {
                Some(a) => self@.admin == Some(a@),
                None => self@.admin is None,
            },
    {
        match &self.admin {
            Some(a) => Some(a.clone()),
            None => None,
        }
    }

    /// The authorization gate: succeeds exactly when an admin is recorded
    /// and the caller is that admin. Operations with outside effects, such
    /// as installing a new code image, pass this gate before acting.
    pub fn require_admin(&self, caller: &String) -> (r: Result<(), Error>)
        ensures
            match r {
                Ok(()) => is_admin(self@, caller@),
                Err(e) => e == Error::Unauthorized && !is_admin(self@, caller@),
            },
    {
        if self.check_admin(caller) {
            Ok(())
        } else {
            Err(Error::Unauthorized)
        }
    }

    /// Whether the caller is the recorded admin.
    fn check_admin(&self, caller: &String) -> (r: bool)
        ensures
            r == is_admin(self@, caller@),
    {
        match &self.admin {
            Some(a) => *a == *caller,
            None => false,
        }
    }

    /// The current repository names, in insertion order. Read-only.
    pub fn get_repos(&self) -> (r: Vec<String>)
        ensures
            names_view(r@) == repo_names(self@.repos),
            r@.len() == self@.repos.len(),
            forall|i: int| 0 <= i < r@.len() ==> r@[i]@ == self@.repos[i].name,
    {
        let mut out: Vec<String> = Vec::new();
        let n = self.repos.len();
        for i in 0..n
            invariant
                n == self.repos.len(),
                names_view(out@) == repo_names(self@.repos).take(i as int),
        {
            proof {
                assert(names_view(out@).len() == out@.len());
                assert(repo_names(self@.repos).take(i as int).len() == i);
            }
            out.push(self.repos[i].name.clone());
            proof {
                assert(names_view(out@) =~= repo_names(self@.repos).take(i + 1));
            }
        }
        proof {
            assert(repo_names(self@.repos).take(n as int) =~= repo_names(self@.repos));
            assert forall|i: int| 0 <= i < out@.len() implies out@[i]@ == self@.repos[i].name by {
                assert(names_view(out@)[i] == out@[i]@);
                assert(repo_names(self@.repos)[i] == self@.repos[i].name);
            }
        }
        out
    }

    /// The position of the repository of that name, if it is present.
    fn find_repo(&self, name: &String) -> (r: Option<usize>)
        ensures
            match r {
                Some(k) => k < self@.repos.len() && self@.repos[k as int].name == name@,
                None => !repos_has(self@.repos, name@),
            },
    {
        let n = self.repos.len();
        for j in 0..n
            invariant
                n == self.repos.len(),
                forall|k: int| 0 <= k < j ==> self@.repos[k].name != name@,
        {
            if self.repos[j].name == *name {
                return Some(j);
            }
        }
        None
    }

    /// Whether a repository of that name is present.
    fn contains_repo(&self, name: &String) -> (r: bool)
        ensures
            r == repos_has(self@.repos, name@),
    {
        match self.find_repo(name) {
            Some(_) => {
                proof {
                    assert(repos_has(self@.repos, name@));
                }
                true
            },
            None => false,
        }
    }

    /// Stages a batch of new repositories onto the current collection: the
    /// authorization-independent part of `config` and `add_repos`.
    fn stage_add_repos(&mut self, names: &Vec<String>) -> (r: Result<(), Error>)
        requires
            repos_wf(old(self)@.repos),
        ensures
            final(self)@.admin == old(self)@.admin,
            repos_wf(final(self)@.repos),
            match spec_add_repos(old(self)@.repos, names_view(names@)) {
                Ok(repos) => r == Ok::<(), Error>(()) && final(self)@.repos == repos,
                Err(e) => r == Err::<(), Error>(e) && final(self)@ == old(self)@,
            },
    {
        let ghost pre = old(self)@.repos;
        let ghost nv = names_view(names@);
        let n = names.len();
        for i in 0..n
            invariant
                n == names.len(),
                *self == *old(self),
                pre == self@.repos,
                repos_wf(pre),
                nv == names_view(names@),
                forall|t: int| 0 <= t < i ==> !add_repo_dup_at(pre, nv, t),
        {
            let dup = self.contains_repo(&names[i]) || name_in_prefix(names, i, &names[i]);
            proof {
                assert(dup == add_repo_dup_at(pre, nv, i as int));
            }
            if dup {
                return Err(Error::RepoAlreadyExists);
            }
        }
        if n >= MAX_REPOS - self.repos.len() {
            return Err(Error::RepoLimitExceeded);
        }
        for i in 0..n
            invariant
                n == names.len(),
                nv == names_view(names@),
                self@.admin == old(self)@.admin,
                self@.repos == pre + nv.take(i as int).map_values(
                    |x: Seq<char>| new_repo(x),
                ),
        {
            proof {
                assert(self@.repos.len() == self.repos@.len());
                assert(nv.take(i as int).len() == i);
            }
            let entry = Repo { name: names[i].clone(), issues: Vec::new() };
            proof {
                assert(entry@ =~~= new_repo(nv[i as int]));
            }
            let ghost prior = self@.repos;
            self.repos.push(entry);
            proof {
                assert(nv.take(i + 1).len() == i + 1);
                let lhs = self@.repos;
                let rhs = pre + nv.take(i + 1).map_values(|x: Seq<char>| new_repo(x));
                assert(lhs.len() == rhs.len());
                assert forall|j: int| 0 <= j < lhs.len() implies lhs[j] =~~= rhs[j] by {
                    if j < prior.len() {
                        assert(lhs[j] == prior[j]);
                        assert(prior[j] == (pre + nv.take(i as int).map_values(
                            |x: Seq<char>| new_repo(x),
                        ))[j]);
                    } else {
                        assert(lhs[j] == entry@);
                        assert(rhs[j] == new_repo(nv[i as int]));
                    }
                }
                assert(self@.repos =~~= pre + nv.take(i + 1).map_values(
                    |x: Seq<char>| new_repo(x),
                ));
            }
        }
        proof {
            assert(nv.take(n as int) =~= nv);
            assert(self@.repos == pre + nv.map_values(|x: Seq<char>| new_repo(x)));
            assert(spec_add_repos(pre, nv) == Ok::<Seq<RepoView>, Error>(self@.repos));
            lemma_add_repos_wf(pre, nv, self@.repos);
        }
        Ok(())
    }

    /// One-time initialization: records the admin principal and stages the
    /// initial repositories, all or nothing. It fails with
    /// `AlreadyInitialized` once an admin is recorded; otherwise the call
    /// must be authorized by the admin-to-be, and fails with the
    /// corresponding repository-add error if the initial list has a
    /// duplicate or would reach the limit.
    pub fn config(&mut self, caller: &String, cfg: ConfigData) -> (r: Result<(), Error>)
        requires
            old(self).wf(),
        ensures
            final(self).wf(),
            if old(self)@.admin is Some {
                r == Err::<(), Error>(Error::AlreadyInitialized) && final(self)@ == old(self)@
            } else if caller@ != cfg.admin@ {
                r == Err::<(), Error>(Error::Unauthorized) && final(self)@ == old(self)@
            } else {
                match spec_config(old(self)@, cfg.admin@, names_view(cfg.repos@)) {
                    Ok(v) => r == Ok::<(), Error>(()) && final(self)@ == v,
                    Err(e) => r == Err::<(), Error>(e) && final(self)@ == old(self)@,
                }
            },
    {
        if self.admin.is_some() {
            return Err(Error::AlreadyInitialized);
        }
        if !(*caller == cfg.admin) {
            return Err(Error::Unauthorized);
        }
        match self.stage_add_repos(&cfg.repos) {
            Ok(()) => {
                self.admin = Some(cfg.admin);
                Ok(())
            },
            Err(e) => Err(e),
        }
    }

    /// Appends the given repositories, each starting with no issues. Admin
    /// only; the whole batch is rejected on the first name already present
    /// (or repeated within the batch), or when the resulting count would
    /// reach the limit.
    pub fn add_repos(&mut self, caller: &String, repos: Vec<String>) -> (r: Result<(), Error>)
        requires
            old(self).wf(),
        ensures
            final(self).wf(),
            mutation_outcome(
                old(self)@,
                final(self)@,
                r,
                caller@,
                spec_add_repos(old(self)@.repos, names_view(repos@)),
            ),
    {
        if !self.check_admin(caller) {
            return Err(Error::Unauthorized);
        }
        self.stage_add_repos(&repos)
    }

    /// Replaces the repository collection with an empty one. Admin only;
    /// always succeeds once authorized.
    pub fn clear_repos(&mut self, caller: &String) -> (r: Result<(), Error>)
        requires
            old(self).wf(),
        ensures
            final(self).wf(),
            mutation_outcome(
                old(self)@,
                final(self)@,
                r,
                caller@,
                Ok::<Seq<RepoView>, Error>(Seq::empty()),
            ),
    {
        if !self.check_admin(caller) {
            return Err(Error::Unauthorized);
        }
        self.repos = Vec::new();
        proof {
            assert(self@.repos =~= Seq::<RepoView>::empty());
        }
        Ok(())
    }

    /// Removes the named repositories, each with all of its issues. Admin
    /// only; the whole batch is rejected on the first name that is absent —
    /// or already removed by an earlier entry of the same batch. The
    /// surviving repositories keep their relative order.
    pub fn remove_repos(&mut self, caller: &String, repos: Vec<String>) -> (r: Result<(), Error>)
        requires
            old(self).wf(),
        ensures
            final(self).wf(),
            mutation_outcome(
                old(self)@,
                final(self)@,
                r,
                caller@,
                spec_remove_repos(old(self)@.repos, names_view(repos@)),
            ),
    {
        if !self.check_admin(caller) {
            return Err(Error::Unauthorized);
        }
        let ghost pre = self@.repos;
        let ghost nv = names_view(repos@);
        let n = repos.len();
        for i in 0..n
            invariant
                n == repos.len(),
                *self == *old(self),
                pre == self@.repos,
                repos_wf(pre),
                nv == names_view(repos@),
                is_admin(self@, caller@),
                forall|t: int| 0 <= t < i ==> !remove_repo_bad_at(pre, nv, t),
        {
            let present = self.contains_repo(&repos[i]);
            let dup = name_in_prefix(&repos, i, &repos[i]);
            proof {
                assert((!present || dup) == remove_repo_bad_at(pre, nv, i as int));
            }
            if !present || dup {
                return Err(Error::RepoMissing);
            }
        }
        let mut kept: Vec<Repo> = Vec::new();
        let m = self.repos.len();
        for i in 0..m
            invariant
                m == self.repos.len(),
                n == repos.len(),
                *self == *old(self),
                pre == self@.repos,
                nv == names_view(repos@),
                kept@.map_values(|x: Repo| x@) == pre.take(i as int).filter(
                    |x: RepoView| !nv.contains(x.name),
                ),
        {
            let drop_it = name_in_prefix(&repos, n, &self.repos[i].name);
            proof {
                assert(nv.take(n as int) =~= nv);
                assert(drop_it == nv.contains(pre[i as int].name));
            }
            let ghost prior = kept@.map_values(|x: Repo| x@);
            if !drop_it {
                kept.push(copy_repo(&self.repos[i]));
            }
            proof {
                reveal(Seq::filter);
                assert(pre.take(i + 1).drop_last() =~= pre.take(i as int));
                assert(pre.take(i + 1).last() == pre[i as int]);
                assert(kept@.map_values(|x: Repo| x@) =~= pre.take(i + 1).filter(
                    |x: RepoView| !nv.contains(x.name),
                ));
            }
        }
        self.repos = kept;
        proof {
            assert(pre.take(m as int) =~= pre);
            assert(spec_remove_repos(pre, nv) == Ok::<Seq<RepoView>, Error>(self@.repos));
            lemma_remove_repos_wf(pre, nv, self@.repos);
        }
        Ok(())
    }

    /// Adds the named issues to the named repository, each created with
    /// status `"unclaimed"`. Admin only; fails with `RepoMissing` when the
    /// repository is absent, and rejects the whole batch on the first issue
    /// name already present (or repeated within the batch), or when the
    /// resulting issue count would reach the limit.
    pub fn add_issues(
        &mut self,
        caller: &String,
        repo_name: &String,
        issues: Vec<String>,
    ) -> (r: Result<(), Error>)
        requires
            old(self).wf(),
        ensures
            final(self).wf(),
            mutation_outcome(
                old(self)@,
                final(self)@,
                r,
                caller@,
                spec_add_issues(old(self)@.repos, repo_name@, names_view(issues@)),
            ),
    {
        if !self.check_admin(caller) {
            return Err(Error::Unauthorized);
        }
        let ghost pre = self@.repos;
        let ghost nv = names_view(issues@);
        let k = match self.find_repo(repo_name) {
            Some(k) => k,
            None => {
                return Err(Error::RepoMissing);
            },
        };
        proof {
            lemma_repo_index_unique(pre, k as int);
        }
        let ghost cur = pre[k as int].issues;
        let n = issues.len();
        for i in 0..n
            invariant
                n == issues.len(),
                *self == *old(self),
                pre == self@.repos,
                repos_wf(pre),
                nv == names_view(issues@),
                is_admin(self@, caller@),
                (k as int) < pre.len(),
                pre[k as int].name == repo_name@,
                repo_index(pre, repo_name@) == k as int,
                cur == pre[k as int].issues,
                forall|t: int| 0 <= t < i ==> !add_issue_dup_at(cur, nv, t),
        {
            let dup = contains_issue(&self.repos[k].issues, &issues[i]) || name_in_prefix(
                &issues,
                i,
                &issues[i],
            );
            proof {
                assert(issues_view(self.repos@[k as int].issues@) == cur);
                assert(dup == add_issue_dup_at(cur, nv, i as int));
            }
            if dup {
                return Err(Error::IssueAlreadyExists);
            }
        }
        if n >= MAX_ISSUES_PER_REPO - self.repos[k].issues.len() {
            return Err(Error::IssueLimitExceeded);
        }
        let mut new_issues = copy_issues(&self.repos[k].issues);
        proof {
            assert(issues_view(new_issues@) =~= cur + nv.take(0).map_values(
                |x: Seq<char>| new_issue(x),
            ));
        }
        for i in 0..n
            invariant
                n == issues.len(),
                *self == *old(self),
                pre == self@.repos,
                nv == names_view(issues@),
                (k as int) < pre.len(),
                cur == pre[k as int].issues,
                issues_view(new_issues@) == cur + nv.take(i as int).map_values(
                    |x: Seq<char>| new_issue(x),
                ),
        {
            proof {
                assert(issues_view(new_issues@).len() == new_issues@.len());
                assert(nv.take(i as int).len() == i);
            }
            let entry = Issue { name: issues[i].clone(), status: unclaimed_string() };
            proof {
                assert(entry@ =~~= new_issue(nv[i as int]));
            }
            let ghost prior = issues_view(new_issues@);
            new_issues.push(entry);
            proof {
                assert(nv.take(i + 1).len() == i + 1);
                let lhs = issues_view(new_issues@);
                let rhs = cur + nv.take(i + 1).map_values(|x: Seq<char>| new_issue(x));
                assert(lhs.len() == rhs.len());
                assert forall|j: int| 0 <= j < lhs.len() implies lhs[j] =~~= rhs[j] by {
                    if j < prior.len() {
                        assert(lhs[j] == prior[j]);
                        assert(prior[j] == (cur + nv.take(i as int).map_values(
                            |x: Seq<char>| new_issue(x),
                        ))[j]);
                    } else {
                        assert(lhs[j] == entry@);
                        assert(rhs[j] == new_issue(nv[i as int]));
                    }
                }
                assert(issues_view(new_issues@) =~~= cur + nv.take(i + 1).map_values(
                    |x: Seq<char>| new_issue(x),
                ));
            }
        }
        let new_name = self.repos[k].name.clone();
        let entry = Repo { name: new_name, issues: new_issues };
        proof {
            assert(nv.take(n as int) =~= nv);
        }
        self.repos[k] = entry;
        proof {
            let target = RepoView {
                name: pre[k as int].name,
                issues: cur + nv.map_values(|x: Seq<char>| new_issue(x)),
            };
            assert(entry@ =~~= target);
            assert(self@.repos =~~= pre.update(k as int, target));
            assert(spec_add_issues(pre, repo_name@, nv) == Ok::<Seq<RepoView>, Error>(
                self@.repos,
            ));
            lemma_add_issues_wf(pre, repo_name@, nv, self@.repos);
        }
        Ok(())
    }

    /// Removes the named issues from the named repository. Admin only; fails
    /// with `RepoMissing` when the repository is absent, and rejects the
    /// whole batch on the first issue name not present — or already removed
    /// by an earlier entry of the same batch. No other repository changes.
    pub fn remove_issues(
        &mut self,
        caller: &String,
        repo_name: &String,
        issues: Vec<String>,
    ) -> (r: Result<(), Error>)
        requires
            old(self).wf(),
        ensures
            final(self).wf(),
            mutation_outcome(
                old(self)@,
                final(self)@,
                r,
                caller@,
                spec_remove_issues(old(self)@.repos, repo_name@, names_view(issues@)),
            ),
    {
        if !self.check_admin(caller) {
            return Err(Error::Unauthorized);
        }
        let ghost pre = self@.repos;
        let ghost nv = names_view(issues@);
        let k = match self.find_repo(repo_name) {
            Some(k) => k,
            None => {
                return Err(Error::RepoMissing);
            },
        };
        proof {
            lemma_repo_index_unique(pre, k as int);
        }
        let ghost cur = pre[k as int].issues;
        let n = issues.len();
        for i in 0..n
            invariant
                n == issues.len(),
                *self == *old(self),
                pre == self@.repos,
                repos_wf(pre),
                nv == names_view(issues@),
                is_admin(self@, caller@),
                (k as int) < pre.len(),
                pre[k as int].name == repo_name@,
                repo_index(pre, repo_name@) == k as int,
                cur == pre[k as int].issues,
                forall|t: int| 0 <= t < i ==> !remove_issue_bad_at(cur, nv, t),
        {
            let present = contains_issue(&self.repos[k].issues, &issues[i]);
            let dup = name_in_prefix(&issues, i, &issues[i]);
            proof {
                assert(issues_view(self.repos@[k as int].issues@) == cur);
                assert((!present || dup) == remove_issue_bad_at(cur, nv, i as int));
            }
            if !present || dup {
                return Err(Error::IssueMissing);
            }
        }
        let m = self.repos[k].issues.len();
        let mut kept: Vec<Issue> = Vec::new();
        for i in 0..m
            invariant
                m == self.repos[k as int].issues.len(),
                n == issues.len(),
                *self == *old(self),
                pre == self@.repos,
                nv == names_view(issues@),
                (k as int) < pre.len(),
                cur == pre[k as int].issues,
                issues_view(kept@) == cur.take(i as int).filter(
                    |x: IssueView| !nv.contains(x.name),
                ),
        {
            let drop_it = name_in_prefix(&issues, n, &self.repos[k].issues[i].name);
            proof {
                assert(nv.take(n as int) =~= nv);
                assert(drop_it == nv.contains(cur[i as int].name));
            }
            if !drop_it {
                let iss = &self.repos[k].issues[i];
                kept.push(Issue { name: iss.name.clone(), status: iss.status.clone() });
            }
            proof {
                reveal(Seq::filter);
                assert(cur.take(i + 1).drop_last() =~= cur.take(i as int));
                assert(cur.take(i + 1).last() == cur[i as int]);
                assert(issues_view(kept@) =~= cur.take(i + 1).filter(
                    |x: IssueView| !nv.contains(x.name),
                ));
            }
        }
        let new_name = self.repos[k].name.clone();
        let entry = Repo { name: new_name, issues: kept };
        proof {
            assert(cur.take(m as int) =~= cur);
        }
        self.repos[k] = entry;
        proof {
            let target = RepoView {
                name: pre[k as int].name,
                issues: cur.filter(|x: IssueView| !nv.contains(x.name)),
            };
            assert(entry@ =~~= target);
            assert(self@.repos =~~= pre.update(k as int, target));
            assert(spec_remove_issues(pre, repo_name@, nv) == Ok::<Seq<RepoView>, Error>(
                self@.repos,
            ));
            lemma_remove_issues_wf(pre, repo_name@, nv, self@.repos);
        }
        Ok(())
    }

    /// The full collection — every repository with its issues, in insertion
    /// order. Read-only.
    pub fn get_repos_and_issues(&self) -> (r: Vec<Repo>)
        ensures
            r@.map_values(|x: Repo| x@) == self@.repos,
    {
        let mut out: Vec<Repo> = Vec::new();
        let n = self.repos.len();
        for i in 0..n
            invariant
                n == self.repos.len(),
                out@.map_values(|x: Repo| x@) == self@.repos.take(i as int),
        {
            proof {
                assert(out@.map_values(|x: Repo| x@).len() == out@.len());
                assert(self@.repos.take(i as int).len() == i);
            }
            out.push(copy_repo(&self.repos[i]));
            proof {
                assert(out@.map_values(|x: Repo| x@) =~= self@.repos.take(i + 1));
            }
        }
        proof {
            assert(self@.repos.take(n as int) =~= self@.repos);
        }
        out
    }

    /// The issues of the named repository, in insertion order. Fails with
    /// `RepoMissing` exactly when no repository carries that name. Read-only.
    pub fn get_issues_for_repo(&self, repo_name: &String) -> (r: Result<Vec<Issue>, Error>)
        requires
            self.wf(),
        ensures
            match r {
                Ok(issues) => repos_has(self@.repos, repo_name@) && issues_view(issues@)
                    == self@.repos[repo_index(self@.repos, repo_name@)].issues,
                Err(e) => e == Error::RepoMissing && !repos_has(self@.repos, repo_name@),
            },
    {
        match self.find_repo(repo_name) {
            Some(k) => {
                proof {
                    lemma_repo_index_unique(self@.repos, k as int);
                }
                Ok(copy_issues(&self.repos[k].issues))
            },
            None => Err(Error::RepoMissing),
        }
    }
}

} // verus!
