use github_oracle::{ConfigData, GithubOracleContract, Issue, Repo};

fn setup_contract() -> (GithubOracleContract, String) {
    let admin = String::from("admin-principal");

    let mut client = GithubOracleContract::new();

    let original_repos: Vec<String> = vec![];

    let config = ConfigData {
        admin: admin.clone(),
        repos: original_repos.clone(),
    };

    client.config(&admin, config).unwrap();

    let repos = client.get_repos();
    assert_eq!(repos, original_repos);

    (client, admin)
}

fn soroban_cli_repo() -> String {
    String::from("sdf/soroban-cli")
}

fn digicus_repo() -> String {
    String::from("spaced-out-thoughts-dev-foundation/digicus")
}

fn soroban_sdk_repo() -> String {
    String::from("sdf/soroban-sdk")
}

fn unclaimed() -> String {
    String::from("unclaimed")
}

fn assert_repo_names(actual: Vec<String>, expected: Vec<String>) {
    assert_eq!(actual.len(), expected.len());

    for repo in actual {
        assert!(expected.contains(&repo));
    }
}

#[test]
fn adds_one_repo() {
    let (mut client, admin) = setup_contract();

    let new_repos: Vec<String> = vec![soroban_sdk_repo()];
    client.add_repos(&admin, new_repos.clone()).unwrap();

    let repos = client.get_repos();

    assert_eq!(repos, new_repos);
}

#[test]
fn adds_two_repos() {
    let (mut client, admin) = setup_contract();

    let new_repos: Vec<String> = vec![soroban_sdk_repo(), digicus_repo()];
    client.add_repos(&admin, new_repos.clone()).unwrap();

    let repos = client.get_repos();

    assert_repo_names(repos, new_repos);
}

#[test]
fn adds_repos_twice() {
    let (mut client, admin) = setup_contract();

    let first_repos_to_add: Vec<String> = vec![soroban_sdk_repo()];
    client.add_repos(&admin, first_repos_to_add.clone()).unwrap();

    let repos = client.get_repos();
    assert_eq!(repos, first_repos_to_add);

    let second_repos_to_add: Vec<String> = vec![soroban_cli_repo(), digicus_repo()];
    client.add_repos(&admin, second_repos_to_add.clone()).unwrap();

    let repos = client.get_repos();
    let expected_repos = vec![soroban_sdk_repo(), soroban_cli_repo(), digicus_repo()];

    assert_repo_names(repos, expected_repos);
}

#[test]
#[should_panic]
fn panics_when_adding_existing_repo() {
    let (mut client, admin) = setup_contract();

    let repos_to_add: Vec<String> = vec![soroban_sdk_repo()];
    client.add_repos(&admin, repos_to_add.clone()).unwrap();

    let repos = client.get_repos();
    assert_eq!(repos, repos_to_add);

    client.add_repos(&admin, repos_to_add.clone()).unwrap();
}

#[test]
fn adds_then_removes_repo() {
    let (mut client, admin) = setup_contract();

    let repos_to_add: Vec<String> = vec![soroban_sdk_repo()];
    client.add_repos(&admin, repos_to_add.clone()).unwrap();

    let repos = client.get_repos();
    assert_eq!(repos, repos_to_add);

    let repos_to_remove: Vec<String> = vec![];
    client.remove_repos(&admin, repos_to_remove.clone()).unwrap();

    let repos = client.get_repos();
    assert_eq!(repos, vec![soroban_sdk_repo()]);
}

#[test]
#[should_panic]
fn attempt_to_remove_repo_that_does_not_exist() {
    let (mut client, admin) = setup_contract();

    let repos_to_remove: Vec<String> = vec![soroban_sdk_repo()];
    client.add_repos(&admin, repos_to_remove.clone()).unwrap();

    let repos = client.get_repos();
    assert_eq!(repos, repos_to_remove);

    let repos_to_remove: Vec<String> = vec![digicus_repo()];
    client.remove_repos(&admin, repos_to_remove).unwrap();
}

#[test]
fn adds_then_clears_repos() {
    let (mut client, admin) = setup_contract();

    let repos_to_add: Vec<String> = vec![soroban_sdk_repo()];
    client.add_repos(&admin, repos_to_add.clone()).unwrap();

    let repos = client.get_repos();
    assert_eq!(repos, repos_to_add);

    client.clear_repos(&admin).unwrap();

    let repos = client.get_repos();
    assert_eq!(repos, Vec::<String>::new());
}

#[test]
fn adds_then_clears_repo_with_issues() {
    let (mut client, admin) = setup_contract();

    let repos_to_add: Vec<String> = vec![soroban_sdk_repo()];
    client.add_repos(&admin, repos_to_add.clone()).unwrap();

    let issues_to_add: Vec<String> = vec![
        String::from("issue-1"),
        String::from("issue-2"),
        String::from("issue-3"),
    ];
    client
        .add_issues(&admin, &soroban_sdk_repo(), issues_to_add.clone())
        .unwrap();

    let repos = client.get_repos();
    assert_eq!(repos, repos_to_add);

    client.clear_repos(&admin).unwrap();

    let repos = client.get_repos();
    assert_eq!(repos, Vec::<String>::new());
}

#[test]
fn get_issues_empty() {
    let (mut client, admin) = setup_contract();

    let repos_to_add: Vec<String> = vec![soroban_sdk_repo()];
    client.add_repos(&admin, repos_to_add.clone()).unwrap();

    let issues = client.get_issues_for_repo(&soroban_sdk_repo()).unwrap();
    assert_eq!(issues, Vec::<Issue>::new());
}

#[test]
fn add_single_issue() {
    let (mut client, admin) = setup_contract();

    let repos_to_add: Vec<String> = vec![soroban_sdk_repo()];
    client.add_repos(&admin, repos_to_add.clone()).unwrap();

    let issues_to_add: Vec<String> = vec![String::from("issue-1")];
    client
        .add_issues(&admin, &soroban_sdk_repo(), issues_to_add.clone())
        .unwrap();

    let expected = vec![Issue {
        name: String::from("issue-1"),
        status: unclaimed(),
    }];

    let issues = client.get_issues_for_repo(&soroban_sdk_repo()).unwrap();
    assert_eq!(issues, expected);
}

#[test]
fn add_multiple_issues() {
    let (mut client, admin) = setup_contract();

    let repos_to_add: Vec<String> = vec![soroban_sdk_repo()];
    client.add_repos(&admin, repos_to_add.clone()).unwrap();

    let issues_to_add: Vec<String> = vec![
        String::from("issue-1"),
        String::from("issue-2"),
        String::from("issue-3"),
    ];
    client
        .add_issues(&admin, &soroban_sdk_repo(), issues_to_add.clone())
        .unwrap();

    let expected = vec![
        Issue {
            name: String::from("issue-1"),
            status: unclaimed(),
        },
        Issue {
            name: String::from("issue-2"),
            status: unclaimed(),
        },
        Issue {
            name: String::from("issue-3"),
            status: unclaimed(),
        },
    ];

    let issues = client.get_issues_for_repo(&soroban_sdk_repo()).unwrap();
    assert_eq!(issues, expected);
}

#[test]
fn add_issues_twice() {
    let (mut client, admin) = setup_contract();

    let repos_to_add: Vec<String> = vec![soroban_sdk_repo(), digicus_repo()];
    client.add_repos(&admin, repos_to_add.clone()).unwrap();

    let issues_to_add: Vec<String> = vec![
        String::from("issue-1"),
        String::from("issue-2"),
        String::from("issue-3"),
    ];
    client
        .add_issues(&admin, &soroban_sdk_repo(), issues_to_add.clone())
        .unwrap();

    let expected = vec![
        Issue {
            name: String::from("issue-1"),
            status: unclaimed(),
        },
        Issue {
            name: String::from("issue-2"),
            status: unclaimed(),
        },
        Issue {
            name: String::from("issue-3"),
            status: unclaimed(),
        },
    ];

    let issues = client.get_issues_for_repo(&soroban_sdk_repo()).unwrap();
    assert_eq!(issues, expected);

    let issues_to_add: Vec<String> = vec![String::from("issue-4"), String::from("issue-5")];
    client
        .add_issues(&admin, &digicus_repo(), issues_to_add.clone())
        .unwrap();

    let expected2 = vec![
        Issue {
            name: String::from("issue-4"),
            status: unclaimed(),
        },
        Issue {
            name: String::from("issue-5"),
            status: unclaimed(),
        },
    ];

    let issues = client.get_issues_for_repo(&digicus_repo()).unwrap();
    assert_eq!(issues, expected2);

    let expected_all_repos_with_issues = vec![
        Repo {
            name: soroban_sdk_repo(),
            issues: expected,
        },
        Repo {
            name: digicus_repo(),
            issues: expected2,
        },
    ];
    assert_eq!(client.get_repos_and_issues(), expected_all_repos_with_issues);
}

#[test]
#[should_panic]
fn add_issues_to_nonexistent_repo() {
    let (mut client, admin) = setup_contract();

    let repos_to_add: Vec<String> = vec![soroban_sdk_repo()];
    client.add_repos(&admin, repos_to_add.clone()).unwrap();

    let issues_to_add: Vec<String> = vec![
        String::from("issue-1"),
        String::from("issue-2"),
        String::from("issue-3"),
    ];
    client
        .add_issues(&admin, &digicus_repo(), issues_to_add.clone())
        .unwrap();
}

#[test]
fn remove_single_issue() {
    let (mut client, admin) = setup_contract();

    let repos_to_add: Vec<String> = vec![soroban_sdk_repo()];
    client.add_repos(&admin, repos_to_add.clone()).unwrap();

    let issues_to_add: Vec<String> = vec![String::from("issue-1")];
    client
        .add_issues(&admin, &soroban_sdk_repo(), issues_to_add.clone())
        .unwrap();

    let issues = client.get_issues_for_repo(&soroban_sdk_repo()).unwrap();
    assert_eq!(issues.len(), 1);

    let issues_to_remove: Vec<String> = vec![String::from("issue-1")];
    client
        .remove_issues(&admin, &soroban_sdk_repo(), issues_to_remove.clone())
        .unwrap();

    let issues = client.get_issues_for_repo(&soroban_sdk_repo()).unwrap();
    assert_eq!(issues.len(), 0);
}

#[test]
fn remove_multiple_issues() {
    let (mut client, admin) = setup_contract();

    let repos_to_add: Vec<String> = vec![soroban_sdk_repo()];
    client.add_repos(&admin, repos_to_add.clone()).unwrap();

    let issues_to_add: Vec<String> = vec![
        String::from("issue-1"),
        String::from("issue-2"),
        String::from("issue-3"),
    ];
    client
        .add_issues(&admin, &soroban_sdk_repo(), issues_to_add.clone())
        .unwrap();

    let issues = client.get_issues_for_repo(&soroban_sdk_repo()).unwrap();
    assert_eq!(issues.len(), 3);

    let issues_to_remove: Vec<String> = vec![String::from("issue-1"), String::from("issue-3")];
    client
        .remove_issues(&admin, &soroban_sdk_repo(), issues_to_remove.clone())
        .unwrap();

    let issues = client.get_issues_for_repo(&soroban_sdk_repo()).unwrap();
    assert_eq!(issues.len(), 1);
}

#[test]
fn remove_issues_twice() {
    let (mut client, admin) = setup_contract();

    let repos_to_add: Vec<String> = vec![soroban_sdk_repo()];
    client.add_repos(&admin, repos_to_add.clone()).unwrap();

    let issues_to_add: Vec<String> = vec![
        String::from("issue-1"),
        String::from("issue-2"),
        String::from("issue-3"),
    ];
    client
        .add_issues(&admin, &soroban_sdk_repo(), issues_to_add.clone())
        .unwrap();

    let issues = client.get_issues_for_repo(&soroban_sdk_repo()).unwrap();
    assert_eq!(issues.len(), 3);

    let issues_to_remove: Vec<String> = vec![String::from("issue-1"), String::from("issue-3")];
    client
        .remove_issues(&admin, &soroban_sdk_repo(), issues_to_remove.clone())
        .unwrap();

    let issues = client.get_issues_for_repo(&soroban_sdk_repo()).unwrap();
    assert_eq!(issues.len(), 1);

    let issues_to_remove: Vec<String> = vec![String::from("issue-2")];
    client
        .remove_issues(&admin, &soroban_sdk_repo(), issues_to_remove.clone())
        .unwrap();

    let issues = client.get_issues_for_repo(&soroban_sdk_repo()).unwrap();
    assert_eq!(issues.len(), 0);
}

#[test]
#[should_panic]
fn remove_issues_from_nonexistent_repo() {
    let (mut client, admin) = setup_contract();

    let repos_to_add: Vec<String> = vec![soroban_sdk_repo()];
    client.add_repos(&admin, repos_to_add.clone()).unwrap();

    let issues_to_add: Vec<String> = vec![
        String::from("issue-1"),
        String::from("issue-2"),
        String::from("issue-3"),
    ];
    client
        .add_issues(&admin, &soroban_sdk_repo(), issues_to_add.clone())
        .unwrap();

    let issues_to_remove: Vec<String> = vec![String::from("issue-1"), String::from("issue-3")];
    client
        .remove_issues(&admin, &digicus_repo(), issues_to_remove.clone())
        .unwrap();
}

#[test]
#[should_panic]
fn remove_issues_that_do_not_exist() {
    let (mut client, admin) = setup_contract();

    let repos_to_add: Vec<String> = vec![soroban_sdk_repo()];
    client.add_repos(&admin, repos_to_add.clone()).unwrap();

    let issues_to_add: Vec<String> = vec![
        String::from("issue-1"),
        String::from("issue-2"),
        String::from("issue-3"),
    ];
    client
        .add_issues(&admin, &soroban_sdk_repo(), issues_to_add.clone())
        .unwrap();

    let issues_to_remove: Vec<String> = vec![String::from("issue-1"), String::from("issue-4")];
    client
        .remove_issues(&admin, &soroban_sdk_repo(), issues_to_remove.clone())
        .unwrap();
}
