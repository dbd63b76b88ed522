use basespace_dl::api::{ProjectRecord, ProjectResponse, User};
use basespace_dl::{aggregate_projects, Account, AccountListing, MultiApi};

fn record(name: &str, id: &str, owner: &str) -> ProjectRecord {
    ProjectRecord {
        name: name.to_string(),
        id: id.to_string(),
        user_owned_by: User { name: owner.to_string(), id: format!("owner-{}", owner) },
        date_created: "2020-01-01T00:00:00".to_string(),
    }
}

#[test]
fn aggregates_only_successful_accounts() {
    let listings = vec![
        AccountListing {
            account_id: "acct-1".to_string(),
            response: Some(ProjectResponse {
                items: vec![record("alpha", "p1", "ann"), record("beta", "p2", "ann")],
            }),
        },
        AccountListing { account_id: "acct-2".to_string(), response: None },
        AccountListing {
            account_id: "acct-3".to_string(),
            response: Some(ProjectResponse { items: vec![record("gamma", "p3", "bob")] }),
        },
    ];
    let merged = aggregate_projects(listings);
    let summary: Vec<(String, String)> = merged
        .iter()
        .map(|p| (p.name.clone(), p.user_fetched_by_id.clone()))
        .collect();
    assert_eq!(
        summary,
        vec![
            ("alpha".to_string(), "acct-1".to_string()),
            ("beta".to_string(), "acct-1".to_string()),
            ("gamma".to_string(), "acct-3".to_string()),
        ]
    );
}

#[test]
fn failed_listing_contributes_nothing() {
    let listings = vec![AccountListing { account_id: "acct-1".to_string(), response: None }];
    let merged = aggregate_projects(listings);
    assert!(merged.is_empty());
}

#[test]
fn projects_as_user_tags_every_record() {
    let response = ProjectResponse {
        items: vec![record("alpha", "p1", "ann"), record("beta", "p2", "bob")],
    };
    let tagged = response.projects_as_user("acct-9");
    assert_eq!(tagged.len(), 2);
    for project in &tagged {
        assert_eq!(project.user_fetched_by_id, "acct-9");
    }
    assert_eq!(tagged[0].name, "alpha");
    assert_eq!(tagged[0].id, "p1");
    assert_eq!(tagged[0].user_owned_by.name, "ann");
    assert_eq!(tagged[1].name, "beta");
}

#[test]
fn token_lookup_never_substitutes() {
    let api = MultiApi::new(vec![
        Account { id: "acct-1".to_string(), token: "token-one".to_string() },
        Account { id: "acct-2".to_string(), token: "token-two".to_string() },
    ]);
    assert_eq!(api.token_for("acct-2").map(String::as_str), Some("token-two"));
    assert_eq!(api.token_for("acct-1").map(String::as_str), Some("token-one"));
    assert!(api.token_for("acct-3").is_none());
}
