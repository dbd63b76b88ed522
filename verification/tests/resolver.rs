use basespace_dl::util::{chosen_candidate, did_you_mean, resolve, validate_selection, Resolution};
use basespace_dl::api::{Project, User};
use basespace_dl::undetermined_candidates;
use basespace_dl::api::Sample;

fn project(name: &str, id: &str, fetched_by: &str) -> Project {
    Project {
        name: name.to_string(),
        id: id.to_string(),
        user_owned_by: User { name: "owner".to_string(), id: "owner-1".to_string() },
        user_fetched_by_id: fetched_by.to_string(),
        date_created: "2020-01-01T00:00:00".to_string(),
    }
}

fn sample(name: &str, id: &str, experiment: Option<&str>) -> Sample {
    Sample {
        id: id.to_string(),
        status: "Complete".to_string(),
        name: name.to_string(),
        experiment_name: experiment.map(|e| e.to_string()),
        date_created: "2020-01-01T00:00:00".to_string(),
    }
}

#[test]
fn did_you_mean_ranks_close_names() {
    let names = vec![
        "protocol-A".to_string(),
        "protocol-B".to_string(),
        "unrelated".to_string(),
    ];
    let suggestions = did_you_mean("protocl", &names);
    assert_eq!(suggestions, vec!["protocol-A".to_string(), "protocol-B".to_string()]);
}

#[test]
fn did_you_mean_never_returns_more_than_five() {
    let names: Vec<String> = (0..8).map(|i| format!("protocol-{}", i)).collect();
    let suggestions = did_you_mean("protocol", &names);
    assert_eq!(suggestions.len(), 5);
    assert_eq!(suggestions[0], "protocol-0");
}

#[test]
fn did_you_mean_orders_by_descending_similarity() {
    let names = vec!["protoXol-A".to_string(), "protocol".to_string()];
    let suggestions = did_you_mean("protocol", &names);
    assert_eq!(
        suggestions,
        vec!["protocol".to_string(), "protoXol-A".to_string()]
    );
}

#[test]
fn did_you_mean_with_no_candidates() {
    let names: Vec<String> = Vec::new();
    assert!(did_you_mean("protocol", &names).is_empty());
}

#[test]
fn did_you_mean_empty_when_nothing_close() {
    let names = vec!["zzzz".to_string()];
    let suggestions = did_you_mean("protocol", &names);
    assert!(suggestions.is_empty());
}

#[test]
fn resolve_unique_match() {
    let names = vec!["alpha".to_string(), "beta".to_string()];
    match resolve("beta", &names) {
        Resolution::Unique { index } => assert_eq!(index, 1),
        other => panic!("expected a unique match, got {:?}", other),
    }
}

#[test]
fn resolve_miss_carries_suggestions() {
    let names = vec!["protocol-A".to_string(), "unrelated".to_string()];
    match resolve("protocl", &names) {
        Resolution::NoMatch { suggestions } => {
            assert_eq!(suggestions, vec!["protocol-A".to_string()]);
        },
        other => panic!("expected a miss, got {:?}", other),
    }
}

#[test]
fn duplicate_names_demand_explicit_selection() {
    let projects = vec![
        project("RunX", "p1", "acct-1"),
        project("other", "p2", "acct-1"),
        project("RunX", "p3", "acct-2"),
    ];
    let names: Vec<String> = projects.iter().map(|p| p.name.clone()).collect();
    let indices = match resolve("RunX", &names) {
        Resolution::Ambiguous { indices } => indices,
        other => panic!("expected an ambiguity, got {:?}", other),
    };
    assert_eq!(indices, vec![0, 2]);

    let chosen = chosen_candidate(&projects, &indices, 1);
    assert_eq!(chosen.id, "p3");
    assert_eq!(chosen.user_fetched_by_id, "acct-2");
    let chosen = chosen_candidate(&projects, &indices, 0);
    assert_eq!(chosen.id, "p1");
}

#[test]
fn selection_validation_rejects_out_of_range() {
    assert_eq!(validate_selection(Some(0), 2), Some(0));
    assert_eq!(validate_selection(Some(1), 2), Some(1));
    assert_eq!(validate_selection(Some(2), 2), None);
    assert_eq!(validate_selection(None, 2), None);
    assert_eq!(validate_selection(Some(0), 0), None);
}

#[test]
fn undetermined_candidates_match_exact_and_trimmed() {
    let samples = vec![
        sample("Undetermined", "s1", Some("RunX")),
        sample("Undetermined", "s2", Some(" RunX \n")),
        sample("Undetermined", "s3", Some("other")),
        sample("Undetermined", "s4", None),
    ];
    let found = undetermined_candidates(&samples, "RunX");
    assert_eq!(found, vec![0, 1]);
}

#[test]
fn undetermined_candidates_empty_on_no_match() {
    let samples = vec![sample("Undetermined", "s1", Some("other"))];
    let found = undetermined_candidates(&samples, "RunX");
    assert!(found.is_empty());
}
