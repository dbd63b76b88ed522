use basespace_dl::api::Sample;
use basespace_dl::gate::{completion_gate, partition, CompletionOutcome};
use basespace_dl::Error;

fn sample(name: &str, status: &str) -> Sample {
    Sample {
        id: format!("id-{}", name),
        status: status.to_string(),
        name: name.to_string(),
        experiment_name: None,
        date_created: "2020-01-01T00:00:00".to_string(),
    }
}

#[test]
fn partition_splits_by_completion() {
    let samples = vec![
        sample("a", "Complete"),
        sample("b", "Complete"),
        sample("c", "Processing"),
    ];
    let (complete, incomplete) = partition(samples);
    assert_eq!(complete.len(), 2);
    assert_eq!(incomplete.len(), 1);
    assert_eq!(complete[0].name, "a");
    assert_eq!(complete[1].name, "b");
    assert_eq!(incomplete[0].name, "c");
}

#[test]
fn partition_keeps_order_within_sides() {
    let samples = vec![
        sample("a", "Processing"),
        sample("b", "Complete"),
        sample("c", "Running"),
        sample("d", "Complete"),
    ];
    let (complete, incomplete) = partition(samples);
    let complete_names: Vec<&str> = complete.iter().map(|s| s.name.as_str()).collect();
    let incomplete_names: Vec<&str> = incomplete.iter().map(|s| s.name.as_str()).collect();
    assert_eq!(complete_names, vec!["b", "d"]);
    assert_eq!(incomplete_names, vec!["a", "c"]);
}

#[test]
fn partition_of_empty_is_empty() {
    let (complete, incomplete) = partition(Vec::new());
    assert!(complete.is_empty());
    assert!(incomplete.is_empty());
}

#[test]
fn gate_blocks_incomplete_project() {
    match completion_gate(1, false) {
        Err(Error::Incomplete { still_processing }) => assert_eq!(still_processing, 1),
        other => panic!("expected an incomplete-project error, got {:?}", other),
    }
}

#[test]
fn gate_bypass_surfaces_a_warning() {
    match completion_gate(1, true) {
        Ok(CompletionOutcome::BypassedIncomplete { still_processing }) => {
            assert_eq!(still_processing, 1)
        },
        other => panic!("expected a bypass outcome, got {:?}", other),
    }
}

#[test]
fn gate_passes_complete_project() {
    assert!(matches!(completion_gate(0, false), Ok(CompletionOutcome::AllComplete)));
    assert!(matches!(completion_gate(0, true), Ok(CompletionOutcome::AllComplete)));
}
