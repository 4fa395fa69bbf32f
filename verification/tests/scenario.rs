use abnana::facade::{get_treatment, get_treatment_and_trigger};
use abnana::metrics::Metrics;
use abnana::store::{set_override, set_treatment, AssignmentStore};

#[test]
fn base_assignment_is_read_then_override_is_triggered() {
    let mut store = AssignmentStore::new();
    let mut metrics = Metrics::new();
    set_treatment(&mut store, 1, "alice", "control").unwrap();

    assert_eq!(get_treatment(&store, 1, "alice"), Ok(Some("control".to_string())));
    assert!(metrics.snapshot().is_empty());

    set_override(&mut store, 1, "alice", "variant_b").unwrap();

    assert_eq!(
        get_treatment_and_trigger(&store, &mut metrics, 1, "alice"),
        Ok(Some("variant_b".to_string()))
    );
    assert_eq!(metrics.count(1, "variant_b"), Some(1));
    assert_eq!(metrics.count(1, "control"), None);
    assert_eq!(metrics.snapshot().len(), 1);
}
