use audiacore::reconcile::{plan, OwnerId, ReconcileAction};

#[test]
fn equal_state_produces_no_effect() {
    assert_eq!(plan(Some(&"same"), Some(&"same")), ReconcileAction::Noop);
}

#[test]
fn presence_planning_distinguishes_create_replace_and_delete() {
    assert_eq!(plan(Some(&"new"), None), ReconcileAction::Create("new"));
    assert_eq!(
        plan(Some(&"new"), Some(&"old")),
        ReconcileAction::Replace("new")
    );
    assert_eq!(plan::<&str>(None, Some(&"old")), ReconcileAction::Delete);
}

#[test]
fn absent_on_both_sides_is_noop_and_owner_ids_are_checked() {
    assert_eq!(plan::<Vec<u8>>(None, None), ReconcileAction::Noop);
    assert!(OwnerId::new(" ").is_err());
    let a = OwnerId::new("a").unwrap();
    assert!(a.same_as(&OwnerId::new("a").unwrap()));
    assert!(!a.same_as(&OwnerId::new("b").unwrap()));
}
