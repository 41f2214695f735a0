use bindless_table::queue_family::QueueFamilyIndices;

#[test]
fn last_qualifying_family_wins() {
    let q = QueueFamilyIndices::find(&[true, false, true, false], &[false, true, true, true]);
    assert_eq!(q.graphics_family, Some(2));
    assert_eq!(q.present_family, Some(3));
}

#[test]
fn missing_roles_stay_unset() {
    let q = QueueFamilyIndices::find(&[false, false], &[]);
    assert_eq!(q, QueueFamilyIndices { graphics_family: None, present_family: None });
}
