use hcl::sample::{Sample, UNIT};
use hcl::schema::Schema;
use hcl::settings::Column;

#[test]
fn test_schema() {
    let schema = Schema::from_titles(&Column::Unset, "a,b,c");
    let s = schema.empty_set();
    assert!(s.x.is_none());
    assert_eq!(s.y.len(), 3);
    assert_eq!(s.y[0].title, "a");
    assert_eq!(s.y[1].title, "b");
    assert_eq!(s.y[2].title, "c");

    let slice = schema.slice("1,2,3");
    assert!(slice.x.is_none());
    assert_eq!(
        slice.y,
        vec![Sample::Val(UNIT), Sample::Val(2 * UNIT), Sample::Val(3 * UNIT)]
    );
}

#[test]
fn test_x() {
    let schema = Schema::from_titles(&Column::Index(0), "a,b,c");
    let s = schema.empty_set();
    match &s.x {
        Some((title, labels)) => {
            assert_eq!(title, "a");
            assert!(labels.is_empty());
        },
        None => panic!("x column expected"),
    }
    assert_eq!(s.y.len(), 2);
    assert_eq!(s.y[0].title, "b");

    let slice = schema.slice("1,2,3");
    assert_eq!(slice.x, Some("1".to_owned()));
    assert_eq!(slice.y, vec![Sample::Val(2 * UNIT), Sample::Val(3 * UNIT)]);
}

#[test]
fn test_x_by_title() {
    let schema = Schema::from_titles(&Column::Title("b".to_owned()), "a,b,c");
    let s = schema.empty_set();
    match &s.x {
        Some((title, _)) => assert_eq!(title, "b"),
        None => panic!("x column expected"),
    }
    assert_eq!(s.y.len(), 2);
    assert_eq!(s.y[0].title, "a");
    assert_eq!(s.y[1].title, "c");

    let slice = schema.slice("1,2,3");
    assert_eq!(slice.x, Some("2".to_owned()));
    assert_eq!(slice.y, vec![Sample::Val(UNIT), Sample::Val(3 * UNIT)]);
}

#[test]
fn short_row_pads_with_missing() {
    let schema = Schema::from_titles(&Column::Unset, "a,b,c");
    let slice = schema.slice("1");
    assert_eq!(slice.y, vec![Sample::Val(UNIT), Sample::Missing, Sample::Missing]);
}

#[test]
fn long_row_ignores_extras() {
    let schema = Schema::from_titles(&Column::Unset, "a,b");
    let slice = schema.slice("1,2,3,4");
    assert_eq!(slice.y, vec![Sample::Val(UNIT), Sample::Val(2 * UNIT)]);
}

#[test]
fn best_effort_row() {
    // a malformed numeric cell degrades to missing, never aborts
    let schema = Schema::from_titles(&Column::Unset, "a,b,c");
    let slice = schema.slice("x,2,3");
    assert_eq!(slice.y, vec![Sample::Missing, Sample::Val(2 * UNIT), Sample::Val(3 * UNIT)]);
}
