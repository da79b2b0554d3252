use hcl::sample::{Sample, UNIT};
use hcl::series_collector::SeriesCollector;
use hcl::settings::Column;

fn strings(vs: &[&str]) -> Vec<String> {
    let mut r = Vec::new();
    for v in vs {
        r.push((*v).to_owned());
    }
    r
}

#[test]
fn valid_data() {
    let mut c = SeriesCollector::from_titles(&strings(&["a", "b", "c"]), &Column::Unset);
    c.append(&strings(&["0.1", "1.0", "-1"]));
    let hd = c.current();

    assert_eq!(hd.y.len(), 3);
    assert_eq!(hd.y[0].title, "a");
    assert_eq!(hd.y[0].values, vec![Sample::Val(UNIT / 10)]);
    assert_eq!(hd.y[1].title, "b");
    assert_eq!(hd.y[1].values, vec![Sample::Val(UNIT)]);
    assert_eq!(hd.y[2].title, "c");
    assert_eq!(hd.y[2].values, vec![Sample::Val(-UNIT)]);
}

#[test]
fn extra_values() {
    let mut c = SeriesCollector::from_titles(&strings(&["a", "b", "c"]), &Column::Unset);
    c.append(&strings(&["1.0", "-1", "100", "00", "xxx"]));
    let hd = c.current();

    assert_eq!(hd.y.len(), 3);
    assert_eq!(hd.y[0].title, "a");
    assert_eq!(hd.y[0].values, vec![Sample::Val(UNIT)]);
    assert_eq!(hd.y[1].title, "b");
    assert_eq!(hd.y[1].values, vec![Sample::Val(-UNIT)]);
    assert_eq!(hd.y[2].title, "c");
    assert_eq!(hd.y[2].values, vec![Sample::Val(100 * UNIT)]);
}

#[test]
fn missing_values() {
    let mut c = SeriesCollector::from_titles(&strings(&["a", "b", "c"]), &Column::Unset);
    c.append(&strings(&["1.0", "-1"]));
    let hd = c.current();

    assert_eq!(hd.y.len(), 3);
    assert_eq!(hd.y[0].title, "a");
    assert_eq!(hd.y[0].values, vec![Sample::Val(UNIT)]);
    assert_eq!(hd.y[1].title, "b");
    assert_eq!(hd.y[1].values, vec![Sample::Val(-UNIT)]);
    assert_eq!(hd.y[2].title, "c");
    assert_eq!(hd.y[2].values[0], Sample::Missing);
}

#[test]
fn parse_errors() {
    let mut c = SeriesCollector::from_titles(&strings(&["a", "b", "c"]), &Column::Unset);
    c.append(&strings(&["x", "1.0", "-1"]));
    let hd = c.current();

    assert_eq!(hd.y.len(), 3);
    assert_eq!(hd.y[0].title, "a");
    assert_eq!(hd.y[0].values[0], Sample::Missing);
    assert_eq!(hd.y[1].title, "b");
    assert_eq!(hd.y[1].values, vec![Sample::Val(UNIT)]);
    assert_eq!(hd.y[2].title, "c");
    assert_eq!(hd.y[2].values, vec![Sample::Val(-UNIT)]);
}

#[test]
fn x_column() {
    let mut c = SeriesCollector::from_titles(&strings(&["a", "b", "c"]), &Column::Index(1));
    c.append(&strings(&["0.1", "1.0", "-1"]));
    let hd = c.current();

    assert_eq!(hd.y.len(), 2);
    assert_eq!(hd.y[0].title, "a");
    assert_eq!(hd.y[0].values, vec![Sample::Val(UNIT / 10)]);
    assert_eq!(hd.y[1].title, "c");
    assert_eq!(hd.y[1].values, vec![Sample::Val(-UNIT)]);
    assert_eq!(hd.x, Some(("b".to_string(), vec!["1.0".to_string()])));
}

#[test]
fn one_row_restarts_the_record() {
    let mut c = SeriesCollector::from_titles(&strings(&["a", "b"]), &Column::Unset);
    c.append(&strings(&["1", "2"]));
    c.one_row(&strings(&["3", "4"]));
    let hd = c.current();
    assert_eq!(hd.y[0].values, vec![Sample::Val(3 * UNIT)]);
    assert_eq!(hd.y[1].values, vec![Sample::Val(4 * UNIT)]);
}
