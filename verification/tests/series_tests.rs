use hcl::sample::{Sample, UNIT};
use hcl::series::{Series, SeriesSet, Slice};

fn samples(vs: &[i64]) -> Vec<Sample> {
    let mut r = Vec::new();
    for v in vs {
        r.push(Sample::Val(*v * UNIT));
    }
    r
}

#[test]
fn append_set() {
    let mut old = SeriesSet {
        x: None,
        y: vec![
            Series { title: "a".to_owned(), values: samples(&[1, 2, 3]) },
            Series { title: "b".to_owned(), values: samples(&[2, 3, 4]) },
        ],
    };

    let new = SeriesSet {
        x: None,
        y: vec![
            Series { title: "a".to_owned(), values: samples(&[4, 5]) },
            Series { title: "c".to_owned(), values: samples(&[6, 7]) },
        ],
    };

    old.append_set(new);

    assert_eq!(old.y.len(), 3);
    assert_eq!(old.y[0].title, "a".to_owned());
    assert_eq!(old.y[1].title, "c".to_owned());
    assert_eq!(old.y[2].title, "b".to_owned());
    assert_eq!(old.y[0].values, samples(&[1, 2, 3, 4, 5]));

    assert_eq!(old.y[1].values.len(), 5);
    assert_eq!(old.y[1].values[0], Sample::Missing);
    assert_eq!(old.y[1].values[1], Sample::Missing);
    assert_eq!(old.y[1].values[2], Sample::Missing);
    assert_eq!(&old.y[1].values[3..5], &samples(&[6, 7])[..]);

    assert_eq!(old.y[2].values.len(), 5);
    assert_eq!(&old.y[2].values[0..3], &samples(&[2, 3, 4])[..]);
    assert_eq!(old.y[2].values[3], Sample::Missing);
    assert_eq!(old.y[2].values[4], Sample::Missing);
}

#[test]
fn append_set_to_empty() {
    let mut old = SeriesSet { x: None, y: vec![] };

    let new = SeriesSet {
        x: None,
        y: vec![
            Series { title: "a".to_owned(), values: samples(&[4, 5]) },
            Series { title: "c".to_owned(), values: samples(&[6, 7]) },
        ],
    };

    old.append_set(new);

    assert_eq!(old.y.len(), 2);
    assert_eq!(old.y[1].title, "a".to_owned());
    assert_eq!(old.y[0].title, "c".to_owned());
    assert_eq!(old.y[1].values, samples(&[4, 5]));
    assert_eq!(old.y[0].values, samples(&[6, 7]));
}

#[test]
fn append_set_concatenates_labels() {
    let mut old = SeriesSet {
        x: Some(("t".to_owned(), vec!["1".to_owned()])),
        y: vec![Series { title: "a".to_owned(), values: samples(&[1]) }],
    };
    let new = SeriesSet {
        x: Some(("t".to_owned(), vec!["2".to_owned(), "3".to_owned()])),
        y: vec![Series { title: "a".to_owned(), values: samples(&[2, 3]) }],
    };
    old.append_set(new);
    assert_eq!(
        old.x,
        Some(("t".to_owned(), vec!["1".to_owned(), "2".to_owned(), "3".to_owned()]))
    );
    assert_eq!(old.y[0].values, samples(&[1, 2, 3]));
}

#[test]
fn append_slice_matching_width() {
    let mut set = SeriesSet {
        x: None,
        y: vec![
            Series { title: "a".to_owned(), values: samples(&[1]) },
            Series { title: "b".to_owned(), values: samples(&[2]) },
        ],
    };
    set.append_slice(Slice { x: None, y: samples(&[10, 20]) });
    assert_eq!(set.y[0].values, samples(&[1, 10]));
    assert_eq!(set.y[1].values, samples(&[2, 20]));
    assert_eq!(set.series_size(), 2);
    assert_eq!(set.series_count(), 2);
}

#[test]
fn append_slice_width_mismatch_is_dropped() {
    let mut set = SeriesSet {
        x: None,
        y: vec![
            Series { title: "a".to_owned(), values: samples(&[1]) },
            Series { title: "b".to_owned(), values: samples(&[2]) },
        ],
    };
    set.append_slice(Slice { x: None, y: samples(&[10]) });
    assert_eq!(set.y[0].values, samples(&[1]));
    assert_eq!(set.y[1].values, samples(&[2]));
}

#[test]
fn magnitude_sort_ignores_missing() {
    // missing samples contribute nothing to the ordering sum
    let mut old = SeriesSet {
        x: None,
        y: vec![Series { title: "low".to_owned(), values: samples(&[1]) }],
    };
    let new = SeriesSet {
        x: None,
        y: vec![
            Series {
                title: "high".to_owned(),
                values: vec![Sample::Val(5 * UNIT), Sample::Missing],
            },
        ],
    };
    old.append_set(new);
    assert_eq!(old.y[0].title, "high");
    assert_eq!(old.y[1].title, "low");
}
