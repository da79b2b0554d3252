use hcl::history::History;
use hcl::reader::{LineReader, PairReader, ReaderMessage};
use hcl::sample::{Sample, UNIT};
use hcl::series::{Series, SeriesSet};
use hcl::settings::{Column, Settings, SortingMode};
use hcl::state::{KeyInput, MouseButtonInput, State};

fn plain_settings() -> Settings {
    Settings {
        input_file: None,
        x: Column::Unset,
        scales: None,
        paired: false,
        sort_mode: SortingMode::ValuesDesc,
    }
}

#[test]
fn incremental_ingestion_end_to_end() {
    // header then two rows, no X column
    let mut reader = LineReader::new(Column::Unset);
    let mut state = State::from_settings(&plain_settings());

    match reader.on_line("a,b,c") {
        Some(ReaderMessage::Extend(set)) => state.extend_dataset(set, 80),
        _ => panic!("header expected"),
    }
    match reader.on_line("1,2,3") {
        Some(ReaderMessage::Append(slice)) => state.append_slice(slice, 80),
        _ => panic!("row expected"),
    }
    match reader.on_line("4,5,6") {
        Some(ReaderMessage::Append(slice)) => state.append_slice(slice, 80),
        _ => panic!("row expected"),
    }

    assert_eq!(state.data.y[0].title, "a");
    assert_eq!(state.data.y[0].values, vec![Sample::Val(UNIT), Sample::Val(4 * UNIT)]);
    assert_eq!(state.data.series_size(), 2);
}

#[test]
fn error_clears_on_next_data() {
    let mut state = State::from_settings(&plain_settings());
    state.on_error("boom".to_owned());
    assert_eq!(state.error_message, Some("boom".to_owned()));
    let set = SeriesSet {
        x: None,
        y: vec![Series { title: "a".to_owned(), values: vec![Sample::Val(UNIT)] }],
    };
    state.extend_dataset(set, 80);
    assert!(state.error_message.is_none());
}

#[test]
fn pause_key_flips_and_signals() {
    let mut state = State::from_settings(&plain_settings());
    assert!(state.is_auto());
    let r = state.on_key_press(KeyInput::Char('p'), 80, 24);
    assert!(r.redraw);
    assert!(r.pause_fetcher);
    assert!(!state.is_auto());
}

#[test]
fn cursor_toggle_key() {
    let mut state = State::from_settings(&plain_settings());
    assert!(!state.cursor_allowed());
    let r = state.on_key_press(KeyInput::Char('c'), 80, 24);
    assert!(r.redraw);
    assert!(!r.pause_fetcher);
    assert!(state.cursor_allowed());
}

#[test]
fn unknown_key_is_a_no_op() {
    let mut state = State::from_settings(&plain_settings());
    let before_x = state.x;
    let before_y = state.y;
    let r = state.on_key_press(KeyInput::Char('z'), 80, 24);
    assert!(!r.redraw);
    assert!(!r.pause_fetcher);
    assert_eq!(state.x, before_x);
    assert_eq!(state.y, before_y);
}

#[test]
fn wheel_scrolls_series_window() {
    let mut state = State::from_settings(&plain_settings());
    let mut y = Vec::new();
    let mut i = 0;
    while i < 10 {
        y.push(Series { title: format!("s{}", i), values: vec![Sample::Val(UNIT)] });
        i += 1;
    }
    state.extend_dataset(SeriesSet { x: None, y }, 80);
    let moved = state.on_mouse_press(MouseButtonInput::WheelDown, 0, 80, 4);
    assert!(moved);
    assert_eq!(state.y.offset, 1);
    let moved = state.on_mouse_press(MouseButtonInput::WheelUp, 0, 80, 4);
    assert!(moved);
    assert_eq!(state.y.offset, 0);
}

#[test]
fn history_navigation() {
    let mut h = History::new();
    let one = SeriesSet {
        x: None,
        y: vec![Series { title: "a".to_owned(), values: vec![Sample::Val(UNIT)] }],
    };
    let two = SeriesSet {
        x: None,
        y: vec![Series { title: "a".to_owned(), values: vec![Sample::Val(2 * UNIT)] }],
    };
    // the first real epoch replaces the placeholder
    h.append(one);
    assert_eq!(h.sets.len(), 1);
    h.append(two);
    assert_eq!(h.sets.len(), 2);

    // the pointer still rests on the first epoch
    assert!(!h.backward());
    assert_eq!(h.current().y[0].values, vec![Sample::Val(UNIT)]);
    assert!(h.forward());
    assert_eq!(h.current().y[0].values, vec![Sample::Val(2 * UNIT)]);
    assert!(!h.forward());
    assert!(h.backward());
    assert!(h.last());
    assert!(!h.last());
    assert_eq!(h.current().y[0].values, vec![Sample::Val(2 * UNIT)]);
}

#[test]
fn paired_reader_collects_records() {
    let mut reader = PairReader::new(Column::Unset);
    assert!(reader.on_line("cpu: 10").is_none());
    assert!(reader.on_line("ram: 20").is_none());
    assert!(reader.on_line("garbage line without colon").is_none());
    match reader.on_line("") {
        Some(ReaderMessage::Extend(set)) => {
            assert_eq!(set.y.len(), 2);
            assert_eq!(set.y[0].title, "cpu");
            assert_eq!(set.y[0].values, vec![Sample::Val(10 * UNIT)]);
            assert_eq!(set.y[1].title, "ram");
            assert_eq!(set.y[1].values, vec![Sample::Val(20 * UNIT)]);
        },
        _ => panic!("flush expected"),
    }
    // at the end of input an empty buffer reports the end
    match reader.on_eof() {
        ReaderMessage::EOF => {},
        _ => panic!("end of input expected"),
    }
}

#[test]
fn paired_reader_flushes_at_eof() {
    let mut reader = PairReader::new(Column::Unset);
    assert!(reader.on_line("cpu: 10").is_none());
    match reader.on_eof() {
        ReaderMessage::Extend(set) => {
            assert_eq!(set.y.len(), 1);
            assert_eq!(set.y[0].values, vec![Sample::Val(10 * UNIT)]);
        },
        _ => panic!("flush expected"),
    }
}

#[test]
fn line_reader_resets_on_blank() {
    let mut reader = LineReader::new(Column::Unset);
    assert!(matches!(reader.on_line("a,b"), Some(ReaderMessage::Extend(_))));
    assert!(matches!(reader.on_line("1,2"), Some(ReaderMessage::Append(_))));
    assert!(reader.on_line("").is_none());
    // the next line is a header again
    match reader.on_line("c,d,e") {
        Some(ReaderMessage::Extend(set)) => assert_eq!(set.y.len(), 3),
        _ => panic!("header expected"),
    }
}
