use cucina::logs::{Ring, MAX_LINES};
use cucina::model::Stream;

#[test]
fn numbers_lines_and_returns_them_oldest_first() {
    let mut ring = Ring::new();
    ring.push(Stream::Stdout, "one");
    ring.push(Stream::Stderr, "two");
    let all = ring.tail(10);
    assert_eq!(all.len(), 2);
    assert_eq!(all[0].seq, 0);
    assert_eq!(all[0].text, "one");
    assert_eq!(all[1].seq, 1);
    assert_eq!(all[1].stream, Stream::Stderr);
}

#[test]
fn trims_the_trailing_newline_a_line_arrives_with() {
    let mut ring = Ring::new();
    ring.push(Stream::Stdout, "listening\r\n");
    assert_eq!(ring.tail(1)[0].text, "listening");
}

#[test]
fn drops_the_oldest_lines_past_the_cap() {
    let mut ring = Ring::new();
    for i in 0..MAX_LINES + 50 {
        ring.push(Stream::Stdout, &i.to_string());
    }
    let all = ring.tail(usize::MAX);
    assert_eq!(all.len(), MAX_LINES);
    assert_eq!(all[0].text, "50");
    assert_eq!(all[0].seq, 50);
}

#[test]
fn truncates_a_single_absurdly_long_line() {
    let mut ring = Ring::new();
    ring.push(Stream::Stdout, &"x".repeat(10_000));
    let text = &ring.tail(1)[0].text;
    assert!(text.ends_with(" …"));
    assert!(text.chars().count() < 5_000);
}

#[test]
fn tail_returns_the_newest_n() {
    let mut ring = Ring::new();
    for i in 0..10 {
        ring.push(Stream::Stdout, &i.to_string());
    }
    let last = ring.tail(3);
    assert_eq!(last.len(), 3);
    assert_eq!(last[0].text, "7");
    assert_eq!(last[2].text, "9");
    assert_eq!(ring.tail(500).len(), 10);
}

#[test]
fn hands_each_line_to_subscribers_exactly_once() {
    let mut ring = Ring::new();
    assert!(!ring.has_pending());

    ring.push(Stream::Stdout, "a");
    assert!(ring.has_pending());
    assert_eq!(ring.take_pending().len(), 1);
    assert!(!ring.has_pending());
    assert!(ring.take_pending().is_empty());

    ring.push(Stream::Stdout, "b");
    let next = ring.take_pending();
    assert_eq!(next.len(), 1);
    assert_eq!(next[0].text, "b");
}

#[test]
fn picks_a_runs_slice_back_out_of_the_stream() {
    let mut ring = Ring::new();
    ring.push(Stream::Stdout, "server line");
    let began = ring.next_seq();
    for i in 0..4 {
        ring.push(Stream::Stdout, &format!("run {i}"));
    }

    let slice = ring.since(began, 100);
    assert_eq!(slice.len(), 4);
    assert_eq!(slice[0].text, "run 0");

    assert_eq!(ring.since(began, 2)[0].text, "run 2");
    assert!(ring.since(ring.next_seq(), 100).is_empty());
}

#[test]
fn clearing_leaves_nothing_pending() {
    let mut ring = Ring::new();
    ring.push(Stream::Stdout, "a");
    ring.clear();
    assert!(!ring.has_pending());
    assert!(ring.tail(10).is_empty());
}

#[test]
fn keeps_exactly_four_thousand_characters_of_a_long_line() {
    let mut ring = Ring::new();
    ring.push(Stream::System, &format!("{}\n\n", "y".repeat(4_001)));
    let text = ring.tail(1)[0].text.clone();
    assert_eq!(text.chars().count(), 4_002);
    assert!(text.starts_with(&"y".repeat(4_000)));
    ring.push(Stream::System, &"z".repeat(4_000));
    assert_eq!(ring.tail(1)[0].text, "z".repeat(4_000));
}

#[test]
fn clearing_keeps_counting_from_where_it_was() {
    let mut ring = Ring::new();
    ring.push(Stream::Stdout, "a");
    ring.push(Stream::Stdout, "b");
    ring.clear();
    ring.push(Stream::Stdout, "c");
    assert_eq!(ring.next_seq(), 3);
    let pending = ring.take_pending();
    assert_eq!(pending.len(), 1);
    assert_eq!(pending[0].seq, 2);
}
