use uq::cache::{CapacityExceeded, UniquenessCache};
use uq::filter::{KeyExtractor, Mode};
use uq::pipeline::Deduplicator;
use uq::reader::StdinReader;

fn extractor(pattern: Option<&str>, mode: Mode) -> KeyExtractor {
    KeyExtractor::compile(pattern, mode).ok().unwrap()
}

fn run_on(
    input: &[u8],
    pattern: Option<&str>,
    mode: Mode,
    capacity: Option<usize>,
    evict: bool,
) -> (Vec<Vec<u8>>, Result<(), CapacityExceeded>) {
    let mut filter = Deduplicator::new(extractor(pattern, mode), UniquenessCache::new(capacity, evict));
    let mut reader = StdinReader::new(input.to_vec());
    let mut output = Vec::new();
    let end = filter.run(&mut reader, &mut output);
    (output, end)
}

fn lines(texts: &[&str]) -> Vec<Vec<u8>> {
    texts.iter().map(|t| t.as_bytes().to_vec()).collect()
}

#[test]
fn end_to_end_with_a_kept_group() {
    let mut filter =
        Deduplicator::new(extractor(Some(r"^(\d+)"), Mode::Include), UniquenessCache::new(None, false));
    assert_eq!(filter.accept(b"1,a\n"), Ok(true));
    assert_eq!(filter.accept(b"2,b\n"), Ok(true));
    assert_eq!(filter.accept(b"1,c\n"), Ok(false));

    let (output, end) = run_on(b"1,a\n2,b\n1,c\n", Some(r"^(\d+)"), Mode::Include, None, false);
    assert_eq!(end, Ok(()));
    assert_eq!(output, lines(&["1,a\n", "2,b\n"]));
}

#[test]
fn record_without_a_key_is_suppressed_every_time() {
    let mut filter =
        Deduplicator::new(extractor(Some(r"(\d+)"), Mode::Include), UniquenessCache::new(None, false));
    assert_eq!(filter.accept(b"abc"), Ok(false));
    assert_eq!(filter.accept(b"abd"), Ok(false));
    assert_eq!(filter.accept(b"abc7"), Ok(true));
    assert_eq!(filter.accept(b"abc"), Ok(false));
}

#[test]
fn record_without_a_key_does_not_count_against_capacity() {
    let mut filter = Deduplicator::new(
        extractor(Some(r"(\d+)"), Mode::Include),
        UniquenessCache::new(Some(1), false),
    );
    assert_eq!(filter.accept(b"abc"), Ok(false));
    assert_eq!(filter.accept(b"x1"), Ok(true));
    assert_eq!(filter.accept(b"def"), Ok(false));
    assert_eq!(filter.accept(b"y1"), Ok(false));
    assert_eq!(filter.accept(b"y2"), Err(CapacityExceeded));
}

#[test]
fn stripped_records_with_one_key_are_forwarded_once() {
    let mut filter =
        Deduplicator::new(extractor(Some(r"\s+"), Mode::Exclude), UniquenessCache::new(None, false));
    assert_eq!(filter.accept(b"a b"), Ok(true));
    assert_eq!(filter.accept(b"ab"), Ok(false));

    let (output, end) = run_on(b"a b\nab\n", Some(r"\s+"), Mode::Exclude, None, false);
    assert_eq!(end, Ok(()));
    assert_eq!(output, lines(&["a b\n"]));
}

#[test]
fn forwarded_records_are_the_input_records_not_their_keys() {
    let (output, end) = run_on(b"k=1 x\nk=2 y\nk=1 z\n", Some(r"k=(\d)"), Mode::Include, None, false);
    assert_eq!(end, Ok(()));
    assert_eq!(output, lines(&["k=1 x\n", "k=2 y\n"]));
}

#[test]
fn unbounded_run_forwards_first_occurrences_in_order() {
    let (output, end) = run_on(b"b\na\nb\nc\na\nc\nd", None, Mode::Include, None, false);
    assert_eq!(end, Ok(()));
    assert_eq!(output, lines(&["b\n", "a\n", "c\n", "d"]));
}

#[test]
fn a_last_line_without_newline_differs_from_one_with() {
    let (output, end) = run_on(b"a\na", None, Mode::Include, None, false);
    assert_eq!(end, Ok(()));
    assert_eq!(output, lines(&["a\n", "a"]));
}

#[test]
fn run_appends_to_what_the_output_holds() {
    let mut filter =
        Deduplicator::new(extractor(None, Mode::Include), UniquenessCache::new(None, false));
    let mut output = lines(&["kept\n"]);
    let mut first = StdinReader::new(b"a\nb\n".to_vec());
    assert_eq!(filter.run(&mut first, &mut output), Ok(()));
    let mut second = StdinReader::new(b"b\nc\n".to_vec());
    assert_eq!(filter.run(&mut second, &mut output), Ok(()));
    assert_eq!(output, lines(&["kept\n", "a\n", "b\n", "c\n"]));
}

#[test]
fn run_stops_at_the_record_that_does_not_fit() {
    let (output, end) = run_on(b"a\nb\na\nc\nd\n", None, Mode::Include, Some(2), false);
    assert_eq!(end, Err(CapacityExceeded));
    assert_eq!(output, lines(&["a\n", "b\n"]));

    let mut filter =
        Deduplicator::new(extractor(None, Mode::Include), UniquenessCache::new(Some(2), false));
    let mut reader = StdinReader::new(b"a\nb\na\nc\nd\n".to_vec());
    let mut output = Vec::new();
    assert_eq!(filter.run(&mut reader, &mut output), Err(CapacityExceeded));
    // The record that failed was taken from the input; the next one was not.
    assert_eq!(reader.next_line(), Some(&b"d\n".to_vec()));
}

#[test]
fn run_within_capacity_does_not_fail() {
    let (output, end) = run_on(b"a\nb\na\nb\n", None, Mode::Include, Some(2), false);
    assert_eq!(end, Ok(()));
    assert_eq!(output, lines(&["a\n", "b\n"]));
}

#[test]
fn evicting_run_forwards_a_forgotten_record_again() {
    let (output, end) = run_on(b"1\n2\n3\n1\n3\n", None, Mode::Include, Some(2), true);
    assert_eq!(end, Ok(()));
    assert_eq!(output, lines(&["1\n", "2\n", "3\n", "1\n"]));
}

#[test]
fn evicting_run_with_capacity_zero_forwards_everything() {
    let (output, end) = run_on(b"a\na\na\n", None, Mode::Include, Some(0), true);
    assert_eq!(end, Ok(()));
    assert_eq!(output, lines(&["a\n", "a\n", "a\n"]));
}

#[test]
fn run_on_empty_input_forwards_nothing() {
    let (output, end) = run_on(b"", None, Mode::Include, Some(0), false);
    assert_eq!(end, Ok(()));
    assert!(output.is_empty());
}
