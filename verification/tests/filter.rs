use uq::filter::{
    join_groups, key_from_captures, ExcludeFilter, IncludeFilter, InvalidPattern, KeyExtractor,
    Mode,
};

fn bytes(text: &str) -> Vec<u8> {
    text.as_bytes().to_vec()
}

fn some(text: &str) -> Option<Vec<u8>> {
    Some(bytes(text))
}

fn keeping(pattern: &str) -> KeyExtractor {
    match KeyExtractor::compile(Some(pattern), Mode::Include) {
        Ok(extractor) => extractor,
        Err(e) => panic!("{}", e.message()),
    }
}

fn stripping(pattern: &str) -> KeyExtractor {
    match KeyExtractor::compile(Some(pattern), Mode::Exclude) {
        Ok(extractor) => extractor,
        Err(e) => panic!("{}", e.message()),
    }
}

#[test]
fn identity_key_is_the_record() {
    let extractor = KeyExtractor::compile(None, Mode::Include).ok().unwrap();
    assert!(matches!(extractor, KeyExtractor::Identity));
    assert_eq!(extractor.extract(b"abc\n"), some("abc\n"));
    assert_eq!(extractor.extract(b""), some(""));
    let other = KeyExtractor::compile(None, Mode::Exclude).ok().unwrap();
    assert!(matches!(other, KeyExtractor::Identity));
    assert_eq!(other.extract(&[0xff, 0xfe]), Some(vec![0xff, 0xfe]));
}

#[test]
fn include_without_a_match_gives_no_key() {
    let extractor = keeping(r"(\d+)");
    assert_eq!(extractor.extract(b"abc"), None);
    assert_eq!(extractor.extract(b"xyz"), None);
    assert_eq!(extractor.extract(b""), None);
}

#[test]
fn include_with_one_group_gives_the_group() {
    let extractor = keeping(r"^(\d+)");
    assert_eq!(extractor.extract(b"1,a\n"), some("1"));
    assert_eq!(extractor.extract(b"22,b\n"), some("22"));
}

#[test]
fn include_without_groups_gives_the_whole_match() {
    let extractor = keeping(r"\d+");
    assert_eq!(extractor.extract(b"ab123cd45"), some("123"));
}

#[test]
fn include_joins_the_groups_in_order() {
    let extractor = keeping(r"(\w+)@(\w+)\.(\w+)");
    assert_eq!(extractor.extract(b"mail bob@example.org now"), some("bobexampleorg"));
}

#[test]
fn include_skips_a_group_that_took_no_part() {
    let extractor = keeping(r"[a-z]+(?:([0-9]+)|([A-Z]+))");
    assert_eq!(extractor.extract(b"abc123"), some("123"));
    assert_eq!(extractor.extract(b"abcXYZ"), some("XYZ"));
    let lone = keeping(r"a(b)?c");
    assert_eq!(lone.extract(b"ac"), some(""));
    assert_eq!(lone.extract(b"abc"), some("b"));
    let empty_group = keeping(r"a(b*)c");
    assert_eq!(empty_group.extract(b"ac"), some(""));
}

#[test]
fn include_takes_the_leftmost_match_only() {
    let extractor = keeping(r"(\d)");
    assert_eq!(extractor.extract(b"a1b2c3"), some("1"));
}

#[test]
fn exclude_removes_every_match() {
    let extractor = stripping(r"\s+");
    assert_eq!(extractor.extract(b"a b"), some("ab"));
    assert_eq!(extractor.extract(b"ab"), some("ab"));
    assert_eq!(extractor.extract(b" a  b\tc\n"), some("abc"));
}

#[test]
fn exclude_without_a_match_gives_the_record() {
    let extractor = stripping(r"\d+");
    assert_eq!(extractor.extract(b"abc\n"), some("abc\n"));
    assert_eq!(extractor.extract(b""), some(""));
}

#[test]
fn exclude_reads_nothing_into_the_replacement() {
    let extractor = stripping(r"(\d+)");
    assert_eq!(extractor.extract(b"a1$1b22"), some("a$b"));
}

#[test]
fn exclude_may_leave_nothing() {
    let extractor = stripping(r".*");
    assert_eq!(extractor.extract(b"abc"), some(""));
}

#[test]
fn extraction_works_on_bytes_that_are_not_text() {
    let keep = keeping(r"(?-u:\xff)(\d+)");
    assert_eq!(keep.extract(&[0x00, 0xff, b'4', b'2', 0xfe]), some("42"));
    let keep_any = keeping(r"(\d+)");
    assert_eq!(keep_any.extract(&[0xc3, 0x28, b'7', 0xff]), some("7"));
    assert_eq!(keep_any.extract(&[0xc3, 0x28, 0xff]), None);
    let strip = stripping(r"\d");
    assert_eq!(strip.extract(&[0xff, b'1', 0xfe, b'2']), Some(vec![0xff, 0xfe]));
}

#[test]
fn invalid_pattern_is_refused_with_its_text() {
    let made = KeyExtractor::compile(Some("foo(bar"), Mode::Include);
    match made {
        Ok(_) => panic!("an unclosed group compiled"),
        Err(e) => {
            assert_eq!(e, InvalidPattern { pattern: "foo(bar".to_string() });
            assert_eq!(e.message(), "invalid regular expression: foo(bar");
        }
    }
    let made = KeyExtractor::compile(Some("[a-"), Mode::Exclude);
    match made {
        Ok(_) => panic!("an unclosed class compiled"),
        Err(e) => assert_eq!(e.pattern, "[a-"),
    }
    assert!(IncludeFilter::new("*").is_err());
    assert!(ExcludeFilter::new("(?P<n>").is_err());
    assert!(IncludeFilter::new(r"\w{1000}").is_err());
}

#[test]
fn compile_reads_the_pattern_as_the_mode_says() {
    assert!(matches!(keeping("a"), KeyExtractor::Include(_)));
    assert!(matches!(stripping("a"), KeyExtractor::Exclude(_)));
    assert_eq!(keeping("b").extract(b"abc"), some("b"));
    assert_eq!(stripping("b").extract(b"abc"), some("ac"));
}

#[test]
fn filters_can_be_used_on_their_own() {
    let keep = IncludeFilter::new(r"(\w+)=(\d+)").ok().unwrap();
    assert_eq!(keep.filter(b"x=10;"), some("x10"));
    assert_eq!(keep.filter(b"nothing"), None);
    let strip = ExcludeFilter::new(r"=\d+").ok().unwrap();
    assert_eq!(strip.filter(b"x=10;y=2"), some("x;y"));
    assert_eq!(strip.filter(b"nothing"), some("nothing"));
}

#[test]
fn join_groups_takes_the_whole_match_only_when_alone() {
    assert_eq!(join_groups(&vec![some("whole")]), bytes("whole"));
    assert_eq!(join_groups(&vec![some("a-b"), some("a"), some("b")]), bytes("ab"));
    assert_eq!(join_groups(&vec![some("a-b"), None, some("b")]), bytes("b"));
    assert_eq!(join_groups(&vec![some("ab"), None]), bytes(""));
    assert_eq!(join_groups(&vec![None]), bytes(""));
    assert_eq!(join_groups(&Vec::new()), bytes(""));
}

#[test]
fn key_from_captures_has_no_key_without_a_match() {
    assert_eq!(key_from_captures(None), None);
    assert_eq!(key_from_captures(Some(vec![some("m")])), some("m"));
    assert_eq!(key_from_captures(Some(vec![some("m1"), some("1")])), some("1"));
}
