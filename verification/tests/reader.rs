use uq::reader::StdinReader;

fn all_lines(input: &[u8]) -> Vec<Vec<u8>> {
    let mut reader = StdinReader::new(input.to_vec());
    let mut lines = Vec::new();
    loop {
        match reader.next_line() {
            Some(line) => lines.push(line.clone()),
            None => break,
        }
    }
    assert!(reader.next_line().is_none());
    lines
}

#[test]
fn empty_input_has_no_line() {
    assert_eq!(all_lines(b""), Vec::<Vec<u8>>::new());
}

#[test]
fn lines_keep_their_newline() {
    assert_eq!(all_lines(b"a\nbc\n"), vec![b"a\n".to_vec(), b"bc\n".to_vec()]);
}

#[test]
fn last_line_may_lack_the_newline() {
    assert_eq!(all_lines(b"a\nbc"), vec![b"a\n".to_vec(), b"bc".to_vec()]);
    assert_eq!(all_lines(b"abc"), vec![b"abc".to_vec()]);
}

#[test]
fn empty_lines_are_lines() {
    assert_eq!(all_lines(b"\n\na\n"), vec![b"\n".to_vec(), b"\n".to_vec(), b"a\n".to_vec()]);
}

#[test]
fn only_the_newline_byte_ends_a_line() {
    assert_eq!(
        all_lines(&[0xff, b'\r', 0x00, b'\n', 0xfe]),
        vec![vec![0xff, b'\r', 0x00, b'\n'], vec![0xfe]]
    );
}

#[test]
fn lines_put_together_give_the_input() {
    let input = b"one\n\ntwo\nthree\n\nlast".to_vec();
    let joined: Vec<u8> = all_lines(&input).into_iter().flatten().collect();
    assert_eq!(joined, input);
}
