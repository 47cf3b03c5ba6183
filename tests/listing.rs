use ssh_probe::listing::{listing_command, parse_first_line, parse_header, parse_row, ListingError};
use ssh_probe::text::split_words;

const HEADER: &str = "USER         PID %CPU %MEM    VSZ   RSS TTY      STAT START   TIME COMMAND";

fn strings(v: &[&str]) -> Vec<String> {
    v.iter().map(|s| s.to_string()).collect()
}

#[test]
fn header_with_eleven_columns_is_returned_unchanged() {
    let cols = parse_header(HEADER).unwrap();
    assert_eq!(
        cols,
        strings(&["USER", "PID", "%CPU", "%MEM", "VSZ", "RSS", "TTY", "STAT", "START", "TIME", "COMMAND"])
    );
}

#[test]
fn header_with_ten_columns_is_refused() {
    let line = "USER PID %CPU %MEM VSZ RSS TTY STAT START COMMAND";
    assert_eq!(parse_header(line), Err(ListingError::BadHeader));
}

#[test]
fn header_with_twelve_columns_is_refused() {
    let line = "USER PID %CPU %MEM VSZ RSS TTY STAT START TIME WCHAN COMMAND";
    assert_eq!(parse_header(line), Err(ListingError::BadHeader));
}

#[test]
fn header_not_ending_in_command_is_refused() {
    let line = "USER PID %CPU %MEM VSZ RSS TTY STAT START TIME CMD";
    assert_eq!(parse_header(line), Err(ListingError::BadHeader));
    let lower = "USER PID %CPU %MEM VSZ RSS TTY STAT START TIME command";
    assert_eq!(parse_header(lower), Err(ListingError::BadHeader));
}

#[test]
fn missing_first_line_is_no_output() {
    assert_eq!(parse_first_line(None), Err(ListingError::NoOutput));
    assert_eq!(parse_first_line(Some("")), Err(ListingError::BadHeader));
    assert_eq!(parse_first_line(Some(HEADER)).unwrap().len(), 11);
}

#[test]
fn row_yields_command_text() {
    let row = "user 123 0.0 0.1 1000 200 pts/0 S 00:00 0:00 /bin/bash -c foo";
    assert_eq!(parse_row(row), Ok("/bin/bash -c foo".to_string()));
}

#[test]
fn row_keeps_inner_spacing_of_command() {
    let row = "root    1  0.0  0.1 169000 13000 ?   Ss  Oct18   0:05 /sbin/init  splash";
    assert_eq!(parse_row(row), Ok("/sbin/init  splash".to_string()));
}

#[test]
fn row_with_fewer_fields_does_not_match() {
    let row = "user 123 0.0 0.1 1000 200 pts/0 S 00:00";
    assert_eq!(parse_row(row), Err(ListingError::BadRow));
    assert_eq!(parse_row(""), Err(ListingError::BadRow));
}

#[test]
fn row_with_exactly_ten_fields() {
    let bare = "user 123 0.0 0.1 1000 200 pts/0 S 00:00 0:00";
    assert_eq!(parse_row(bare), Err(ListingError::BadRow));
    let trailing = "user 123 0.0 0.1 1000 200 pts/0 S 00:00 0:00 ";
    assert_eq!(parse_row(trailing), Ok(String::new()));
}

#[test]
fn row_starting_with_blank_does_not_match() {
    let row = " user 123 0.0 0.1 1000 200 pts/0 S 00:00 0:00 sh";
    assert_eq!(parse_row(row), Err(ListingError::BadRow));
}

#[test]
fn row_with_line_feed_in_command_does_not_match() {
    let row = "user 123 0.0 0.1 1000 200 pts/0 S 00:00 0:00 a\nb";
    assert_eq!(parse_row(row), Err(ListingError::BadRow));
}

#[test]
fn words_split_on_unicode_whitespace() {
    assert_eq!(split_words("  a\tb\u{3000}c \u{a0} "), strings(&["a", "b", "c"]));
    assert_eq!(split_words(""), Vec::<String>::new());
    assert_eq!(split_words(" \t "), Vec::<String>::new());
}

#[test]
fn listing_command_is_ps_auwx() {
    assert_eq!(listing_command(), "ps auwx");
}
