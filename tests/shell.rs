use ssh_probe::shell::command_line;

fn strings(v: &[&str]) -> Vec<String> {
    v.iter().map(|s| s.to_string()).collect()
}

#[test]
fn plain_arguments_stay_as_they_are() {
    assert_eq!(command_line(&strings(&["ls", "-la", "/tmp/a_b.c,d+e=f"])), "ls -la /tmp/a_b.c,d+e=f");
}

#[test]
fn argument_with_space_is_quoted() {
    assert_eq!(command_line(&strings(&["echo", "a b"])), "echo 'a b'");
}

#[test]
fn quote_and_bang_are_escaped() {
    assert_eq!(command_line(&strings(&["it's", "!x"])), r#"'it'\''s' ''\!'x'"#);
}

#[test]
fn empty_argument_becomes_empty_quotes() {
    assert_eq!(command_line(&strings(&["printf", ""])), "printf ''");
    assert_eq!(command_line(&Vec::new()), "");
}
