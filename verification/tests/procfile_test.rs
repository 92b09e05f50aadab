use oxidux::procfile::{parse_procfile, valid_command};

fn pairs(expected: &[(&str, &str)]) -> Vec<(String, String)> {
    expected.iter().map(|(n, c)| (n.to_string(), c.to_string())).collect()
}

#[test]
fn test_single_command() {
    let input = "web: bin/start_server";
    let result = parse_procfile(input);

    let expected = pairs(&[("web", "bin/start_server")]);

    assert_eq!(result, expected);
}

#[test]
fn test_multiple_commands() {
    let input = "test: command\nhello: world args\n";
    let result = parse_procfile(input);

    let expected = pairs(&[("test", "command"), ("hello", "world args")]);

    assert_eq!(result, expected);
}

#[test]
fn test_comment() {
    // Not really a comment, but invalid lines are ignored
    let input = "# Hi: there\nweb: server -e test .\n";
    let result = parse_procfile(input);

    let expected = pairs(&[("web", "server -e test .")]);

    assert_eq!(result, expected);
}

#[test]
fn colon_in_command() {
    let input = "test: command :arg";
    let result = parse_procfile(input);

    let expected = pairs(&[("test", "command :arg")]);

    assert_eq!(result, expected);
}

#[test]
fn empty_procfile_has_no_entries() {
    assert_eq!(parse_procfile(""), Vec::<(String, String)>::new());
}

#[test]
fn repeated_name_keeps_last_command() {
    let input = "web: one\nweb: two\n";
    let expected = pairs(&[("web", "two")]);
    assert_eq!(parse_procfile(input), expected);
}

#[test]
fn name_with_space_is_dropped() {
    let input = "bad name: cmd\nok: cmd\n";
    let expected = pairs(&[("ok", "cmd")]);
    assert_eq!(parse_procfile(input), expected);
}

#[test]
fn empty_name_is_dropped() {
    let input = ": cmd\n";
    assert_eq!(parse_procfile(input), Vec::<(String, String)>::new());
}

#[test]
fn crlf_lines_parse_like_lf_lines() {
    let input = "web: server\r\nworker: run\r\n";
    let expected = pairs(&[("web", "server"), ("worker", "run")]);
    assert_eq!(parse_procfile(input), expected);
}

#[test]
fn valid_command_accepts_name_characters() {
    assert!(valid_command("web-1_x"));
    assert!(!valid_command("has space"));
    assert!(!valid_command("has:colon"));
}
