use cmdline::{Command, Error};

#[test]
fn empty_quotes_make_an_empty_word() {
    let command = Command::new("\"\"").unwrap();
    assert_eq!(command.program(), "");
    assert!(command.args().is_empty());

    let command = Command::new("echo '' \"\" x").unwrap();
    assert_eq!(command.program(), "echo");
    assert_eq!(command.args(), ["", "", "x"]);
}

#[test]
fn form_feed_and_carriage_return_separate_words() {
    let command = Command::new("\x0Cecho\ra\x0C\rb\r").unwrap();
    assert_eq!(command.program(), "echo");
    assert_eq!(command.args(), ["a", "b"]);
    assert!(matches!(Command::new("\r\x0C \t\n"), Err(Error::EmptyProgram)));
}

#[test]
fn whitespace_inside_quotes_is_kept() {
    let command = Command::new("'a b'\t\"c\td\"").unwrap();
    assert_eq!(command.program(), "a b");
    assert_eq!(command.args(), ["c\td"]);
}

#[test]
fn other_quote_is_literal_inside_quotes() {
    let command = Command::new(r#"echo "it's" 'say "hi"'"#).unwrap();
    assert_eq!(command.args(), ["it's", "say \"hi\""]);
}

#[test]
fn quoted_program_keeps_word_unchanged() {
    for q in ['"', '\''] {
        let command = Command::new(&format!("{q}my program{q} w0rd-with.stuff\\")).unwrap();
        assert_eq!(command.program(), "my program");
        assert_eq!(command.args(), ["w0rd-with.stuff\\"]);
    }
}

#[test]
fn invalid_escape_stops_at_first_fault() {
    let source = "echo \"\\x\" '";
    match Command::new(source) {
        Err(Error::InvalidEscapeSequence(s, c)) => {
            assert_eq!(s, source);
            assert_eq!(c, 'x');
        }
        other => panic!("unexpected result: {other:?}"),
    }
}

#[test]
fn escape_takes_priority_over_missing_quote() {
    let source = "echo \"abc\\";
    assert!(matches!(Command::new(source), Err(Error::UnterminatedEscapeSequence(s)) if s == source));
}

#[test]
fn unicode_text_passes_through() {
    let command = Command::new("grüß \"héllo wörld\" 日本").unwrap();
    assert_eq!(command.program(), "grüß");
    assert_eq!(command.args(), ["héllo wörld", "日本"]);
}

#[test]
fn messages_name_the_source() {
    let cases = [
        (Error::EmptyProgram, "empty program".to_string()),
        (Error::MissingQuote("echo 'x".to_string(), '\''), "missing quote ': echo 'x".to_string()),
        (
            Error::InvalidEscapeSequence("echo \"\\n\"".to_string(), 'n'),
            "invalid escape sequence '\\n': echo \"\\n\"".to_string(),
        ),
        (
            Error::UnterminatedEscapeSequence("echo \"\\".to_string()),
            "unterminated escape sequence: echo \"\\".to_string(),
        ),
        (Error::Terminated, "process was terminated by a signal".to_string()),
        (
            Error::Local(std::io::Error::new(std::io::ErrorKind::NotFound, "gone")),
            "local command failure".to_string(),
        ),
    ];
    for (error, expected) in cases {
        assert_eq!(error.message(), expected);
    }
}

#[test]
fn source_is_the_local_failure() {
    let error = Error::Local(std::io::Error::new(std::io::ErrorKind::NotFound, "gone"));
    assert_eq!(error.source().unwrap().kind(), std::io::ErrorKind::NotFound);
    assert!(Error::EmptyProgram.source().is_none());
    assert!(Error::Terminated.source().is_none());
}
