use cmdline::{Command, Error};

fn quotes() -> [char; 2] {
    ['"', '\'']
}

fn spacing_combinations() -> Vec<String> {
    let chars = [' ', '\t', '\n'];
    let mut all: Vec<String> = chars.iter().map(|c| c.to_string()).collect();
    for s1 in chars {
        for s2 in chars {
            for s3 in chars {
                all.push(format!("{s1}{s2}{s3}"));
            }
        }
    }
    all
}

#[test]
fn command_quoting() -> Result<(), Error> {
    for q in quotes().map(String::from).into_iter().chain([String::new()]) {
        let command = Command::new(&format!("{q}echo{q} arg"))?;
        assert_eq!(command.program(), "echo");
        assert_eq!(command.args(), ["arg"]);
    }
    Ok(())
}

#[test]
fn command_spacing() -> Result<(), Error> {
    for spacing in spacing_combinations() {
        let command = Command::new(&format!("{spacing}echo{spacing}arg1{spacing}arg2{spacing}"))?;
        assert_eq!(command.program(), "echo");
        assert_eq!(command.args(), ["arg1", "arg2"]);
    }
    Ok(())
}

#[test]
fn command_quoted_arguments() -> Result<(), Error> {
    for q in quotes() {
        let cases: Vec<(String, &str)> = vec![
            (format!("{q}quoted  quoted{q}"), "quoted  quoted"),
            (format!("leading{q}quoted  quoted{q}"), "leadingquoted  quoted"),
            (format!("{q}quoted  quoted{q}trailing"), "quoted  quotedtrailing"),
            (format!("leading{q}quoted  quoted{q}trailing"), "leadingquoted  quotedtrailing"),
            (
                format!("{q}quoted  quoted{q}unquoted{q}quoted  quoted{q}"),
                "quoted  quotedunquotedquoted  quoted",
            ),
            (
                format!("leading{q}quoted  quoted{q}unquoted{q}quoted  quoted{q}"),
                "leadingquoted  quotedunquotedquoted  quoted",
            ),
            (
                format!("{q}quoted  quoted{q}unquoted{q}quoted  quoted{q}trailing"),
                "quoted  quotedunquotedquoted  quotedtrailing",
            ),
            (
                format!("leading{q}quoted  quoted{q}unquoted{q}quoted  quoted{q}trailing"),
                "leadingquoted  quotedunquotedquoted  quotedtrailing",
            ),
        ];
        for (case, expected) in cases {
            let command = Command::new(&format!("echo {case}"))?;
            assert_eq!(command.program(), "echo");
            assert_eq!(command.args(), [expected]);
        }
    }
    Ok(())
}

#[test]
fn command_escaped_arguments() -> Result<(), Error> {
    let cases = [
        (r#""aaa\"bbb""#, r#"aaa"bbb"#),
        (r#"aaa\"bbb"\"#, r#"aaa\bbb\"#),
        (r#"aaa\\"bbb\\"ccc"#, r"aaa\\bbb\ccc"),
        (r#"'aaa\''bbb'"#, r#"aaa\bbb"#),
        (r#"aaa\'bbb'\"#, r#"aaa\bbb\"#),
        (r#"aaa\\'bbb\\'ccc"#, r"aaa\\bbb\\ccc"),
    ];
    for (case, expected) in cases {
        let command = Command::new(&format!("echo {case}"))?;
        assert_eq!(command.program(), "echo");
        assert_eq!(command.args(), [expected]);
    }
    Ok(())
}

#[test]
fn empty_program() {
    for spacing in spacing_combinations().into_iter().chain([String::new()]) {
        assert!(matches!(Command::new(&spacing), Err(Error::EmptyProgram)));
    }
}

#[test]
fn non_matching_quotes() {
    for q in quotes() {
        let cases = [format!("{q}non closed"), format!("{q}closed{q}unquoted{q}non closed")];
        for case in cases {
            let source = format!("echo {case}");
            let res = Command::new(&source);
            if let Err(Error::MissingQuote(err_source, quote_type)) = res {
                assert_eq!(err_source, source);
                assert_eq!(quote_type, q);
            } else {
                panic!("should fail with missing quote: {source:?}\nresult: {res:#?}")
            };
        }
    }
}

#[test]
fn invalid_escape_sequences() {
    let cases = [' ', 'n', 't', '\''];
    for case in cases {
        let source = format!(r#"echo "\{case}""#);
        let res = Command::new(&source);
        if let Err(Error::InvalidEscapeSequence(err_source, character)) = res {
            assert_eq!(err_source, source);
            assert_eq!(character, case);
        } else {
            panic!("should fail with invalid escape sequence: {source:?}\nresult: {res:#?}")
        };
    }
}

#[test]
fn unterminated_escape_sequence() {
    let source = r#"echo "\"#;
    let res = Command::new(source);
    if let Err(Error::UnterminatedEscapeSequence(err_source)) = res {
        assert_eq!(err_source, source);
    } else {
        panic!("should fail with unterminated escape sequence: {source:?}\nresult: {res:#?}")
    };
}
