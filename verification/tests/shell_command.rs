use herdr::shell_command::{shell_command_from_argv, shell_quote};

#[test]
fn shell_command_from_argv_quotes_resume_arguments() {
    let argv = vec![
        "codex".to_string(),
        "--resume".to_string(),
        "session with ' quote".to_string(),
    ];

    assert_eq!(
        shell_command_from_argv(&argv).as_deref(),
        Some("codex --resume 'session with '\\'' quote'")
    );
    assert_eq!(shell_command_from_argv(&[]), None);
}

#[test]
fn plain_words_stay_as_they_are() {
    assert_eq!(shell_quote("az-AZ_09./:@%+="), "az-AZ_09./:@%+=");
}

#[test]
fn an_empty_word_is_quoted() {
    assert_eq!(shell_quote(""), "''");
    assert_eq!(
        shell_command_from_argv(&["run".to_string(), String::new()]).as_deref(),
        Some("run ''")
    );
}

#[test]
fn active_characters_are_quoted() {
    for (value, word) in [
        ("a b", "'a b'"),
        ("~", "'~'"),
        ("$HOME", "'$HOME'"),
        ("a\nb", "'a\nb'"),
        ("caf\u{e9}", "'caf\u{e9}'"),
        ("\\", "'\\'"),
        ("'", "''\\'''"),
        ("''", "''\\'''\\'''"),
    ] {
        assert_eq!(shell_quote(value), word);
    }
}

/// Reads words as a shell does, from single quotes, backslashes and blanks.
fn words(line: &str) -> Vec<String> {
    let mut words = Vec::new();
    let mut word: Option<String> = None;
    let mut quoted = false;
    let mut chars = line.chars();
    while let Some(ch) = chars.next() {
        if quoted {
            if ch == '\'' {
                quoted = false;
            } else {
                word.get_or_insert_with(String::new).push(ch);
            }
        } else if ch == '\'' {
            quoted = true;
            word.get_or_insert_with(String::new);
        } else if ch == '\\' {
            word.get_or_insert_with(String::new).push(chars.next().unwrap());
        } else if ch == ' ' {
            words.extend(word.take());
        } else {
            word.get_or_insert_with(String::new).push(ch);
        }
    }
    words.extend(word);
    words
}

#[test]
fn a_shell_reads_the_arguments_back() {
    let argv = ["/bin/sh", "-c", "printf '%s' 'a | b'; sleep 5", "", "'", "x y"]
        .map(str::to_owned)
        .to_vec();
    let line = shell_command_from_argv(&argv).unwrap();
    assert_eq!(words(&line), argv);
}
