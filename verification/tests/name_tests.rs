use zsh_history_backup::name::{clean_log_value, parse_name};

#[test]
fn plain_names_are_kept() {
    assert_eq!(parse_name("before-upgrade"), Ok("before-upgrade".to_string()));
    assert_eq!(parse_name("project_debug.v2"), Ok("project_debug.v2".to_string()));
    assert_eq!(parse_name("sunday"), Ok("sunday".to_string()));
}

#[test]
fn spaces_become_single_dashes() {
    assert_eq!(parse_name("  hello   world  "), Ok("hello-world".to_string()));
    assert_eq!(parse_name("a\tb"), Ok("a-b".to_string()));
    assert_eq!(parse_name("a - b"), Ok("a--b".to_string()));
    assert_eq!(parse_name("a- b"), Ok("a-b".to_string()));
}

#[test]
fn unicode_letters_and_digits_are_kept() {
    assert_eq!(parse_name("日本 語"), Ok("日本-語".to_string()));
    assert_eq!(parse_name("café٣"), Ok("café٣".to_string()));
}

#[test]
fn empty_names_are_refused() {
    assert_eq!(parse_name(""), Err("name cannot be empty".to_string()));
    assert_eq!(parse_name(" \t "), Err("name cannot be empty".to_string()));
}

#[test]
fn long_names_are_refused() {
    let eighty = "a".repeat(80);
    assert_eq!(parse_name(&eighty), Ok(eighty.clone()));
    assert_eq!(
        parse_name(&"a".repeat(81)),
        Err("name cannot exceed 80 characters".to_string())
    );
    let padded = format!("  {eighty}  ");
    assert_eq!(parse_name(&padded), Ok(eighty));
}

#[test]
fn hidden_names_are_refused() {
    assert_eq!(parse_name(".hidden"), Err("name cannot start with a dot".to_string()));
    assert_eq!(parse_name("  ..  "), Err("name cannot start with a dot".to_string()));
    assert_eq!(parse_name("."), Err("name cannot start with a dot".to_string()));
}

#[test]
fn path_separators_are_refused() {
    assert_eq!(
        parse_name("a/b"),
        Err("name contains unsupported character: '/'; use letters, numbers, spaces, dot, dash, or underscore".to_string())
    );
    assert_eq!(
        parse_name("..\\x"),
        Err("name cannot start with a dot".to_string())
    );
    assert_eq!(
        parse_name("x\\y"),
        Err("name contains unsupported character: '\\\\'; use letters, numbers, spaces, dot, dash, or underscore".to_string())
    );
    assert_eq!(
        parse_name("a\nb"),
        Ok("a-b".to_string())
    );
    assert_eq!(
        parse_name("a:b"),
        Err("name contains unsupported character: ':'; use letters, numbers, spaces, dot, dash, or underscore".to_string())
    );
}

#[test]
fn log_values_are_put_on_one_line() {
    assert_eq!(clean_log_value("a\nb\tc\rd"), "a b c d");
    assert_eq!(clean_log_value("plain value"), "plain value");
    assert_eq!(clean_log_value(""), "");
    assert_eq!(clean_log_value("é\n"), "é ");
}

#[test]
fn accepted_names_are_accepted_again_unchanged() {
    for value in ["  hello   world  ", "日本 語", "a - b", "x_y.z", "café\u{00A0}crème"] {
        let once = parse_name(value).unwrap();
        assert_eq!(parse_name(&once), Ok(once.clone()));
        assert!(!once.chars().any(char::is_whitespace));
    }
}
