use dbmanager::connection::parse_sqlite_type;

#[test]
fn varchar_with_length() {
    assert_eq!(parse_sqlite_type("VARCHAR(255)"), ("VARCHAR", Some(255)));
}

#[test]
fn integer_without_length() {
    assert_eq!(parse_sqlite_type("INTEGER"), ("INTEGER", None));
}

#[test]
fn empty_parentheses_fall_back_to_whole_string() {
    assert_eq!(parse_sqlite_type("TEXT()"), ("TEXT()", None));
}

#[test]
fn non_numeric_length_falls_back_to_whole_string() {
    assert_eq!(parse_sqlite_type("TEXT(abc)"), ("TEXT(abc)", None));
}

#[test]
fn signed_lengths_parse() {
    assert_eq!(parse_sqlite_type("CHAR(+5)"), ("CHAR", Some(5)));
    assert_eq!(parse_sqlite_type("NUM(-3)"), ("NUM", Some(-3)));
}

#[test]
fn sign_alone_is_not_a_length() {
    assert_eq!(parse_sqlite_type("CHAR(-)"), ("CHAR(-)", None));
    assert_eq!(parse_sqlite_type("CHAR(+)"), ("CHAR(+)", None));
}

#[test]
fn oversized_length_falls_back_to_whole_string() {
    assert_eq!(
        parse_sqlite_type("VARCHAR(99999999999)"),
        ("VARCHAR(99999999999)", None)
    );
    assert_eq!(parse_sqlite_type("X(2147483648)"), ("X(2147483648)", None));
}

#[test]
fn extreme_lengths_at_the_type_bounds() {
    assert_eq!(parse_sqlite_type("X(2147483647)"), ("X", Some(2147483647)));
    assert_eq!(parse_sqlite_type("X(-2147483648)"), ("X", Some(-2147483648)));
}

#[test]
fn close_paren_before_open_paren_is_no_length() {
    assert_eq!(parse_sqlite_type("a)b(c)"), ("a)b(c)", None));
}

#[test]
fn only_the_first_parenthesis_pair_counts() {
    assert_eq!(parse_sqlite_type("DECIMAL(10)(20)"), ("DECIMAL", Some(10)));
}

#[test]
fn empty_string_is_its_own_base_type() {
    assert_eq!(parse_sqlite_type(""), ("", None));
}

#[test]
fn non_ascii_digits_are_not_lengths() {
    assert_eq!(parse_sqlite_type("X(٥)"), ("X(٥)", None));
}
