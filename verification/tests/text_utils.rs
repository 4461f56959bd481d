use dbmanager::connection::{is_internal_name, normalize_table_names};
use dbmanager::text::{base_name, sort_strings, str_eq, str_le};

#[test]
fn base_name_of_ordinary_paths() {
    assert_eq!(base_name("/tmp/test.db"), Some("test.db".to_string()));
    assert_eq!(base_name("nested/dir/file"), Some("file".to_string()));
    assert_eq!(base_name("test.db"), Some("test.db".to_string()));
}

#[test]
fn base_name_ignores_trailing_separators() {
    assert_eq!(base_name("a/"), Some("a".to_string()));
    assert_eq!(base_name("/tmp/test.db/"), Some("test.db".to_string()));
    assert_eq!(base_name("a///"), Some("a".to_string()));
}

#[test]
fn base_name_skips_a_final_current_directory_component() {
    assert_eq!(base_name("a/."), Some("a".to_string()));
    assert_eq!(base_name("a/.//."), Some("a".to_string()));
    assert_eq!(base_name("./a"), Some("a".to_string()));
}

#[test]
fn base_name_missing_for_empty_roots_and_parent_components() {
    assert_eq!(base_name(""), None);
    assert_eq!(base_name("/"), None);
    assert_eq!(base_name("."), None);
    assert_eq!(base_name(".."), None);
    assert_eq!(base_name("a/.."), None);
    assert_eq!(base_name("a/../"), None);
}

#[test]
fn base_name_keeps_names_that_merely_contain_dots() {
    assert_eq!(base_name("..."), Some("...".to_string()));
    assert_eq!(base_name("a.."), Some("a..".to_string()));
    assert_eq!(base_name(".hidden"), Some(".hidden".to_string()));
}

#[test]
fn string_equality_is_by_characters() {
    assert!(str_eq("abc", "abc"));
    assert!(!str_eq("abc", "abd"));
    assert!(!str_eq("abc", "ab"));
    assert!(str_eq("", ""));
}

#[test]
fn string_order_is_lexicographic() {
    assert!(str_le("alpha", "beta"));
    assert!(!str_le("beta", "alpha"));
    assert!(str_le("ab", "abc"));
    assert!(!str_le("abc", "ab"));
    assert!(str_le("same", "same"));
    assert!(str_le("", "anything"));
}

#[test]
fn sorting_orders_ascending_and_keeps_everything() {
    let sorted = sort_strings(vec![
        "pear".to_string(),
        "apple".to_string(),
        "orange".to_string(),
        "apple".to_string(),
    ]);
    assert_eq!(sorted, vec!["apple", "apple", "orange", "pear"]);
}

#[test]
fn comparison_and_base_names_handle_multibyte_characters() {
    // 'z' has a smaller code point than 'é', so it sorts first.
    assert!(str_le("z", "é"));
    assert!(!str_le("é", "z"));
    assert_eq!(
        sort_strings(vec!["é".to_string(), "z".to_string()]),
        vec!["z", "é"]
    );
    assert_eq!(base_name("/tmp/таблицы.db"), Some("таблицы.db".to_string()));
}

#[test]
fn internal_table_names_are_recognized() {
    assert!(is_internal_name("sqlite_sequence"));
    assert!(is_internal_name("sqlite_"));
    assert!(!is_internal_name("sqlite"));
    assert!(!is_internal_name("users"));
}

#[test]
fn normalizing_drops_internal_names_and_sorts() {
    let names = vec![
        "zeta".to_string(),
        "sqlite_sequence".to_string(),
        "alpha".to_string(),
    ];
    assert_eq!(normalize_table_names(names), vec!["alpha", "zeta"]);
}
