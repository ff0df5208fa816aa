use articles_image_service::common::CommonError;
use articles_image_service::utils::generate_random_name;
use articles_image_service::utils::result_file_name;
use articles_image_service::utils::split_on;
use articles_image_service::utils::split_path_str_to_folder_names;
use articles_image_service::utils::str_contains_char;

#[test]
fn splits_on_forward_slash() {
    assert_eq!(split_path_str_to_folder_names("a/b/c"), vec!["a", "b", "c"]);
}

#[test]
fn splits_on_backslash_when_no_slash() {
    assert_eq!(split_path_str_to_folder_names("a\\b"), vec!["a", "b"]);
}

#[test]
fn whole_string_is_one_folder_without_separator() {
    assert_eq!(split_path_str_to_folder_names("plain"), vec!["plain"]);
}

#[test]
fn splits_on_triple_tab_without_slashes() {
    assert_eq!(split_path_str_to_folder_names("a\t\t\tb"), vec!["a", "b"]);
}

#[test]
fn adjacent_separators_give_empty_folders() {
    assert_eq!(split_path_str_to_folder_names("/a//"), vec!["", "a", "", ""]);
}

#[test]
fn split_on_takes_leftmost_occurrences_first() {
    assert_eq!(split_on("\t\t\t\t", "\t\t\t"), vec!["", "\t"]);
    assert_eq!(split_on("xabxxab", "ab"), vec!["x", "xx", ""]);
}

#[test]
fn contains_char_scans_the_whole_string() {
    assert!(str_contains_char("a/b", '/'));
    assert!(!str_contains_char("ab", '/'));
    assert!(!str_contains_char("", 'x'));
}

#[test]
fn random_names_have_the_asked_length_and_charset() {
    for len in [0usize, 1, 15, 40] {
        let name = generate_random_name(len);
        assert_eq!(name.chars().count(), len);
        assert!(name.chars().all(|c| c.is_ascii_alphanumeric()));
    }
}

#[test]
fn result_file_name_appends_the_extension() {
    assert_eq!(result_file_name("photo"), "photo.jpg");
    assert_eq!(result_file_name(""), ".jpg");
}

#[test]
fn common_error_carries_its_message() {
    let err = CommonError::IllegalArgument("bad path".to_string());
    assert_eq!(err.message(), "bad path");
}
