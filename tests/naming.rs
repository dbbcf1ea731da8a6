use partsinstall::extension::{
    file_extension, is_archive, is_archive_extension, is_numeric, is_numeric_extension,
    numeric_extension, split_extension,
};
use partsinstall::text::{contains, decimal_string, eq_ignore_ascii_case, parse_bounded, split_by};
use partsinstall::{
    answer_is, check_name, find_app_name, name_has_keywords, prompt_user_for_usize,
    resolve_file_name, PathKind,
};

#[test]
fn test_archive_ext() {
    let archive = "test.7z";
    assert!(is_archive(archive));

    let cased_archive = "test.7Z";
    assert!(is_archive(cased_archive));

    let cased_archive2 = "test.zIP";
    assert!(is_archive(cased_archive2));

    let multi_ext_archive = "test.app.7z";
    assert!(is_archive(multi_ext_archive));

    let multi_ext_not_archive = "test.app.exe";
    assert!(!is_archive(multi_ext_not_archive));

    let empty = "";
    assert!(!is_archive(empty));

    let no_extension = "test";
    assert!(!is_archive(no_extension));

    let not_archive = "test.txt";
    assert!(!is_archive(not_archive));
}

#[test]
fn test_numeric_ext() {
    let numeric = "a.003";
    assert!(is_numeric(numeric));

    let non_numeric = "a.abc";
    assert!(!is_numeric(non_numeric));

    let empty = "";
    assert!(!is_numeric(empty));
}

#[test]
fn archive_extension_ignores_case() {
    assert!(is_archive_extension("7Z"));
    assert!(is_archive_extension("zip"));
    assert!(is_archive_extension("RAR"));
    assert!(is_archive_extension("TgZ"));
    assert!(!is_archive_extension(""));
    assert!(!is_archive_extension("exe"));
    assert!(!is_archive_extension("7zz"));
}

#[test]
fn numeric_extension_reads_u32() {
    assert!(is_numeric_extension("001"));
    assert!(is_numeric_extension("042"));
    assert!(is_numeric_extension("+5"));
    assert!(is_numeric_extension("4294967295"));
    assert!(!is_numeric_extension("4294967296"));
    assert!(!is_numeric_extension("abc"));
    assert!(!is_numeric_extension(""));
    assert!(!is_numeric_extension("+"));
    assert!(!is_numeric_extension("-1"));
    assert!(!is_numeric_extension("1a"));
}

#[test]
fn missing_extension_is_neither() {
    assert!(!is_archive("archive"));
    assert!(!is_numeric("archive"));
    assert!(!is_archive(".7z"));
    assert!(!is_numeric(".001"));
}

#[test]
fn parse_bounded_values() {
    assert_eq!(parse_bounded("0", 10), Some(0));
    assert_eq!(parse_bounded("007", 10), Some(7));
    assert_eq!(parse_bounded("11", 10), None);
    assert_eq!(parse_bounded("18446744073709551615", u64::MAX), Some(u64::MAX));
    assert_eq!(parse_bounded("18446744073709551616", u64::MAX), None);
    assert_eq!(parse_bounded("99999999999999999999x", u64::MAX), None);
}

#[test]
fn split_extension_follows_path_rules() {
    assert_eq!(split_extension("App.7z.001"), ("App.7z".to_string(), Some("001".to_string())));
    assert_eq!(split_extension("App"), ("App".to_string(), None));
    assert_eq!(split_extension(".profile"), (".profile".to_string(), None));
    assert_eq!(split_extension(".."), ("..".to_string(), None));
    assert_eq!(split_extension("a."), ("a".to_string(), Some(String::new())));
}

#[test]
fn file_extension_takes_final_component() {
    assert_eq!(file_extension("dir.7z/readme"), None);
    assert_eq!(file_extension("dir/App.7z.002"), Some("002".to_string()));
    assert_eq!(numeric_extension("dir.001/App.7z.012"), Some(12));
    assert_eq!(numeric_extension("dir.001/App.7z"), None);
}

#[test]
fn resolve_strips_number_then_archive() {
    assert_eq!(resolve_file_name("App.7z.001"), "App");
    assert_eq!(resolve_file_name("App.7z.007"), "App");
    assert_eq!(resolve_file_name("App.zip"), "App");
    assert_eq!(resolve_file_name("App.exe"), "App.exe");
    assert_eq!(resolve_file_name("App.001"), "App");
    assert_eq!(resolve_file_name("My.App.rar.010"), "My.App");
    assert_eq!(resolve_file_name("...001"), "..");
}

#[test]
fn missing_path_keeps_its_file_name() {
    assert_eq!(find_app_name("App.7z.001", PathKind::Missing), Some("App.7z.001".to_string()));
    assert_eq!(find_app_name("some/dir/Test.App", PathKind::Missing), Some("Test.App".to_string()));
}

#[test]
fn directory_keeps_its_dots() {
    assert_eq!(find_app_name("Test.App", PathKind::Directory), Some("Test.App".to_string()));
    assert_eq!(find_app_name("apps/App.7z/", PathKind::Directory), Some("App.7z".to_string()));
}

#[test]
fn existing_part_names_its_app() {
    assert_eq!(find_app_name("downloads/App.7z.007", PathKind::File), Some("App".to_string()));
    assert_eq!(find_app_name("App.7z", PathKind::File), Some("App".to_string()));
}

#[test]
fn path_without_file_name_has_no_app_name() {
    assert_eq!(find_app_name("/", PathKind::Directory), None);
    assert_eq!(find_app_name("a/..", PathKind::Missing), None);
    assert_eq!(find_app_name("", PathKind::Missing), None);
}

#[test]
fn check_name_looks_at_final_component() {
    let keywords = split_by("Some App", ' ');
    assert!(check_name(&keywords, "install/SomeTool.exe"));
    assert!(check_name(&keywords, "install/MyApp.exe"));
    assert!(!check_name(&keywords, "App/tool.exe"));
    assert!(!check_name(&keywords, "/"));
    assert!(name_has_keywords(&keywords, "AppData"));
    assert!(!name_has_keywords(&Vec::new(), "AppData"));
}

#[test]
fn choice_prompt_accepts_one_to_max() {
    assert_eq!(prompt_user_for_usize("2", 3), Some(2));
    assert_eq!(prompt_user_for_usize("3", 3), Some(3));
    assert_eq!(prompt_user_for_usize("1", 1), Some(1));
    assert_eq!(prompt_user_for_usize("0", 3), None);
    assert_eq!(prompt_user_for_usize("4", 3), None);
    assert_eq!(prompt_user_for_usize("two", 3), None);
    assert_eq!(prompt_user_for_usize("", 3), None);
}

#[test]
fn answers_ignore_case() {
    assert!(answer_is("y", 'y'));
    assert!(answer_is("Y", 'y'));
    assert!(answer_is("G", 'g'));
    assert!(!answer_is("n", 'y'));
    assert!(!answer_is("yes", 'y'));
    assert!(!answer_is("", 'y'));
}

#[test]
fn text_helpers() {
    assert!(contains("App.7z.001", "7z"));
    assert!(contains("abc", ""));
    assert!(!contains("ab", "abc"));
    assert!(!contains("abcab", "ac"));
    assert!(eq_ignore_ascii_case("ZiP", "zip"));
    assert!(!eq_ignore_ascii_case("zipx", "zip"));
    assert_eq!(split_by("a..b", '.'), vec!["a", "", "b"]);
    assert_eq!(split_by("", '.'), vec![""]);
    assert_eq!(decimal_string(0), "0");
    assert_eq!(decimal_string(1234), "1234");
}
