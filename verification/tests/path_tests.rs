use fastgit::path::{
    join_path, name_less, name_start_of, path_starts_with, split_segments, to_chars,
};
use fastgit::text::{insert_char, remove_char, with_last, without_last};

fn chars(text: &str) -> Vec<char> {
    text.chars().collect()
}

#[test]
fn to_chars_gives_the_characters() {
    assert_eq!(to_chars("a/é"), vec!['a', '/', 'é']);
    assert_eq!(to_chars(""), Vec::<char>::new());
}

#[test]
fn split_segments_splits_at_separators() {
    assert_eq!(split_segments("src/main.rs"), vec!["src", "main.rs"]);
    assert_eq!(split_segments("a"), vec!["a"]);
}

#[test]
fn split_segments_passes_over_empty_runs() {
    assert_eq!(split_segments("a//b/"), vec!["a", "b"]);
    assert_eq!(split_segments("/a"), vec!["a"]);
    assert_eq!(split_segments(""), Vec::<String>::new());
    assert_eq!(split_segments("///"), Vec::<String>::new());
}

#[test]
fn split_segments_keeps_dots_and_other_characters() {
    assert_eq!(split_segments("./x"), vec![".", "x"]);
    assert_eq!(split_segments("dé/ü b"), vec!["dé", "ü b"]);
}

#[test]
fn join_path_puts_one_separator_between() {
    assert_eq!(join_path(".", "a"), "./a");
    assert_eq!(join_path("x/y", "a"), "x/y/a");
}

#[test]
fn join_path_adds_no_separator_to_an_empty_or_closed_parent() {
    assert_eq!(join_path("", "a"), "a");
    assert_eq!(join_path("/", "a"), "/a");
    assert_eq!(join_path("x/", "a"), "x/a");
}

#[test]
fn name_start_of_is_behind_the_last_separator() {
    assert_eq!(name_start_of(&chars("a/b/c.txt")), 4);
    assert_eq!(name_start_of(&chars("c.txt")), 0);
    assert_eq!(name_start_of(&chars("a/")), 2);
    assert_eq!(name_start_of(&chars("")), 0);
}

#[test]
fn name_less_compares_final_names_only() {
    assert!(name_less("z/a", "a/b"));
    assert!(!name_less("a/b", "z/a"));
    assert!(!name_less("x/a", "y/a"));
}

#[test]
fn name_less_is_lexicographic_by_character() {
    assert!(name_less("a", "ab"));
    assert!(!name_less("ab", "a"));
    assert!(name_less("B", "a"));
    assert!(name_less("ab", "b"));
    assert!(name_less("z", "é"));
    assert!(!name_less("", ""));
    assert!(name_less("", "a"));
}

#[test]
fn path_starts_with_wants_a_whole_segment() {
    assert!(path_starts_with(&chars("./src/main.rs"), "./src"));
    assert!(path_starts_with(&chars("./src"), "./src"));
    assert!(!path_starts_with(&chars("./srcx/main.rs"), "./src"));
    assert!(!path_starts_with(&chars("./sr"), "./src"));
    assert!(!path_starts_with(&chars("./lib/main.rs"), "./src"));
    assert!(path_starts_with(&chars("/a"), ""));
}

#[test]
fn insert_char_puts_the_character_at_the_place() {
    assert_eq!(insert_char("ac", 1, 'b'), "abc");
    assert_eq!(insert_char("bc", 0, 'a'), "abc");
    assert_eq!(insert_char("ab", 2, 'c'), "abc");
    assert_eq!(insert_char("ab", 9, 'c'), "abc");
    assert_eq!(insert_char("hé", 2, '!'), "hé!");
    assert_eq!(insert_char("éé", 1, 'x'), "éxé");
}

#[test]
fn remove_char_takes_the_character_out() {
    assert_eq!(remove_char("abc", 1), "ac");
    assert_eq!(remove_char("abc", 0), "bc");
    assert_eq!(remove_char("abc", 2), "ab");
    assert_eq!(remove_char("abc", 3), "abc");
    assert_eq!(remove_char("héllo", 1), "hllo");
}

#[test]
fn with_last_and_without_last_work_at_the_end() {
    assert_eq!(with_last("ab", 'c'), "abc");
    assert_eq!(with_last("", 'é'), "é");
    assert_eq!(without_last("abc"), "ab");
    assert_eq!(without_last("aé"), "a");
    assert_eq!(without_last(""), "");
}
