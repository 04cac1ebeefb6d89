use rename_files::name::{announce, dated_name, decimal_text, numbered_name, path_in, split_name};

#[test]
fn split_at_first_dot() {
    assert_eq!(split_name("a.txt"), ("a".to_string(), ".txt".to_string()));
    assert_eq!(split_name("archive.tar.gz"), ("archive".to_string(), ".tar.gz".to_string()));
}

#[test]
fn split_without_dot_has_empty_extension() {
    assert_eq!(split_name("README"), ("README".to_string(), String::new()));
    assert_eq!(split_name(""), (String::new(), String::new()));
}

#[test]
fn split_dotfile_and_trailing_dot() {
    assert_eq!(split_name(".bashrc"), (String::new(), ".bashrc".to_string()));
    assert_eq!(split_name("name."), ("name".to_string(), ".".to_string()));
    assert_eq!(split_name("."), (String::new(), ".".to_string()));
    assert_eq!(split_name(".."), (String::new(), "..".to_string()));
}

#[test]
fn split_counts_characters_not_bytes() {
    assert_eq!(split_name("été.jpeg"), ("été".to_string(), ".jpeg".to_string()));
    assert_eq!(split_name("日本語.テキスト"), ("日本語".to_string(), ".テキスト".to_string()));
}

#[test]
fn split_parts_join_to_the_name() {
    for name in ["a.txt", "README", ".hidden", "x.y.z", "trailing.", "no dot at all", ""] {
        let (base, extension) = split_name(name);
        assert_eq!(format!("{base}{extension}"), name);
        assert!(!base.contains('.'));
        assert_eq!(extension.is_empty(), !name.contains('.'));
    }
}

#[test]
fn decimal_text_of_small_and_large_numbers() {
    assert_eq!(decimal_text(0), "0");
    assert_eq!(decimal_text(7), "7");
    assert_eq!(decimal_text(9), "9");
    assert_eq!(decimal_text(10), "10");
    assert_eq!(decimal_text(99), "99");
    assert_eq!(decimal_text(100), "100");
    assert_eq!(decimal_text(1234567890), "1234567890");
    assert_eq!(decimal_text(usize::MAX), format!("{}", usize::MAX));
}

#[test]
fn decimal_text_agrees_with_std() {
    for n in 0..2000usize {
        assert_eq!(decimal_text(n), format!("{n}"));
    }
}

#[test]
fn numbered_name_joins_prefix_index_extension() {
    assert_eq!(numbered_name("file", 0, "a.txt"), "file0.txt");
    assert_eq!(numbered_name("file", 1, "b.png"), "file1.png");
    assert_eq!(numbered_name("img", 12, "x.tar.gz"), "img12.tar.gz");
    assert_eq!(numbered_name("", 3, "x.c"), "3.c");
}

#[test]
fn numbered_name_without_extension_has_no_dot() {
    assert_eq!(numbered_name("file", 0, "README"), "file0");
}

#[test]
fn dated_name_has_a_space_after_the_prefix() {
    assert_eq!(
        dated_name("photo", "2020-01-01 00:00:00", "a.txt"),
        "photo 2020-01-01 00:00:00.txt"
    );
    assert_eq!(dated_name("photo", "2020-01-01 00:00:00", "README"), "photo 2020-01-01 00:00:00");
    assert_eq!(dated_name("", "s", "a.b.c"), " s.b.c");
}

#[test]
fn path_in_joins_with_a_slash() {
    assert_eq!(path_in("/tmp/dir", "a.txt"), "/tmp/dir/a.txt");
    assert_eq!(path_in("dir/", "a"), "dir//a");
    assert_eq!(path_in("", "a"), "/a");
}

#[test]
fn announce_puts_an_arrow_between() {
    assert_eq!(announce("d/a.txt", "d/file0.txt"), "d/a.txt -> d/file0.txt");
    assert_eq!(announce("", ""), " -> ");
}
