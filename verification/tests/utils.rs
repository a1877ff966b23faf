use bullrs::utils::{
    ensure_ext, get_path_hash, is_possibly_mapped_path, remove_empty_lines, replace_all, sha1_hex,
    split_filename, split_stem,
};

#[test]
fn sha1_of_known_text() {
    assert_eq!(sha1_hex("abc"), "a9993e364706816aba3e25717850c26c9cd0d89d");
    assert_eq!(sha1_hex(""), "da39a3ee5e6b4b0d3255bfef95601890afd80709");
}

#[test]
fn path_hash_prefixes_digest() {
    assert_eq!(get_path_hash("abc"), "@@a9993e364706816aba3e25717850c26c9cd0d89d");
}

#[test]
fn ensure_ext_adds_missing_extension() {
    assert_eq!(ensure_ext("script", "lua"), "script.lua");
    assert_eq!(ensure_ext("script", ".lua"), "script.lua");
    assert_eq!(ensure_ext("dir/script.lua", "lua"), "dir/script.lua");
    assert_eq!(ensure_ext("dir/script.txt", "lua"), "dir/script.txt");
    assert_eq!(ensure_ext("script.", "lua"), "script..lua");
    assert_eq!(ensure_ext(".hidden", "lua"), ".hidden.lua");
}

#[test]
fn split_filename_reads_key_count() {
    assert_eq!(split_filename("/commands/addJob-6.lua"), ("addJob".to_string(), Some(6)));
    assert_eq!(split_filename("pause-+3.lua"), ("pause".to_string(), Some(3)));
    assert_eq!(split_filename("commands/name.lua"), ("name".to_string(), None));
    assert_eq!(split_filename("a-b.lua"), ("a-b".to_string(), None));
    assert_eq!(split_filename("x-.lua"), ("x-".to_string(), None));
    assert_eq!(split_filename("x-99999999999999999999999.lua"), ("x-99999999999999999999999".to_string(), None));
    assert_eq!(split_filename(""), ("".to_string(), None));
    assert_eq!(split_stem("move-to-active-2"), ("move-to-active".to_string(), Some(2)));
}

#[test]
fn remove_empty_lines_strips_leading_blank_lines() {
    assert_eq!(remove_empty_lines("\n\n  foo\nbar"), "  foo\nbar");
    assert_eq!(remove_empty_lines("\r\nx\n\ny"), "x\n\ny");
    assert_eq!(remove_empty_lines("  \t"), "  \t");
    assert_eq!(remove_empty_lines("a\n\nb"), "a\n\nb");
    assert_eq!(remove_empty_lines(""), "");
}

#[test]
fn replace_all_replaces_left_to_right() {
    assert_eq!(replace_all("aaa", "a", "b"), "bbb");
    assert_eq!(replace_all("aaaa", "aa", "x"), "xx");
    assert_eq!(replace_all("aaa", "aa", "x"), "xa");
    assert_eq!(replace_all("abc", "", "-"), "-a-b-c-");
    assert_eq!(replace_all("abc", "zz", "y"), "abc");
    assert_eq!(replace_all("héllo wörld", "ö", "o"), "héllo world");
}

#[test]
fn replacing_a_pattern_by_itself_changes_nothing() {
    assert_eq!(replace_all("abcabc", "bc", "bc"), "abcabc");
}

#[test]
fn possibly_mapped_paths() {
    assert!(is_possibly_mapped_path("~/x"));
    assert!(is_possibly_mapped_path("<includes>/x.lua"));
    assert!(!is_possibly_mapped_path(""));
    assert!(!is_possibly_mapped_path("/tmp/x"));
}

#[test]
fn removing_blank_lines_twice_is_removing_once() {
    for text in ["\n \n  x\n\ny", " \t\r\n\u{a0}\n z", "plain", "\n\n\n"] {
        let once = remove_empty_lines(text);
        assert_eq!(remove_empty_lines(&once), once);
    }
    assert_eq!(remove_empty_lines(" \t\r\n\u{a0}\n z"), " z");
}
