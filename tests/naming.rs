use dove_sync::sanitize::{dot_separators, url_file_name};
use dove_sync::shard::{file_name, file_stem, get_release_for_file, release_for_path, to_ascii_lower};

#[test]
fn shard_key_of_three_letter_stem_is_middle() {
    assert_eq!(get_release_for_file("abc.png"), "b");
}

#[test]
fn shard_key_of_empty_stem_is_other() {
    assert_eq!(get_release_for_file(".png"), "other");
    assert_eq!(get_release_for_file(""), "other");
}

#[test]
fn shard_key_of_non_alphanumeric_middle_is_other() {
    assert_eq!(get_release_for_file("a_b.png"), "other");
    assert_eq!(get_release_for_file("a.b.c"), "other");
}

#[test]
fn shard_key_is_lower_cased() {
    assert_eq!(get_release_for_file("ABC.png"), "b");
    assert_eq!(get_release_for_file("xQz.jpg"), "q");
}

#[test]
fn shard_key_of_even_length_stem() {
    assert_eq!(get_release_for_file("abcd.x"), "b");
    assert_eq!(get_release_for_file("ab.x"), "a");
}

#[test]
fn shard_key_without_extension_uses_whole_name() {
    assert_eq!(get_release_for_file("hello"), "l");
    assert_eq!(get_release_for_file("x"), "x");
}

#[test]
fn shard_key_of_digit() {
    assert_eq!(get_release_for_file("a7b.dat"), "7");
}

#[test]
fn shard_key_of_non_ascii_middle_is_other() {
    assert_eq!(get_release_for_file("日本語.png"), "other");
}

#[test]
fn shard_key_depends_on_stem_only() {
    assert_eq!(get_release_for_file("castle.png"), get_release_for_file("castle.ogg"));
    assert_eq!(get_release_for_file("castle.png"), get_release_for_file("castle.png"));
    assert_eq!(get_release_for_file("castle.png"), "s");
}

#[test]
fn release_for_path_uses_file_name() {
    assert_eq!(release_for_path("images/sub/xyz.png"), "y");
    assert_eq!(release_for_path("a.b/c"), "c");
}

#[test]
fn file_name_and_stem() {
    assert_eq!(file_name("images/sub/xyz.png"), "xyz.png");
    assert_eq!(file_name("plain.txt"), "plain.txt");
    assert_eq!(file_name("dir/"), "");
    assert_eq!(file_stem("archive.tar.gz"), "archive.tar");
    assert_eq!(file_stem("README"), "README");
}

#[test]
fn ascii_lowering() {
    assert_eq!(to_ascii_lower('A'), 'a');
    assert_eq!(to_ascii_lower('Z'), 'z');
    assert_eq!(to_ascii_lower('a'), 'a');
    assert_eq!(to_ascii_lower('['), '[');
    assert_eq!(to_ascii_lower('É'), 'É');
}

#[test]
fn sanitizes_brackets_parens_and_spaces() {
    assert_eq!(url_file_name("Foo [HD] (v2).png").unwrap(), "Foo.HD.v2.png");
}

#[test]
fn sanitizes_apostrophes() {
    assert_eq!(url_file_name("Tom's file.png").unwrap(), "Tom.s.file.png");
}

#[test]
fn sanitize_collapses_dot_runs() {
    assert_eq!(url_file_name("a...b..png").unwrap(), "a.b.png");
    assert_eq!(url_file_name("plain.png").unwrap(), "plain.png");
}

#[test]
fn sanitize_leaves_empty_brackets() {
    assert_eq!(url_file_name("a[]b.png").unwrap(), "a[]b.png");
}

#[test]
fn dot_separators_replaces_exactly_spaces_and_apostrophes() {
    assert_eq!(dot_separators("a b'c"), "a.b.c");
    assert_eq!(dot_separators("Foo .HD. .v2..png"), "Foo..HD...v2..png");
    assert_eq!(dot_separators(""), "");
    assert_eq!(dot_separators("x_y"), "x_y");
}
