use aurorus::pacman::{bare_name, parse_installed, split_lines};

#[test]
fn search_output_is_split_into_lines() {
    let out = "core/zlib 1.3-1 [installed]\n    Compression library\nextra/zlib-ng 2.1-1\n";
    assert_eq!(
        split_lines(out),
        vec!["core/zlib 1.3-1 [installed]", "    Compression library", "extra/zlib-ng 2.1-1"]
    );
    assert_eq!(split_lines(""), Vec::<String>::new());
}

#[test]
fn installed_list_gives_name_and_version() {
    let list = parse_installed("yay 12.3.5-1\nparu-bin 2.0.3-1\n");
    assert_eq!(list.len(), 2);
    assert_eq!(list[0].name, "yay");
    assert_eq!(list[0].installed_version, "12.3.5-1");
    assert_eq!(list[1].name, "paru-bin");
    assert_eq!(list[1].installed_version, "2.0.3-1");
}

#[test]
fn installed_list_skips_short_lines() {
    let list = parse_installed("\nlonely\n  a   1.0   extra words\n   \nb 2");
    assert_eq!(list.len(), 2);
    assert_eq!(list[0].name, "a");
    assert_eq!(list[0].installed_version, "1.0");
    assert_eq!(list[1].name, "b");
    assert_eq!(list[1].installed_version, "2");
    assert!(parse_installed("").is_empty());
}

#[test]
fn repository_is_cut_off_the_name() {
    assert_eq!(bare_name("core/zlib"), "zlib");
    assert_eq!(bare_name("zlib"), "zlib");
    assert_eq!(bare_name("a/b/c"), "c");
    assert_eq!(bare_name("trailing/"), "");
    assert_eq!(bare_name(""), "");
}
