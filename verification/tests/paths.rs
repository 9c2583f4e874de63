use memprobe::paths::{get_default_paths, join_relative, CORE_LIBRARY, FIRST_LEVEL, GAME_DIRECTORY};
use std::path::PathBuf;

#[test]
fn default_files_below_a_home_directory() {
    assert_eq!(
        get_default_paths("/home/user"),
        (
            String::from(
                "/home/user/.local/share/Steam/steamapps/common/hackmud/hackmud_lin_Data/Managed/Core.dll"
            ),
            String::from(
                "/home/user/.local/share/Steam/steamapps/common/hackmud/hackmud_lin_Data/level0"
            ),
        )
    );
}

#[test]
fn join_adds_a_separator_where_one_is_missing() {
    assert_eq!(join_relative("/home/user", "a/b"), "/home/user/a/b");
    assert_eq!(join_relative("/home/user/", "a/b"), "/home/user/a/b");
    assert_eq!(join_relative("/", "a"), "/a");
    assert_eq!(join_relative("", "a/b"), "a/b");
    assert_eq!(join_relative("relative", "a"), "relative/a");
    assert_eq!(join_relative("/home/user", ""), "/home/user/");
}

#[test]
fn join_agrees_with_the_standard_library() {
    for base in ["", "/", "/home/user", "/home/user/", "home", "/h\u{e9}/", "//", "a/b/c"] {
        for relative in ["x", "x/y", ".local/share", GAME_DIRECTORY, CORE_LIBRARY, FIRST_LEVEL] {
            let expected = PathBuf::from(base).join(relative);
            assert_eq!(
                PathBuf::from(join_relative(base, relative)),
                expected,
                "{:?} and {:?}",
                base,
                relative
            );
            assert_eq!(Some(join_relative(base, relative).as_str()), expected.to_str());
        }
    }
}

#[test]
fn default_files_agree_with_the_standard_library() {
    for home in ["/home/user", "/home/user/", "/", "", "/root"] {
        let game = PathBuf::from(home).join(".local/share/Steam/steamapps/common/hackmud");
        let (core, level) = get_default_paths(home);
        assert_eq!(PathBuf::from(core), game.join("hackmud_lin_Data/Managed/Core.dll"));
        assert_eq!(PathBuf::from(level), game.join("hackmud_lin_Data/level0"));
    }
}
