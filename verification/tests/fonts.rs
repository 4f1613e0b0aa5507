use iboardbot::fonts::{file_extension, font_file, validate_preference};

#[test]
fn ttf_preference_keeps_file_name() {
    assert_eq!(validate_preference(Some("Roboto.ttf".to_string())), Some("Roboto.ttf".to_string()));
    assert_eq!(validate_preference(Some("../../etc/Evil.ttf".to_string())), Some("Evil.ttf".to_string()));
}

#[test]
fn other_preferences_are_refused() {
    assert_eq!(validate_preference(None), None);
    assert_eq!(validate_preference(Some("font.otf".to_string())), None);
    assert_eq!(validate_preference(Some("ttf".to_string())), None);
    assert_eq!(validate_preference(Some(".ttf".to_string())), None);
}

#[test]
fn font_file_needs_ttf_and_name() {
    assert_eq!(font_file(Some("ttf".into()), Some("a.ttf".into())), Some("a.ttf".to_string()));
    assert_eq!(font_file(Some("TTF".into()), Some("a.TTF".into())), None);
    assert_eq!(font_file(None, Some("a".into())), None);
    assert_eq!(font_file(Some("ttf".into()), None), None);
}

#[test]
fn extensions_follow_the_last_dot() {
    assert_eq!(file_extension("Roboto.ttf"), Some("ttf".to_string()));
    assert_eq!(file_extension("archive.tar.gz"), Some("gz".to_string()));
    assert_eq!(file_extension("name."), Some(String::new()));
    assert_eq!(file_extension(".hidden"), None);
    assert_eq!(file_extension("..ttf"), Some("ttf".to_string()));
    assert_eq!(file_extension(".."), None);
    assert_eq!(file_extension("plain"), None);
    assert_eq!(file_extension(""), None);
}

#[test]
fn extensions_agree_with_std() {
    for name in ["Roboto.ttf", "archive.tar.gz", "name.", ".hidden", "..ttf", "plain", "a.b.c"] {
        let std_ext = std::path::Path::new(name).extension().map(|e| e.to_string_lossy().into_owned());
        assert_eq!(file_extension(name), std_ext, "{name}");
    }
}

#[test]
fn preferences_with_folders_keep_their_file_name() {
    let cases = [
        ("fonts/Roboto.ttf", Some("Roboto.ttf")),
        ("a.ttf/b.ttf", Some("b.ttf")),
        ("/usr/share/fonts/Serif.ttf/", Some("Serif.ttf")),
        ("dir/Mono.ttf/.", Some("Mono.ttf")),
        ("dir/./Mono.ttf", Some("Mono.ttf")),
        ("Mono.ttf/..", None),
        ("fonts/readme.txt", None),
        ("fonts/", None),
        ("/", None),
        ("./", None),
    ];
    for (given, expected) in cases {
        assert_eq!(validate_preference(Some(given.to_string())), expected.map(|s| s.to_string()), "{given}");
    }
}
