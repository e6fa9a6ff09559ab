use limitless::prefs::{prefs_beside_game_path, rewrite_prefs, split_lines, window_size_dimensions};

#[test]
fn named_window_sizes() {
    assert_eq!(window_size_dimensions("small"), (800, 600));
    assert_eq!(window_size_dimensions("medium"), (1024, 768));
    assert_eq!(window_size_dimensions("large"), (1920, 1080));
    assert_eq!(window_size_dimensions("2k_4"), (1280, 670));
    assert_eq!(window_size_dimensions("2k_2"), (1280, 1370));
    assert_eq!(window_size_dimensions("2k_full"), (2560, 1440));
    assert_eq!(window_size_dimensions("huge"), (800, 600));
    assert_eq!(window_size_dimensions(""), (800, 600));
}

#[test]
fn custom_window_sizes() {
    assert_eq!(window_size_dimensions("custom_1366x768"), (1366, 768));
    assert_eq!(window_size_dimensions("custom_custom_640x480"), (640, 480));
    assert_eq!(window_size_dimensions("custom_abcx480"), (800, 480));
    assert_eq!(window_size_dimensions("custom_640xabc"), (640, 600));
    assert_eq!(window_size_dimensions("custom_640x480x1"), (800, 600));
    assert_eq!(window_size_dimensions("custom_640"), (800, 600));
    assert_eq!(window_size_dimensions("custom_-5x+7"), (-5, 7));
    assert_eq!(window_size_dimensions("custom_99999999999x1"), (800, 1));
}

#[test]
fn prefs_location() {
    assert!(prefs_beside_game_path("C:\\Games\\IKV", true));
    assert!(prefs_beside_game_path("C:\\Games\\IKV\\ISTANBUL.EXE", false));
    assert!(prefs_beside_game_path("C:\\Games\\IKV\\istanbul.exe", false));
    assert!(!prefs_beside_game_path("C:\\Games\\IKV", false));
}

#[test]
fn lines_split_like_std() {
    for s in ["", "a", "a\n", "a\r\nb", "a\n\nb\n", "x\r", "\r\n\r\n", "a\r\r\nb"] {
        let expected: Vec<Vec<char>> = s.lines().map(|l| l.chars().collect()).collect();
        let chars: Vec<char> = s.chars().collect();
        assert_eq!(split_lines(&chars), expected, "input {:?}", s);
    }
}

#[test]
fn rewrite_replaces_existing_settings() {
    let content = "Language 1\r\nScreenWidth 640\r\nScreenHeight 480\r\nFullscreen 1\r\nScreenResolution_PREF 3\r\nSound 1\r\n";
    let out = rewrite_prefs(content, 1024, 768);
    assert_eq!(
        out,
        "Language 1\r\nScreenWidth 1024\r\nScreenHeight 768\r\nFullscreen 0\r\nScreenResolution_PREF 0\r\nSound 1"
    );
}

#[test]
fn rewrite_appends_missing_settings() {
    assert_eq!(rewrite_prefs("", 800, 600), "ScreenWidth 800\r\nScreenHeight 600\r\nFullscreen 0");
    assert_eq!(
        rewrite_prefs("Sound 1\nScreenHeight 1", 1920, 1080),
        "Sound 1\r\nScreenHeight 1080\r\nScreenWidth 1920\r\nFullscreen 0"
    );
    assert_eq!(rewrite_prefs("ScreenWidthX", -5, 7), "ScreenWidthX\r\nScreenWidth -5\r\nScreenHeight 7\r\nFullscreen 0");
}

#[test]
fn rewriting_twice_changes_nothing() {
    for content in ["", "Sound 1", "ScreenWidth 1\nFullscreen 1\nx\r", "a\n\nb"] {
        let once = rewrite_prefs(content, 1280, 670);
        let twice = rewrite_prefs(&once, 1280, 670);
        assert_eq!(once, twice, "content {:?}", content);
    }
}

#[test]
fn empty_last_line_is_dropped_by_a_second_rewrite() {
    // the one case the idempotence law leaves out
    let content = "ScreenWidth 1\nScreenHeight 2\nFullscreen 1\n\n";
    let once = rewrite_prefs(content, 800, 600);
    assert_eq!(once, "ScreenWidth 800\r\nScreenHeight 600\r\nFullscreen 0\r\n");
    assert_eq!(rewrite_prefs(&once, 800, 600), "ScreenWidth 800\r\nScreenHeight 600\r\nFullscreen 0");
}

#[test]
fn lone_newline_rewrites_stably() {
    let once = rewrite_prefs("\n", 800, 600);
    assert_eq!(rewrite_prefs(&once, 800, 600), once);
    assert!(once.contains("ScreenWidth 800"));
    assert!(once.contains("Fullscreen 0"));
}
