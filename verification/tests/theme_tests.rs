use capture::bitmap::VideoFormat;
use capture::classifier::classifier;
use capture::cursor::{CursorKind, Hotspot};
use capture::theme::{
    clean_setting, icon_names, load_xcursor_file, push_theme, setting_value, system_theme_names,
    themed_kinds, unique_indices,
};

#[test]
fn parses_quoted_and_ini_theme_values() {
    assert_eq!(clean_setting("  'Moga-Dark'\n"), Some("Moga-Dark".into()));
    assert_eq!(clean_setting("\"Breeze\""), Some("Breeze".into()));
    assert_eq!(clean_setting("   "), None);

    let settings = "[Settings]\nother=x\ngtk-cursor-theme-name = TestTheme\n";
    assert_eq!(
        setting_value(settings, "gtk-cursor-theme-name"),
        Some("TestTheme".into())
    );
}

#[test]
fn cleaning_strips_nested_quotes_and_unicode_space() {
    assert_eq!(clean_setting("\u{3000} \"'Adwaita'\" \t"), Some("Adwaita".into()));
    assert_eq!(clean_setting("' Bibata '"), Some("Bibata".into()));
    assert_eq!(clean_setting("''"), None);
    assert_eq!(clean_setting(""), None);
    assert_eq!(clean_setting("a'b"), Some("a'b".into()));
}

#[test]
fn setting_lines_match_the_trimmed_key_and_skip_empty_values() {
    let contents = "cursorTheme=\n cursorTheme = ''\r\n\tcursorTheme\t= 'Oxygen'\r\ncursorTheme=Later";
    assert_eq!(setting_value(contents, "cursorTheme"), Some("Oxygen".into()));
    assert_eq!(setting_value(contents, "cursor"), None);
    assert_eq!(setting_value("a=b=c", "a"), Some("b=c".into()));
    assert_eq!(setting_value("no equals here", "no equals here"), None);
    assert_eq!(setting_value("", "x"), None);
    assert_eq!(setting_value("x=1", "x"), Some("1".into()));
}

#[test]
fn pushed_themes_are_unique_and_not_empty() {
    let mut names = Vec::new();
    push_theme(&mut names, Some("Breeze".to_string()));
    push_theme(&mut names, None);
    push_theme(&mut names, Some(String::new()));
    push_theme(&mut names, Some("Adwaita".to_string()));
    push_theme(&mut names, Some("Breeze".to_string()));
    assert_eq!(names, vec!["Breeze".to_string(), "Adwaita".to_string()]);
}

#[test]
fn system_themes_follow_the_order_of_preference() {
    let files = vec![
        Some("[Settings]\ngtk-cursor-theme-name='Bibata'\n".to_string()),
        None,
        Some("[Mouse]\ncursorTheme=Breeze\n".to_string()),
        Some("gtk-cursor-theme-name=\ncursorTheme=Oxygen".to_string()),
        Some("gtk-cursor-theme-name=Bibata".to_string()),
    ];
    assert_eq!(
        system_theme_names(Some("Env".to_string()), Some("Adwaita".to_string()), &files),
        vec!["Env", "Adwaita", "Bibata", "Breeze", "Oxygen", "default"]
    );
    assert_eq!(system_theme_names(None, Some("default".to_string()), &Vec::new()), vec!["default"]);
}

#[test]
fn icon_names_prefer_current_names_then_legacy_ones() {
    let (preferred, legacy) = icon_names(CursorKind::Handpointing);
    assert_eq!(preferred[0], "pointer");
    assert_eq!(preferred.len(), 9);
    assert_eq!(legacy, vec!["hand1", "hand2", "link"]);
    let (preferred, legacy) = icon_names(CursorKind::Default);
    assert_eq!(preferred, vec!["default", "left_ptr", "arrow"]);
    assert!(legacy.is_empty());
    let (preferred, legacy) = icon_names(CursorKind::Custom);
    assert!(preferred.is_empty() && legacy.is_empty());
    let kinds = themed_kinds();
    assert_eq!(kinds.len(), 12);
    assert_eq!(kinds[0], CursorKind::Default);
    assert_eq!(kinds[11], CursorKind::Resizenorthwestsoutheast);
}

/// An Xcursor file with one 2x2 image whose BGRA pixels are `pixels`.
fn xcursor_file(xhot: u32, yhot: u32, pixels: &[u8; 16]) -> Vec<u8> {
    let mut file = Vec::new();
    let put = |v: u32, file: &mut Vec<u8>| file.extend_from_slice(&v.to_le_bytes());
    file.extend_from_slice(b"Xcur");
    put(16, &mut file); // header size
    put(0x1_0000, &mut file); // version
    put(1, &mut file); // table of contents entries
    put(0xfffd_0002, &mut file); // image chunk
    put(24, &mut file); // nominal size
    put(28, &mut file); // position
    put(36, &mut file); // chunk header size
    put(0xfffd_0002, &mut file);
    put(24, &mut file);
    put(1, &mut file); // image version
    put(2, &mut file); // width
    put(2, &mut file); // height
    put(xhot, &mut file);
    put(yhot, &mut file);
    put(0, &mut file); // delay
    file.extend_from_slice(pixels);
    file
}

#[test]
fn xcursor_files_add_theme_images_once() {
    let bgra: [u8; 16] = [0, 0, 0, 0, 40, 30, 20, 255, 0, 0, 0, 0, 100, 90, 80, 255];
    let file = xcursor_file(1, 0, &bgra);
    let mut candidates = Vec::new();
    load_xcursor_file(&file, CursorKind::Handpointing, &mut candidates);
    assert_eq!(candidates.len(), 1);
    load_xcursor_file(&file, CursorKind::Handpointing, &mut candidates);
    assert_eq!(candidates.len(), 1);
    load_xcursor_file(&file, CursorKind::Busy, &mut candidates);
    assert_eq!(candidates.len(), 2);
    load_xcursor_file(b"not an xcursor file", CursorKind::Help, &mut candidates);
    assert_eq!(candidates.len(), 2);
    load_xcursor_file(&xcursor_file(9, 0, &bgra), CursorKind::Help, &mut candidates);
    assert_eq!(candidates.len(), 2);

    let mut only_hand = Vec::new();
    load_xcursor_file(&file, CursorKind::Handpointing, &mut only_hand);
    let mut classifier = classifier(only_hand);
    assert_eq!(
        classifier.classify(1, VideoFormat::BGRA, 2, 2, 8, &bgra, Hotspot { x: 1, y: 0 }),
        CursorKind::Handpointing
    );
}

#[test]
fn quoting_and_padding_a_theme_name_gives_it_back() {
    for name in ["Adwaita", "Bibata-Modern Ice", "a'b", "x"] {
        assert_eq!(clean_setting(name), Some(name.into()));
        assert_eq!(clean_setting(&format!("  '{name}'\n")), Some(name.into()));
        assert_eq!(clean_setting(&format!("\"{name}\"")), Some(name.into()));
        assert_eq!(clean_setting(&format!("\t\"'{name}'\"\u{3000}")), Some(name.into()));
    }
}

#[test]
fn icon_files_found_twice_are_loaded_once() {
    let keys: Vec<Vec<u8>> = vec![
        b"/usr/share/icons/a/cursors/left_ptr".to_vec(),
        b"/usr/share/icons/a/cursors/arrow".to_vec(),
        b"/usr/share/icons/a/cursors/left_ptr".to_vec(),
        b"/usr/share/icons/a/cursors/arrow".to_vec(),
        b"/usr/share/icons/a/cursors/default".to_vec(),
    ];
    assert_eq!(unique_indices(&keys), vec![0, 1, 4]);
    assert_eq!(unique_indices(&Vec::new()), Vec::<usize>::new());
}
