use linux_it_guy_toolbox::logos::{app_icon_slugs, is_monochrome_icon};

#[test]
fn mono_svgs_are_retired_in_favor_of_color_flathub_icons() {
    let keys = app_icon_slugs();
    for expected in [
        "vlc",
        "lutris",
        "heroic",
        "obs-studio",
        "mpv",
        "htop",
        "pycharm-community",
    ] {
        assert!(
            keys.iter().any(|key| *key == expected),
            "{expected} should live in APP_SVGS"
        );
        assert!(!is_monochrome_icon(expected), "{expected}");
    }
    assert!(!is_monochrome_icon("brave"));
}

#[test]
fn former_letter_fallback_apps_now_ship_icons() {
    let keys = app_icon_slugs();
    for expected in [
        "bottles",
        "boxes",
        "protonup-qt",
        "gparted",
        "localsend",
        "sober",
        "flatseal",
        "prism-launcher",
        "retroarch",
        "extension-manager",
        "dolphin-emu",
        "ppsspp",
        "gear-lever",
        "protonplus",
        "mission-center",
    ] {
        assert!(keys.contains(&expected), "{expected}");
    }
}

#[test]
fn app_icon_keys_include_brave_and_zen_but_not_origin() {
    let keys = app_icon_slugs();
    assert!(keys.contains(&"brave"));
    assert!(keys.contains(&"zen-browser"));
    assert!(keys.contains(&"zen-browser-dark"));
    assert!(!keys.contains(&"brave-origin"));
    assert_eq!(keys.len(), 48);
}
