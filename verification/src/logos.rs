//! Which app tiles have icons. The SVG markup itself is compiled into the
//! app; the library only knows the slugs.
use vstd::prelude::*;

verus! {

/// Slugs of the colour app-tile icons, in table order.
pub open spec fn app_icon_slug_list() -> Seq<Seq<char>> {
    seq![
        "audacity"@, "bitwarden"@, "bottles"@, "boxes"@, "brave"@, "discord"@, "dolphin-emu"@,
        "extension-manager"@, "firefox"@, "flatseal"@, "gear-lever"@, "gimp"@, "google-chrome"@,
        "gparted"@, "heroic"@, "htop"@, "libreoffice"@, "librewolf"@, "localsend"@, "lutris"@,
        "microsoft-edge"@, "mission-center"@, "mpv"@, "obsidian"@, "obs-studio"@, "onlyoffice"@,
        "opera"@, "ppsspp"@, "prism-launcher"@, "proton-vpn"@, "protonplus"@, "protonup-qt"@,
        "pycharm-community"@, "qbittorrent"@, "retroarch"@, "signal"@, "slack"@, "sober"@,
        "spotify"@, "steam"@, "stremio"@, "telegram"@, "thunderbird"@, "visual-studio-code"@,
        "vivaldi"@, "vlc"@, "zen-browser"@, "zen-browser-dark"@,
    ]
}

/// Slugs of the monochrome tiles. None are left: the colour icons replaced them.
pub open spec fn mono_icon_slug_list() -> Seq<Seq<char>> {
    Seq::empty()
}

/// Slugs of the colour app-tile icons, in table order.
pub fn app_icon_slugs() -> (r: Vec<&'static str>)
    ensures
        r@.map_values(|s: &str| s@) == app_icon_slug_list(),
{
    let r: Vec<&'static str> = vec![
        "audacity", "bitwarden", "bottles", "boxes", "brave", "discord", "dolphin-emu",
        "extension-manager", "firefox", "flatseal", "gear-lever", "gimp", "google-chrome",
        "gparted", "heroic", "htop", "libreoffice", "librewolf", "localsend", "lutris",
        "microsoft-edge", "mission-center", "mpv", "obsidian", "obs-studio", "onlyoffice",
        "opera", "ppsspp", "prism-launcher", "proton-vpn", "protonplus", "protonup-qt",
        "pycharm-community", "qbittorrent", "retroarch", "signal", "slack", "sober",
        "spotify", "steam", "stremio", "telegram", "thunderbird", "visual-studio-code",
        "vivaldi", "vlc", "zen-browser", "zen-browser-dark",
    ];
    assert(r@.map_values(|s: &str| s@) =~= app_icon_slug_list());
    r
}

/// Whether an icon is drawn as a monochrome tile.
pub fn is_monochrome_icon(key: &str) -> (r: bool)
    ensures
        r == mono_icon_slug_list().contains(key@),
        !r,
{
    false
}

} // verus!
