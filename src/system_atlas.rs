use vstd::prelude::*;

verus! {

/// Collection of system paths which we are interested about.
/// `File::open` does not expand `~`, so each path is spelled out in full.
pub struct SystemAtlas<'a> {
    pub alacritty: &'a str,
    pub fontconfig: &'a str,
    pub eww_brightness: &'a str,
    pub eww_gamma: &'a str,
    pub eww_volume: &'a str,
    pub eww_workspaces: &'a str,
    pub hyprland: &'a str,
}

/// The paths of this machine.
pub fn system_atlas() -> (r: SystemAtlas<'static>)
    ensures
        r.alacritty@ == "/home/rg/.config/alacritty/alacritty.yaml"@,
        r.fontconfig@ == "/home/rg/.config/fontconfig/fonts.conf"@,
        r.eww_brightness@ == "/tmp/eww-brightness"@,
        r.eww_gamma@ == "/tmp/eww-gamma"@,
        r.eww_volume@ == "/tmp/eww-volume"@,
        r.eww_workspaces@ == "/tmp/eww-workspaces"@,
        r.hyprland@ == "/home/rg/.config/hypr/hyprland.conf"@,
{
    SystemAtlas {
        alacritty: "/home/rg/.config/alacritty/alacritty.yaml",
        fontconfig: "/home/rg/.config/fontconfig/fonts.conf",
        eww_brightness: "/tmp/eww-brightness",
        eww_gamma: "/tmp/eww-gamma",
        eww_volume: "/tmp/eww-volume",
        eww_workspaces: "/tmp/eww-workspaces",
        hyprland: "/home/rg/.config/hypr/hyprland.conf",
    }
}

} // verus!
