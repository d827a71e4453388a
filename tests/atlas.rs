use rg_launcher::system_atlas::system_atlas;

#[test]
fn atlas_paths() {
    let atlas = system_atlas();
    assert_eq!(atlas.alacritty, "/home/rg/.config/alacritty/alacritty.yaml");
    assert_eq!(atlas.fontconfig, "/home/rg/.config/fontconfig/fonts.conf");
    assert_eq!(atlas.eww_brightness, "/tmp/eww-brightness");
    assert_eq!(atlas.eww_gamma, "/tmp/eww-gamma");
    assert_eq!(atlas.eww_volume, "/tmp/eww-volume");
    assert_eq!(atlas.eww_workspaces, "/tmp/eww-workspaces");
    assert_eq!(atlas.hyprland, "/home/rg/.config/hypr/hyprland.conf");
}
