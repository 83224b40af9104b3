use eidolon::config::{
    config_from_old, config_json_file, default_blocked, eidolon_dir, expand_home_dir, init_state,
    old_config_file, old_config_is_readable, parse_old_config, startup, with_home_expanded,
    Config, InitState, OldConfig, StartupStep,
};

fn strings(v: &[&str]) -> Vec<String> {
    v.iter().map(|s| s.to_string()).collect()
}

#[test]
fn default_config_values() {
    let c = Config::default();
    assert_eq!(c.steam_dirs, strings(&["$HOME/.local/share/steam/steamapps"]));
    assert_eq!(c.menu_command, "rofi -theme sidebar -mesg 'eidolon game:' -p '> ' -dmenu");
    assert_eq!(c.prefix_command, "");
    assert_eq!(c.blocked, default_blocked());
    assert_eq!(
        default_blocked(),
        strings(&["steamworks_common_redistributables", "proton_3.7", "proton_3.7_beta"])
    );
}

#[test]
fn home_is_expanded() {
    assert_eq!(expand_home_dir("$HOME/steam", "/home/u"), "/home/u/steam");
    assert_eq!(expand_home_dir("~/steam", "/home/u"), "/home/u/steam");
    assert_eq!(expand_home_dir("/mnt/steam", "/home/u"), "/mnt/steam");
    let c = with_home_expanded(Config::default(), "/home/u");
    assert_eq!(c.steam_dirs, strings(&["/home/u/.local/share/steam/steamapps"]));
}

#[test]
fn old_config_is_parsed() {
    let conf = "steam_dirs: |$HOME/a|/b|\nmenu_command: | rofi |\nprefix_command: | optirun |";
    assert!(old_config_is_readable(conf));
    let old = parse_old_config(conf, "/home/u");
    assert_eq!(old.steam_dirs, strings(&["/home/u/a", "/b"]));
    assert_eq!(old.menu_command, " rofi ");
    assert_eq!(old.prefix_command, " optirun ");
}

#[test]
fn old_config_in_set_up_layout() {
    let conf = "steam_dirs: | $HOME/.local/share/steam/steamapps |\nmenu_command: | rofi -dmenu |";
    assert!(old_config_is_readable(conf));
    let old = parse_old_config(conf, "/home/u");
    assert_eq!(old.steam_dirs, strings(&["/home/u/.local/share/steam/steamapps"]));
    assert_eq!(old.menu_command, " rofi -dmenu ");
    assert_eq!(old.prefix_command, " ");
}

#[test]
fn old_config_without_prefix_line() {
    let conf = "steam_dirs: |/x|\nmenu_command: |dmenu|\n";
    let old = parse_old_config(conf, "/h");
    assert_eq!(old.steam_dirs, strings(&["/x"]));
    assert_eq!(old.menu_command, "dmenu");
    assert_eq!(old.prefix_command, " ");
}

#[test]
fn unreadable_old_configs() {
    assert!(!old_config_is_readable("only one line"));
    assert!(!old_config_is_readable("a\nno bar here"));
    assert!(!old_config_is_readable("a\nm|x\nno bar"));
}

#[test]
fn old_config_converts() {
    let old = OldConfig {
        steam_dirs: strings(&["/a"]),
        menu_command: "m".to_string(),
        prefix_command: "p".to_string(),
    };
    let c = config_from_old(&old);
    assert_eq!(c.steam_dirs, strings(&["/a"]));
    assert_eq!(c.menu_command, "m");
    assert_eq!(c.prefix_command, "p");
    assert_eq!(c.blocked, default_blocked());
}

#[test]
fn startup_steps() {
    assert_eq!(startup(true, false), StartupStep::Ready);
    assert_eq!(startup(false, false), StartupStep::Initialise);
    assert_eq!(startup(false, true), StartupStep::GiveUp);
    assert_eq!(startup(true, true), StartupStep::Ready);
}

#[test]
fn init_states() {
    assert_eq!(init_state(false, true, true, true), InitState::NotInited);
    assert_eq!(init_state(true, true, true, true), InitState::OldConfig);
    assert_eq!(init_state(true, true, false, true), InitState::Inited);
    assert_eq!(init_state(true, true, false, false), InitState::NotInited);
}

#[test]
fn config_paths() {
    assert_eq!(eidolon_dir("/h"), "/h/.config/eidolon");
    assert_eq!(config_json_file("/h"), "/h/.config/eidolon/config.json");
    assert_eq!(old_config_file("/h"), "/h/.config/eidolon/config");
}
