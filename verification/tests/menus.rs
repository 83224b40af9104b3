use eidolon::add_tool::{create_procname, start_script_for};
use eidolon::auto::SearchResult;
use eidolon::legacy::{
    legacy_config_is_readable, legacy_default_config, legacy_exe_script_for, legacy_game_dir_of,
    legacy_launch_command, legacy_menu_list, legacy_search_found, legacy_search_result,
    legacy_steam_script_for, parse_legacy_config,
};
use eidolon::menu::{
    menu_action, menu_choice, menu_list, menu_shell_command, run_report, sort_names, str_less,
    MenuAction, RunReport,
};

fn strings(v: &[&str]) -> Vec<String> {
    v.iter().map(|s| s.to_string()).collect()
}

#[test]
fn names_are_sorted() {
    assert_eq!(sort_names(strings(&["b", "A", "a", "ab"])), strings(&["A", "a", "ab", "b"]));
    assert_eq!(sort_names(strings(&["é", "z"])), strings(&["z", "é"]));
    assert!(str_less("a", "ab"));
    assert!(!str_less("b", "ab"));
}

#[test]
fn menu_list_one_per_line_trimmed() {
    assert_eq!(menu_list(&strings(&["a", "b"])), "a\nb");
    assert_eq!(menu_list(&strings(&[])), "");
}

#[test]
fn menu_shell_line() {
    assert_eq!(menu_shell_command("a\nb", "rofi -dmenu"), "echo 'a\nb' | rofi -dmenu");
}

#[test]
fn menu_choices() {
    assert_eq!(menu_choice("  portal\n"), Some("portal".to_string()));
    assert_eq!(menu_choice(" \n"), None);
}

#[test]
fn add_tool_procname() {
    assert_eq!(create_procname("The Witcher 3: Wild Hunt™"), "the_witcher_3_wild_hunt");
    assert_eq!(create_procname("  Half-Life 2 "), "__half_life_2_");
    assert_eq!(create_procname(" x\t"), "_x");
    assert_eq!(start_script_for("/g/run"), "#!/bin/bash\n/g/run");
}

#[test]
fn legacy_config_is_parsed() {
    let conf = "steam_dirs: | $HOME/a | /b |\nmenu_command: | rofi |";
    assert!(legacy_config_is_readable(conf));
    let (dirs, menu) = parse_legacy_config(conf, "/h");
    assert_eq!(dirs, strings(&["/h/a", "/b"]));
    assert_eq!(menu, " rofi ");
    assert!(!legacy_config_is_readable("x"));
}

#[test]
fn legacy_default_config_reads_back() {
    let (dirs, menu) = parse_legacy_config(&legacy_default_config(), "/h");
    assert_eq!(dirs, strings(&["/h/.local/share/steam/steamapps"]));
    assert_eq!(menu, " rofi -theme sidebar -mesg 'eidolon game:' -p '> ' -dmenu ");
}

#[test]
fn legacy_scripts() {
    assert_eq!(legacy_exe_script_for(true, "/a b/c.exe"), "#!/bin/bash\nwine /a\\ b/c.exe");
    assert_eq!(legacy_exe_script_for(false, "/c"), "#!/bin/bash\n/c");
    assert_eq!(legacy_steam_script_for("400"), "#!/bin/bash\nsteam 'steam://rungameid/400'");
    assert_eq!(legacy_game_dir_of("/h", "portal"), "/h/.config/eidolon/games/portal");
}

#[test]
fn legacy_search_placeholders() {
    let (a, n, o) = legacy_search_result(None);
    assert_eq!((a.as_str(), n.as_str(), o.as_str()), ("appid", "name", "outname"));
    assert!(!legacy_search_found(&n));
    let f = SearchResult {
        appid: "1".to_string(),
        name: "G".to_string(),
        outname: "g".to_string(),
    };
    let (a, n, o) = legacy_search_result(Some(f));
    assert_eq!((a.as_str(), n.as_str(), o.as_str()), ("1", "G", "g"));
    assert!(legacy_search_found(&n));
}

#[test]
fn menu_lines_come_back() {
    let names = strings(&["portal", "half_life_2", ""]);
    assert_eq!(eidolon::text::lines_of(&legacy_menu_list(&names)), names);
}

#[test]
fn legacy_menu() {
    assert_eq!(legacy_menu_list(&strings(&["a", "b"])), "a\nb\n");
    assert_eq!(legacy_launch_command(" portal \n"), "~/.config/eidolon/games/portal/start");
}

#[test]
fn menu_answers() {
    assert_eq!(menu_action(true, " portal_2\n"), MenuAction::Run("portal_2".to_string()));
    assert_eq!(menu_action(true, " \n"), MenuAction::NoSelection);
    assert_eq!(menu_action(false, ""), MenuAction::NoSelection);
    assert_eq!(menu_action(false, "error: no rofi\n"), MenuAction::BrokenMenu);
}

#[test]
fn run_reports() {
    assert_eq!(run_report(Ok("out".to_string())), RunReport::Done);
    assert_eq!(run_report(Err("Nonexistent".to_string())), RunReport::NotFound);
    assert_eq!(run_report(Err("segfault".to_string())), RunReport::Crashed("segfault".to_string()));
}
