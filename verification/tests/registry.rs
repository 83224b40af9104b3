use eidolon::games::{
    classify_command, convert_old_entry, dolphin_game, exe_shortcut, game_file_for_name,
    game_file_path, games_of_kind, launch_plan, listing_line, name_is_blocked, registry_name, run_result, shortcut_decision,
    AddOutcome, Game, GameType, Launch, RunOutcome,
};
use eidolon::helper::{create_procname, games_dir, gd, get_home};

fn strings(v: &[&str]) -> Vec<String> {
    v.iter().map(|s| s.to_string()).collect()
}

fn game(typeg: GameType, command: &str) -> Game {
    Game {
        command: command.to_string(),
        pname: "Some Game".to_string(),
        name: "some_game".to_string(),
        typeg,
    }
}

#[test]
fn procname_lowercases_and_underscores() {
    assert_eq!(
        create_procname("The Witcher 3: Wild Hunt™"),
        "the_witcher_3_wild_hunt"
    );
}

#[test]
fn procname_trims_before_replacing() {
    assert_eq!(create_procname("  Half-Life 2 "), "half_life_2");
}

#[test]
fn procname_drops_apostrophes() {
    assert_eq!(create_procname("Baldur's Gate"), "baldurs_gate");
}

#[test]
fn procname_turns_tabs_into_underscores() {
    assert_eq!(create_procname("A\tB"), "a_b");
}

#[test]
fn procname_lowercases_beyond_ascii() {
    assert_eq!(create_procname("ÀB"), "àb");
}

#[test]
fn games_dir_is_under_home() {
    assert_eq!(games_dir("/home/u"), "/home/u/.config/eidolon/games/");
}

#[test]
fn home_is_never_empty() {
    if let Some(h) = get_home() {
        assert!(!h.is_empty());
        assert_eq!(gd(), Some(games_dir(&h)));
    }
}

#[test]
fn gd_ends_with_games_dir() {
    if let Some(d) = gd() {
        assert!(d.ends_with("/.config/eidolon/games/"));
    }
}

#[test]
fn registry_name_drops_json() {
    assert_eq!(registry_name("portal_2.json"), "portal_2");
    assert_eq!(registry_name("plain"), "plain");
    assert_eq!(registry_name(".json.json"), ".json");
    assert_eq!(registry_name("a.json.bak"), "a.json.bak");
    assert_eq!(registry_name(".json"), "");
}

#[test]
fn game_file_path_adds_json() {
    assert_eq!(game_file_path("/g/", "portal"), "/g/portal.json");
}

#[test]
fn commands_are_classified() {
    assert_eq!(classify_command("steam 'steam://rungameid/400'"), GameType::Steam);
    assert_eq!(classify_command("lutris lutris:rungameid/12"), GameType::Lutris);
    assert_eq!(classify_command("/usr/bin/game"), GameType::Exe);
}

#[test]
fn old_steam_entry_converts() {
    let g = convert_old_entry("portal", "#!/bin/bash\nsteam 'steam://rungameid/400'");
    assert_eq!(g.name, "portal");
    assert_eq!(g.pname, "portal");
    assert_eq!(g.command, "steam 'steam://rungameid/400'");
    assert_eq!(g.typeg, GameType::Steam);
}

#[test]
fn old_exe_entry_converts() {
    let g = convert_old_entry("x", "#!/bin/bash\r\nwine /x.exe\r\nignored");
    assert_eq!(g.command, "wine /x.exe");
    assert_eq!(g.typeg, GameType::Exe);
}

#[test]
fn shortcut_decisions() {
    let blocked = strings(&["proton_3.7"]);
    assert_eq!(shortcut_decision(true, "proton_3.7", &blocked), AddOutcome::AlreadyMade);
    assert_eq!(shortcut_decision(false, "proton_3.7", &blocked), AddOutcome::Blocked);
    assert_eq!(shortcut_decision(false, "portal", &blocked), AddOutcome::Make);
    assert!(name_is_blocked("proton_3.7", &blocked));
    assert!(!name_is_blocked("proton", &blocked));
}

#[test]
fn listing_line_shows_all_three() {
    let g = game(GameType::WyvernGOG, "/g");
    assert_eq!(listing_line(&g), "Some Game - some_game - WyvernGOG");
}

#[test]
fn type_labels() {
    assert_eq!(GameType::Itch.label(), "Itch");
    assert_eq!(GameType::Dolphin.label(), "Dolphin");
    assert_eq!(GameType::Exe.label(), "Exe");
}

#[test]
fn launch_plans() {
    match launch_plan(&game(GameType::Itch, "cave-1"), "optirun") {
        Launch::Butler { cave_id } => assert_eq!(cave_id, "cave-1"),
        _ => panic!("itch games go through butler"),
    }
    match launch_plan(&game(GameType::Dolphin, "/iso/m.iso"), "") {
        Launch::Program { program, args } => {
            assert_eq!(program, "dolphin-emu-cli");
            assert_eq!(args, strings(&["/iso/m.iso"]));
        }
        _ => panic!("dolphin games run dolphin"),
    }
    match launch_plan(&game(GameType::WyvernGOG, "/games/gog"), "") {
        Launch::Program { program, args } => {
            assert_eq!(program, "/games/gog/start.sh");
            assert!(args.is_empty());
        }
        _ => panic!("GOG games run their start script"),
    }
    match launch_plan(&game(GameType::Steam, "steam 'steam://rungameid/1'"), "") {
        Launch::Program { program, args } => {
            assert_eq!(program, "sh");
            assert_eq!(args, strings(&["-c", "steam 'steam://rungameid/1'"]));
        }
        _ => panic!("other games run through sh"),
    }
}

#[test]
fn launch_plan_prefixes_dolphin_and_gog() {
    match launch_plan(&game(GameType::Dolphin, "/iso/m k.iso"), "optirun") {
        Launch::Program { program, args } => {
            assert_eq!(program, "sh");
            assert_eq!(args, strings(&["-c", "optirun dolphin-emu-cli /iso/m\\ k.iso"]));
        }
        _ => panic!("prefixed dolphin games run through sh"),
    }
    match launch_plan(&game(GameType::WyvernGOG, "/games/my gog"), "optirun") {
        Launch::Program { program, args } => {
            assert_eq!(program, "sh");
            assert_eq!(args, strings(&["-c", "optirun /games/my\\ gog/start.sh"]));
        }
        _ => panic!("prefixed GOG games run through sh"),
    }
    match launch_plan(&game(GameType::Lutris, "lutris lutris:rungameid/3"), "") {
        Launch::Program { program, args } => {
            assert_eq!(program, "sh");
            assert_eq!(args, strings(&["-c", "lutris lutris:rungameid/3"]));
        }
        _ => panic!("lutris games run through sh"),
    }
}

#[test]
fn launch_plan_puts_prefix_in_front() {
    match launch_plan(&game(GameType::Exe, "/usr/bin/game --x"), "optirun") {
        Launch::Program { program, args } => {
            assert_eq!(program, "sh");
            assert_eq!(args, strings(&["-c", "optirun /usr/bin/game --x"]));
        }
        _ => panic!("executables run through sh"),
    }
}

#[test]
fn game_files_follow_registry_names() {
    assert_eq!(game_file_for_name("/g/", "Half-Life 2"), "/g/half_life_2.json");
    assert_eq!(game_file_for_name("/g/", "half life 2"), game_file_for_name("/g/", "Half-Life 2"));
}

#[test]
fn games_are_picked_by_kind() {
    let games = vec![
        ("a".to_string(), GameType::Steam),
        ("b".to_string(), GameType::Itch),
        ("c".to_string(), GameType::Steam),
    ];
    assert_eq!(games_of_kind(&games, GameType::Steam), strings(&["a", "c"]));
    assert_eq!(games_of_kind(&games, GameType::Itch), strings(&["b"]));
    assert!(games_of_kind(&games, GameType::Lutris).is_empty());
}

#[test]
fn blocked_names_are_registry_names() {
    for b in eidolon::config::default_blocked() {
        assert_eq!(create_procname(&b), b);
    }
    let once = create_procname("  Baldur's Gate: Enhanced-Edition ");
    assert_eq!(create_procname(&once), once);
    assert_eq!(create_procname("PROTON 3.7 Beta"), "proton_3.7_beta");
}

#[test]
fn run_results() {
    assert_eq!(run_result(RunOutcome::NotFound), Err("Nonexistent".to_string()));
    assert_eq!(run_result(RunOutcome::ThroughButler), Ok("Launched through butler".to_string()));
    assert_eq!(
        run_result(RunOutcome::Finished {
            success: true,
            stdout: "out".to_string(),
            stderr: "err".to_string()
        }),
        Ok("out".to_string())
    );
    assert_eq!(
        run_result(RunOutcome::Finished {
            success: false,
            stdout: "out".to_string(),
            stderr: "err".to_string()
        }),
        Err("err".to_string())
    );
}

#[test]
fn exe_shortcut_escapes_and_uses_wine() {
    let g = exe_shortcut("my_game", "My Game.exe", "/home/u/games", true);
    assert_eq!(g.command, "wine /home/u/games/My\\ Game.exe");
    assert_eq!(g.name, "my_game");
    assert_eq!(g.pname, "my_game");
    assert_eq!(g.typeg, GameType::Exe);
    let s = exe_shortcut("x", "Game.LNK", "/d", true);
    assert_eq!(s.command, "wine start /d/Game.LNK");
    let n = exe_shortcut("x", "/opt/a b/run", "/d", false);
    assert_eq!(n.command, "/opt/a\\ b/run");
}

#[test]
fn dolphin_game_keeps_path() {
    let g = dolphin_game("Mario Kart", "/iso/mk.iso");
    assert_eq!(g.name, "mario_kart");
    assert_eq!(g.pname, "Mario Kart");
    assert_eq!(g.command, "/iso/mk.iso");
    assert_eq!(g.typeg, GameType::Dolphin);
}
