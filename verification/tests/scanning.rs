use eidolon::auto::{
    classify_entry, import_target, is_manifest_path, itch_game, last_path_component, lutris_game,
    lutris_games, lutris_list_is_readable, manifest_is_readable, parse_lutris_list,
    pick_game_exe, leftover_games, remove_found, search_manifest, steam_game, ExeKind, SearchResult,
};
use eidolon::games::GameType;

fn strings(v: &[&str]) -> Vec<String> {
    v.iter().map(|s| s.to_string()).collect()
}

const PORTAL_MANIFEST: &str = "\"AppState\"\n{\n\t\"appid\"\t\t\"400\"\n\t\"Universe\"\t\t\"1\"\n\t\"name\"\t\t\"Portal\"\n\t\"StateFlags\"\t\t\"4\"\n\t\"installdir\"\t\t\"Portal Dir\"\n\t\"LastUpdated\"\t\t\"1540000000\"\n}\n";

#[test]
fn manifest_of_installed_game_is_read() {
    assert!(manifest_is_readable(PORTAL_MANIFEST, "Portal Dir"));
    let r = search_manifest(PORTAL_MANIFEST, "Portal Dir").unwrap();
    assert_eq!(r.appid, "400");
    assert_eq!(r.name, "Portal");
    assert_eq!(r.outname, "Portal Dir");
}

#[test]
fn manifest_of_other_game_gives_nothing() {
    assert!(manifest_is_readable(PORTAL_MANIFEST, "Half-Life"));
    assert!(search_manifest(PORTAL_MANIFEST, "Half-Life").is_none());
}

#[test]
fn manifest_without_install_dir_gives_nothing() {
    let m = "\"AppState\"\n{\n\t\"appid\"\t\t\"400\"\n}\n";
    assert!(manifest_is_readable(m, "x"));
    assert!(search_manifest(m, "x").is_none());
}

#[test]
fn manifest_without_last_updated_is_unreadable() {
    let m = "\t\"installdir\"\t\t\"Portal\"\n";
    assert!(!manifest_is_readable(m, "Portal"));
}

#[test]
fn manifest_with_unicode_name() {
    let m = "\t\"appid\"\t\t\"7\"\n\t\"Universe\"\t\t\"1\"\n\t\"name\"\t\t\"Café™\"\n\t\"StateFlags\"\t\t\"4\"\n\t\"installdir\"\t\t\"Café\"\n\t\"LastUpdated\"\t\t\"0\"\n";
    let r = search_manifest(m, "Café").unwrap();
    assert_eq!(r.name, "Café™");
    assert_eq!(r.appid, "7");
}

#[test]
fn manifest_paths() {
    assert!(is_manifest_path("/lib/steamapps/appmanifest_400.acf"));
    assert!(!is_manifest_path("/lib/steamapps/libraryfolders.vdf"));
}

#[test]
fn steam_game_from_search() {
    let r = SearchResult {
        appid: "400".to_string(),
        name: "Portal 2".to_string(),
        outname: "Portal 2".to_string(),
    };
    let g = steam_game(&r);
    assert_eq!(g.name, "portal_2");
    assert_eq!(g.pname, "Portal 2");
    assert_eq!(g.command, "steam 'steam://rungameid/400'");
    assert_eq!(g.typeg, GameType::Steam);
}

#[test]
fn itch_and_lutris_games() {
    let i = itch_game("Celeste", "cave-9");
    assert_eq!(i.name, "celeste");
    assert_eq!(i.command, "cave-9");
    assert_eq!(i.typeg, GameType::Itch);
    let l = lutris_game("12", "Game One");
    assert_eq!(l.name, "game_one");
    assert_eq!(l.pname, "Game One");
    assert_eq!(l.command, "lutris lutris:rungameid/12");
    assert_eq!(l.typeg, GameType::Lutris);
}

#[test]
fn lutris_list_keeps_wine_games() {
    let list = "12 | Game One | game-one | wine\n13 | Native | native | linux\n14| Two |two|wine";
    assert!(lutris_list_is_readable(list));
    let v = parse_lutris_list(list);
    assert_eq!(
        v,
        vec![
            ("12".to_string(), "Game One".to_string()),
            ("14".to_string(), "Two".to_string())
        ]
    );
}

#[test]
fn lutris_list_with_fieldless_wine_line_is_unreadable() {
    assert!(!lutris_list_is_readable("a wine game\n"));
    assert!(lutris_list_is_readable("no games here\n"));
}

#[test]
fn lutris_not_listed() {
    assert_eq!(lutris_games(false, ""), Err("Lutris not installed".to_string()));
    assert_eq!(lutris_games(true, "1 | A | a | wine").unwrap().len(), 1);
}

#[test]
fn remove_found_takes_entry_off() {
    let mut already = strings(&["a", "b", "c"]);
    remove_found(&mut already, "b");
    assert_eq!(already, strings(&["a", "c"]));
}

#[test]
fn remove_found_passes_over_the_next_entry() {
    let mut already = strings(&["a", "b", "b", "c"]);
    remove_found(&mut already, "b");
    assert_eq!(already, strings(&["a", "b", "c"]));
    let mut spaced = strings(&["b", "x", "b"]);
    remove_found(&mut spaced, "b");
    assert_eq!(spaced, strings(&["x"]));
    let mut last = strings(&["x", "b"]);
    remove_found(&mut last, "b");
    assert_eq!(last, strings(&["x"]));
}

#[test]
fn leftovers_after_a_scan() {
    let already = strings(&["a", "b", "c", "d"]);
    let found = strings(&["c", "z", "a"]);
    assert_eq!(leftover_games(already, &found), strings(&["b", "d"]));
    assert_eq!(leftover_games(strings(&["a"]), &strings(&[])), strings(&["a"]));
}

#[test]
fn import_recognises_executables() {
    assert_eq!(classify_entry("game.x86_64"), Some(ExeKind::Unity));
    assert_eq!(classify_entry("start.sh"), Some(ExeKind::Gog));
    assert_eq!(classify_entry("start"), Some(ExeKind::StartScript));
    assert_eq!(classify_entry("readme.txt"), None);
    assert_eq!(pick_game_exe(&strings(&["game.x86_64", "readme.txt", "start.sh"])), "start.sh");
    assert_eq!(pick_game_exe(&strings(&["readme.txt"])), "");
}

#[test]
fn import_paths() {
    assert_eq!(last_path_component("games/My Game"), "My Game");
    assert_eq!(last_path_component("games/"), "");
    assert_eq!(import_target("/home/u", "games/g", "start.sh"), "/home/u/games/g/start.sh");
    assert_eq!(import_target("/home/u", "/abs/g", "run"), "/abs/g/run");
}
