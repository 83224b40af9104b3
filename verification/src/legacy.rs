//! The first command-line version of eidolon, which kept one directory per
//! game holding a shell start script, and a `'|'`-delimited config.
use vstd::prelude::*;
use crate::auto::{SearchResult, law_steam_command_is_steam, steam_command};
use crate::config::{listed_steam_dirs, parse_steam_dir_list};
use crate::games::{GameType, command_type};
use crate::text::{
    concat_str, free_of, lemma_split_append, lemma_split_push_sep, lemma_split_single, lines, lines_of, replace, replace_str, split, split_str, string_views, trim, trim_str,
};

verus! {

/// The first line of a legacy config lists the Steam libraries between
/// `'|'`s; the second line's second field is the menu command.
pub open spec fn legacy_config_readable(conf: Seq<char>) -> bool {
    lines(conf).len() >= 2 && split(lines(conf)[1], '|').len() >= 2
}

/// The Steam libraries of a legacy config: those listed on its first line.
pub open spec fn legacy_steam_dirs(conf: Seq<char>, home: Seq<char>) -> Seq<Seq<char>> {
    listed_steam_dirs(lines(conf)[0], home)
}

/// Whether a legacy config can be read.
pub fn legacy_config_is_readable(conf: &str) -> (r: bool)
    ensures
        r == legacy_config_readable(conf@),
{
    let ls = lines_of(conf);
    if ls.len() < 2 {
        return false;
    }
    assert(string_views(ls@)[1] == ls@[1]@);
    split_str(ls[1].as_str(), '|').len() >= 2
}

/// Reads a legacy config: its Steam libraries and its menu command.
pub fn parse_legacy_config(conf: &str, home: &str) -> (r: (Vec<String>, String))
    requires
        legacy_config_readable(conf@),
    ensures
        string_views(r.0@) == legacy_steam_dirs(conf@, home@),
        r.1@ == split(lines(conf@)[1], '|')[1],
{
    let ls = lines_of(conf);
    assert(string_views(ls@)[0] == ls@[0]@);
    assert(string_views(ls@)[1] == ls@[1]@);
    let dirs = parse_steam_dir_list(ls[0].as_str(), home);
    let fields = split_str(ls[1].as_str(), '|');
    assert(string_views(fields@)[1] == fields@[1]@);
    (dirs, fields[1].clone())
}

/// The config that the first version wrote when it was set up.
pub open spec fn legacy_default_config_text() -> Seq<char> {
    "steam_dirs: | $HOME/.local/share/steam/steamapps |\nmenu_command: | rofi -theme sidebar -mesg 'eidolon game:' -p '> ' -dmenu |"@
}

/// The text of the config written at set-up.
pub fn legacy_default_config() -> (r: String)
    ensures
        r@ == legacy_default_config_text(),
{
    "steam_dirs: | $HOME/.local/share/steam/steamapps |\nmenu_command: | rofi -theme sidebar -mesg 'eidolon game:' -p '> ' -dmenu |".to_owned()
}

/// The directory that holds a game's start script.
pub open spec fn legacy_game_dir(home: Seq<char>, procname: Seq<char>) -> Seq<char> {
    home + "/.config/eidolon/games/"@ + procname
}

/// Builds the directory of a registered game.
pub fn legacy_game_dir_of(home: &str, procname: &str) -> (r: String)
    ensures
        r@ == legacy_game_dir(home@, procname@),
{
    let d = concat_str(home, "/.config/eidolon/games/");
    concat_str(d.as_str(), procname)
}

/// The start script of an executable: run under wine or directly, with each
/// space of its path escaped.
pub open spec fn legacy_exe_script(wine: bool, path: Seq<char>) -> Seq<char> {
    "#!/bin/bash\n"@ + (if wine {
        "wine "@
    } else {
        ""@
    }) + replace(path, " "@, "\\ "@)
}

/// Builds the start script of an executable.
pub fn legacy_exe_script_for(wine: bool, path: &str) -> (r: String)
    ensures
        r@ == legacy_exe_script(wine, path@),
{
    proof {
        reveal_strlit(" ");
    }
    let start = if wine {
        "#!/bin/bash\nwine ".to_owned()
    } else {
        "#!/bin/bash\n".to_owned()
    };
    assert(start@ == "#!/bin/bash\n"@ + (if wine {
        "wine "@
    } else {
        ""@
    })) by {
        reveal_strlit("#!/bin/bash\nwine ");
        reveal_strlit("#!/bin/bash\n");
        reveal_strlit("wine ");
        reveal_strlit("");
    }
    let escaped = replace_str(path, " ", "\\ ");
    concat_str(start.as_str(), escaped.as_str())
}

/// The start script of a Steam game.
pub open spec fn legacy_steam_script(appid: Seq<char>) -> Seq<char> {
    "#!/bin/bash\nsteam 'steam://rungameid/"@ + appid + "'"@
}

/// Builds the start script of a Steam game.
pub fn legacy_steam_script_for(appid: &str) -> (r: String)
    ensures
        r@ == legacy_steam_script(appid@),
{
    let a = concat_str("#!/bin/bash\nsteam 'steam://rungameid/", appid);
    concat_str(a.as_str(), "'")
}

/// What the first version's manifest search reports: the app id, name and
/// directory of the game found, or the placeholders `appid`, `name` and
/// `outname` when none was.
pub fn legacy_search_result(found: Option<SearchResult>) -> (r: (String, String, String))
    ensures
        found matches Some(f) ==> r.0@ == f.appid@ && r.1@ == f.name@ && r.2@ == f.outname@,
        found is None ==> r.0@ == "appid"@ && r.1@ == "name"@ && r.2@ == "outname"@,
{
    match found {
        Some(f) => (f.appid, f.name, f.outname),
        None => ("appid".to_owned(), "name".to_owned(), "outname".to_owned()),
    }
}

/// The first version took a search that reported the name `name` as having
/// found nothing.
pub fn legacy_search_found(name: &str) -> (r: bool)
    ensures
        r == (name@ != "name"@),
{
    let n = name.to_owned();
    let placeholder = "name".to_owned();
    !(n == placeholder)
}

/// The game list that the first version fed to the menu: each name followed
/// by a line break.
pub fn legacy_menu_list(names: &Vec<String>) -> (r: String)
    ensures
        r@ == crate::menu::joined_lines(string_views(names@)),
{
    let ghost all = string_views(names@);
    let mut out = String::new();
    let mut i: usize = 0;
    assert(all.take(0) =~= Seq::<Seq<char>>::empty());
    while i < names.len()
        invariant
            i <= names@.len(),
            all == string_views(names@),
            out@ == crate::menu::joined_lines(all.take(i as int)),
        decreases names@.len() - i,
    {
        assert(all.take(i + 1).drop_last() =~= all.take(i as int));
        assert(all.take(i + 1).last() == names@[i as int]@);
        let a = concat_str(out.as_str(), names[i].as_str());
        out = concat_str(a.as_str(), "\n");
        proof {
            reveal_strlit("\n");
        }
        i = i + 1;
    }
    assert(all.take(i as int) =~= all);
    out
}

/// The shell line that the first version ran for the game picked in the menu.
pub open spec fn legacy_launch_line(output: Seq<char>) -> Seq<char> {
    "~/.config/eidolon/games/"@ + trim(output) + "/start"@
}

/// Builds the line that starts the game picked in the menu.
pub fn legacy_launch_command(output: &str) -> (r: String)
    ensures
        r@ == legacy_launch_line(output@),
{
    let t = trim_str(output);
    let a = concat_str("~/.config/eidolon/games/", t.as_str());
    concat_str(a.as_str(), "/start")
}


/// A Steam game that the first version registered, by a start script, is
/// converted into a Steam game with the command that the current version
/// gives a Steam game of that app id.
pub proof fn law_legacy_steam_script_converts(appid: Seq<char>)
    requires
        free_of(appid, '\n'),
    ensures
        lines(legacy_steam_script(appid)).len() == 2,
        lines(legacy_steam_script(appid))[1] == steam_command(appid),
        command_type(lines(legacy_steam_script(appid))[1]) == GameType::Steam,
{
    reveal_strlit("#!/bin/bash\nsteam 'steam://rungameid/");
    reveal_strlit("steam 'steam://rungameid/");
    reveal_strlit("#!/bin/bash");
    reveal_strlit("'");
    let h = "#!/bin/bash"@;
    let c = steam_command(appid);
    let script = legacy_steam_script(appid);
    assert(script =~= h.push('\n') + c);
    assert(free_of(h, '\n'));
    assert forall|i: int| 0 <= i < c.len() implies c[i] != '\n' by {
        if 25 <= i < 25 + appid.len() {
            assert(c[i] == appid[i - 25]);
        }
    }
    lemma_split_single(h, '\n');
    lemma_split_push_sep(h, '\n');
    lemma_split_append(h.push('\n'), c, '\n');
    assert(Seq::<char>::empty() + c =~= c);
    assert(split(script, '\n') =~= seq![h, c]);
    assert(h.last() != '\r');
    law_steam_command_is_steam(appid);
}

} // verus!
