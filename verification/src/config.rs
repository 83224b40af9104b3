//! Eidolon's configuration: its defaults, the conversion of the format used
//! before JSON, the expansion of the home directory in Steam library paths,
//! and the decisions taken at start-up.
use vstd::prelude::*;
use crate::helper::{is_clean_name, law_clean_name_is_registry_name, procname};
use crate::text::{
    is_mark, is_space, is_plain_char, lemma_lowered_plain,
    concat_str, contains, find, law_replace_absent, lemma_absent_first_char, lemma_find_from,
    matches_at, lines, lines_of, replace, replace_str, split,
    split_str, string_views, trim, trim_str,
};

verus! {

/// Eidolon's user config
pub struct Config {
    pub steam_dirs: Vec<String>,
    pub menu_command: String,
    pub prefix_command: String,
    pub blocked: Vec<String>,
}

/// The pre-3.7 config
pub struct OldConfig {
    pub steam_dirs: Vec<String>,
    pub menu_command: String,
    pub prefix_command: String,
}

/// The names that are never registered unless the user says otherwise.
pub open spec fn default_blocked_names() -> Seq<Seq<char>> {
    seq!["steamworks_common_redistributables"@, "proton_3.7"@, "proton_3.7_beta"@]
}

/// The names blocked by default: Steam's redistributables and Proton 3.7.
pub fn default_blocked() -> (r: Vec<String>)
    ensures
        string_views(r@) == default_blocked_names(),
{
    let mut v: Vec<String> = Vec::new();
    v.push("steamworks_common_redistributables".to_owned());
    v.push("proton_3.7".to_owned());
    v.push("proton_3.7_beta".to_owned());
    assert(string_views(v@) =~= default_blocked_names());
    v
}

/// The default blocked names are registry names already, so the exact
/// comparison with a game's registry name can match them.
pub proof fn law_blocked_names_are_registry_names()
    ensures
        forall|i: int|
            0 <= i < default_blocked_names().len() ==> procname(
                #[trigger] default_blocked_names()[i],
            ) == default_blocked_names()[i],
{
    reveal_strlit("steamworks_common_redistributables");
    reveal_strlit("proton_3.7");
    reveal_strlit("proton_3.7_beta");
    let b = default_blocked_names();
    assert forall|i: int| 0 <= i < b.len() implies procname(#[trigger] b[i]) == b[i] by {
        assert forall|k: int| 0 <= k < b[i].len() implies !is_space(#[trigger] b[i][k]) && b[i][k]
            != '-' && !is_mark(b[i][k]) && is_plain_char(b[i][k]) by {
            let c = b[i][k];
            assert(c == '_' || c == '.' || ('0' <= c && c <= '9') || ('a' <= c && c <= 'z'));
        }
        assert(is_clean_name(b[i]));
        lemma_lowered_plain(b[i]);
        law_clean_name_is_registry_name(b[i]);
    }
}

/// The Steam library that a new config lists.
pub open spec fn default_steam_dir() -> Seq<char> {
    "$HOME/.local/share/steam/steamapps"@
}

/// The menu command that a new config holds: rofi as a menu.
pub open spec fn default_menu_command() -> Seq<char> {
    "rofi -theme sidebar -mesg 'eidolon game:' -p '> ' -dmenu"@
}

impl Config {
    /// The config written at the first start: the default Steam library,
    /// rofi as the menu, no prefix command and the default blocked names.
    pub fn default() -> (r: Config)
        ensures
            string_views(r.steam_dirs@) == seq![default_steam_dir()],
            r.menu_command@ == default_menu_command(),
            r.prefix_command@ == ""@,
            string_views(r.blocked@) == default_blocked_names(),
    {
        let mut steam_dirs: Vec<String> = Vec::new();
        steam_dirs.push("$HOME/.local/share/steam/steamapps".to_owned());
        assert(string_views(steam_dirs@) =~= seq![default_steam_dir()]);
        Config {
            steam_dirs,
            menu_command: "rofi -theme sidebar -mesg 'eidolon game:' -p '> ' -dmenu".to_owned(),
            prefix_command: "".to_owned(),
            blocked: default_blocked(),
        }
    }
}

fn copy_strings(v: &Vec<String>) -> (r: Vec<String>)
    ensures
        string_views(r@) == string_views(v@),
{
    let mut out: Vec<String> = Vec::new();
    let mut i: usize = 0;
    while i < v.len()
        invariant
            i <= v@.len(),
            string_views(out@) == string_views(v@).take(i as int),
        decreases v@.len() - i,
    {
        let ghost o = string_views(out@);
        out.push(v[i].clone());
        assert(string_views(out@) =~= o.push(v@[i as int]@));
        assert(string_views(v@).take(i + 1) =~= string_views(v@).take(i as int).push(v@[i as int]@));
        i = i + 1;
    }
    assert(string_views(v@).take(i as int) =~= string_views(v@));
    out
}

/// The JSON config that an old config converts to: its Steam libraries,
/// menu command and prefix command, with the default blocked names.
pub fn config_from_old(old: &OldConfig) -> (r: Config)
    ensures
        string_views(r.steam_dirs@) == string_views(old.steam_dirs@),
        r.menu_command@ == old.menu_command@,
        r.prefix_command@ == old.prefix_command@,
        string_views(r.blocked@) == default_blocked_names(),
{
    Config {
        steam_dirs: copy_strings(&old.steam_dirs),
        menu_command: old.menu_command.clone(),
        prefix_command: old.prefix_command.clone(),
        blocked: default_blocked(),
    }
}

/// A Steam library path with the home directory put in: `$HOME` replaced
/// by `home`, then `~`.
pub open spec fn expand_home(dir: Seq<char>, home: Seq<char>) -> Seq<char> {
    replace(replace(dir, "$HOME"@, home), "~"@, home)
}

/// A path that names neither `$HOME` nor `~` is left as it is.
pub proof fn law_expand_home_keeps_plain_paths(dir: Seq<char>, home: Seq<char>)
    requires
        !contains(dir, "$HOME"@),
        !contains(dir, "~"@),
    ensures
        expand_home(dir, home) == dir,
{
    reveal_strlit("$HOME");
    reveal_strlit("~");
    law_replace_absent(dir, "$HOME"@, home);
    law_replace_absent(dir, "~"@, home);
}

/// The default Steam library, once the home directory is put in, is the
/// Steam library under that home directory (for a home directory without
/// `~`, which would itself be replaced).
pub proof fn law_default_steam_dir_expands(home: Seq<char>)
    requires
        !contains(home, "~"@),
    ensures
        expand_home(default_steam_dir(), home) == home + "/.local/share/steam/steamapps"@,
{
    reveal_strlit("$HOME/.local/share/steam/steamapps");
    reveal_strlit("/.local/share/steam/steamapps");
    reveal_strlit("$HOME");
    reveal_strlit("~");
    let d = default_steam_dir();
    let rest = "/.local/share/steam/steamapps"@;
    let h = "$HOME"@;
    assert(d.subrange(0, 5) =~= h);
    assert(d.skip(5) =~= rest);
    lemma_absent_first_char(rest, h);
    law_replace_absent(rest, h, home);
    assert(replace(d, h, home) == home + replace(d.skip(5), h, home));
    let e = home + rest;
    assert forall|i: int| 0 <= i < e.len() implies #[trigger] e[i] != "~"@[0] by {
        if i < home.len() {
            if home[i] == '~' {
                assert(home.subrange(i, i + 1) =~= "~"@);
                assert(matches_at(home, "~"@, i));
                lemma_find_from(home, "~"@, 0);
            }
        } else {
            assert(e[i] == rest[i - home.len()]);
        }
    }
    lemma_absent_first_char(e, "~"@);
    law_replace_absent(e, "~"@, home);
}

/// Replaces `$HOME` and then `~` in a Steam library path by `home`.
pub fn expand_home_dir(dir: &str, home: &str) -> (r: String)
    ensures
        r@ == expand_home(dir@, home@),
{
    proof {
        reveal_strlit("$HOME");
        reveal_strlit("~");
    }
    let a = replace_str(dir, "$HOME", home);
    replace_str(a.as_str(), "~", home)
}

/// The config as it is used: each Steam library path with the home
/// directory put in for `$HOME` and `~`, everything else as it was read.
pub fn with_home_expanded(config: Config, home: &str) -> (r: Config)
    ensures
        r.steam_dirs@.len() == config.steam_dirs@.len(),
        forall|i: int|
            0 <= i < r.steam_dirs@.len() ==> #[trigger] r.steam_dirs@[i]@ == expand_home(
                config.steam_dirs@[i]@,
                home@,
            ),
        r.menu_command@ == config.menu_command@,
        r.prefix_command@ == config.prefix_command@,
        string_views(r.blocked@) == string_views(config.blocked@),
{
    let mut dirs: Vec<String> = Vec::new();
    let mut i: usize = 0;
    while i < config.steam_dirs.len()
        invariant
            i <= config.steam_dirs@.len(),
            dirs@.len() == i,
            forall|k: int|
                0 <= k < i ==> #[trigger] dirs@[k]@ == expand_home(config.steam_dirs@[k]@, home@),
        decreases config.steam_dirs@.len() - i,
    {
        dirs.push(expand_home_dir(config.steam_dirs[i].as_str(), home));
        i = i + 1;
    }
    Config {
        steam_dirs: dirs,
        menu_command: config.menu_command,
        prefix_command: config.prefix_command,
        blocked: config.blocked,
    }
}

/// The Steam libraries listed on a config line: the fields between its
/// first and its last `'|'`, trimmed, with `$HOME` replaced by `home`.
pub open spec fn listed_steam_dirs(line: Seq<char>, home: Seq<char>) -> Seq<Seq<char>> {
    let p = split(line, '|');
    let inner = if p.len() >= 2 {
        p.subrange(1, p.len() - 1)
    } else {
        Seq::empty()
    };
    inner.map_values(|x: Seq<char>| replace(trim(x), "$HOME"@, home))
}

/// Reads the `'|'`-separated list of Steam libraries on a config line.
pub fn parse_steam_dir_list(line: &str, home: &str) -> (r: Vec<String>)
    ensures
        string_views(r@) == listed_steam_dirs(line@, home@),
{
    let parts = split_str(line, '|');
    let ghost p = string_views(parts@);
    let ghost inner = if p.len() >= 2 {
        p.subrange(1, p.len() - 1)
    } else {
        Seq::empty()
    };
    let mut dirs: Vec<String> = Vec::new();
    let mut k: usize = 1;
    let end = if parts.len() >= 2 {
        parts.len() - 1
    } else {
        1
    };
    while k < end
        invariant
            1 <= k <= end,
            end <= parts@.len() || end == 1,
            end == if p.len() >= 2 {
                p.len() - 1
            } else {
                1
            },
            p == string_views(parts@),
            string_views(dirs@) =~= inner.take(k - 1).map_values(
                |x: Seq<char>| replace(trim(x), "$HOME"@, home@),
            ),
            inner == if p.len() >= 2 {
                p.subrange(1, p.len() - 1)
            } else {
                Seq::empty()
            },
        decreases end - k,
    {
        proof {
            reveal_strlit("$HOME");
        }
        assert(p[k as int] == parts@[k as int]@);
        let t = trim_str(parts[k].as_str());
        let ghost d0 = string_views(dirs@);
        let d = replace_str(t.as_str(), "$HOME", home);
        let ghost dv = d@;
        dirs.push(d);
        assert(string_views(dirs@) =~= d0.push(dv));
        assert(inner.take(k as int) =~= inner.take(k - 1).push(p[k as int]));
        assert(inner.take(k as int).map_values(|x: Seq<char>| replace(trim(x), "$HOME"@, home@))
            =~= inner.take(k - 1).map_values(|x: Seq<char>| replace(trim(x), "$HOME"@, home@)).push(
            dv,
        ));
        k = k + 1;
    }
    assert(inner.take(end - 1) =~= inner);
    dirs
}

/// An old config can be read: it has a Steam library line and a menu
/// command line whose second `'|'`-separated field is the command, and a
/// prefix command line, if there is one, has a second field too.
pub open spec fn old_config_readable(conf: Seq<char>) -> bool {
    let ls = lines(conf);
    &&& ls.len() >= 2
    &&& split(ls[1], '|').len() >= 2
    &&& ls.len() >= 3 ==> split(ls[2], '|').len() >= 2
}

/// The prefix command of an old config: the second field of its third line,
/// or a single space where it has none.
pub open spec fn old_prefix_command(conf: Seq<char>) -> Seq<char> {
    let ls = lines(conf);
    if ls.len() >= 3 {
        split(ls[2], '|')[1]
    } else {
        " "@
    }
}

/// Whether an old config can be read.
pub fn old_config_is_readable(conf: &str) -> (r: bool)
    ensures
        r == old_config_readable(conf@),
{
    let ls = lines_of(conf);
    if ls.len() < 2 {
        return false;
    }
    assert(string_views(ls@)[1] == ls@[1]@);
    if split_str(ls[1].as_str(), '|').len() < 2 {
        return false;
    }
    if ls.len() >= 3 {
        assert(string_views(ls@)[2] == ls@[2]@);
        split_str(ls[2].as_str(), '|').len() >= 2
    } else {
        true
    }
}

/// Parses the config format that eidolon used before its JSON config: the
/// `'|'`-separated Steam libraries of the first line (with `$HOME` put in for
/// the home directory), the menu command from the second line, and the
/// prefix command from the third.
pub fn parse_old_config(conf: &str, home: &str) -> (r: OldConfig)
    requires
        old_config_readable(conf@),
    ensures
        string_views(r.steam_dirs@) == listed_steam_dirs(lines(conf@)[0], home@),
        r.menu_command@ == split(lines(conf@)[1], '|')[1],
        r.prefix_command@ == old_prefix_command(conf@),
{
    let ls = lines_of(conf);
    assert(string_views(ls@)[0] == ls@[0]@);
    assert(string_views(ls@)[1] == ls@[1]@);
    let steam_dirs = parse_steam_dir_list(ls[0].as_str(), home);
    let menu_fields = split_str(ls[1].as_str(), '|');
    assert(string_views(menu_fields@)[1] == menu_fields@[1]@);
    let menu_command = menu_fields[1].clone();
    let prefix_command = if ls.len() >= 3 {
        assert(string_views(ls@)[2] == ls@[2]@);
        let prefix_fields = split_str(ls[2].as_str(), '|');
        assert(string_views(prefix_fields@)[1] == prefix_fields@[1]@);
        prefix_fields[1].clone()
    } else {
        " ".to_owned()
    };
    OldConfig { steam_dirs, menu_command, prefix_command }
}

/// What start-up does next.
#[derive(Debug, PartialEq, Eq, Structural, Clone, Copy)]
pub enum StartupStep {
    /// Eidolon is set up: go on.
    Ready,
    /// Eidolon is not set up: set it up, then look again.
    Initialise,
    /// Eidolon is still not set up after setting it up: stop.
    GiveUp,
}

/// The next step of start-up: go on once a check finds eidolon set up; set
/// it up once where it is not; stop where setting it up did not help.
pub open spec fn startup_step(inited: bool, init_tried: bool) -> StartupStep {
    if inited {
        StartupStep::Ready
    } else if !init_tried {
        StartupStep::Initialise
    } else {
        StartupStep::GiveUp
    }
}

/// Checks if eidolon has been inited; if it hasn't, tries to init. Given
/// whether the last check found eidolon set up and whether setting it up
/// has been tried, says what to do next: set-up is tried once, and start-up
/// goes on exactly when a check finds eidolon set up.
pub fn startup(inited: bool, init_tried: bool) -> (r: StartupStep)
    ensures
        r == startup_step(inited, init_tried),
{
    if inited {
        StartupStep::Ready
    } else if !init_tried {
        StartupStep::Initialise
    } else {
        StartupStep::GiveUp
    }
}

/// Whether eidolon has been set up, as its directories and config files show.
#[derive(Debug, PartialEq, Eq, Structural, Clone, Copy)]
pub enum InitState {
    /// The eidolon directory or the games directory is missing, or no config is found.
    NotInited,
    /// Set up with a config in the old format, which is to be converted.
    OldConfig,
    /// Set up with a JSON config.
    Inited,
}

/// What the set-up files show: not set up without both directories; set up
/// with an old config where one is there; else set up exactly where the
/// JSON config is there.
pub open spec fn init_state_of(eidolon_dir: bool, games_dir: bool, old_config: bool, json_config: bool) -> InitState {
    if !(eidolon_dir && games_dir) {
        InitState::NotInited
    } else if old_config {
        InitState::OldConfig
    } else if json_config {
        InitState::Inited
    } else {
        InitState::NotInited
    }
}

/// The files that a completed set-up leaves (the eidolon directory, the
/// games directory and the JSON config) are found set up, whether or not an
/// old config is still there; and a start-up whose check finds eidolon set
/// up goes on at once, setting nothing up again.
pub proof fn law_set_up_is_found_set_up(old_config: bool, init_tried: bool)
    ensures
        init_state_of(true, true, old_config, true) != InitState::NotInited,
        !old_config ==> init_state_of(true, true, old_config, true) == InitState::Inited,
        startup_step(true, init_tried) == StartupStep::Ready,
{
}

/// Whether eidolon has been set up: both directories must exist; an old
/// config is converted (and counts as set up) before a JSON one is looked for.
pub fn init_state(eidolon_dir: bool, games_dir: bool, old_config: bool, json_config: bool) -> (r:
    InitState)
    ensures
        r == init_state_of(eidolon_dir, games_dir, old_config, json_config),
{
    if !eidolon_dir || !games_dir {
        InitState::NotInited
    } else if old_config {
        InitState::OldConfig
    } else if json_config {
        InitState::Inited
    } else {
        InitState::NotInited
    }
}

/// Eidolon's own directory under a home directory.
pub open spec fn eidolon_dir_path(home: Seq<char>) -> Seq<char> {
    home + "/.config/eidolon"@
}

/// The JSON config file under a home directory.
pub open spec fn config_json_path(home: Seq<char>) -> Seq<char> {
    home + "/.config/eidolon/config.json"@
}

/// The old-format config file under a home directory.
pub open spec fn old_config_path(home: Seq<char>) -> Seq<char> {
    home + "/.config/eidolon/config"@
}

/// Eidolon's own directory.
pub fn eidolon_dir(home: &str) -> (r: String)
    ensures
        r@ == eidolon_dir_path(home@),
{
    concat_str(home, "/.config/eidolon")
}

/// The JSON config file.
pub fn config_json_file(home: &str) -> (r: String)
    ensures
        r@ == config_json_path(home@),
{
    concat_str(home, "/.config/eidolon/config.json")
}

/// The old-format config file.
pub fn old_config_file(home: &str) -> (r: String)
    ensures
        r@ == old_config_path(home@),
{
    concat_str(home, "/.config/eidolon/config")
}

} // verus!
