//! The game registry: what a registered game is, how older registrations
//! are converted, when a shortcut is made, and how a game is launched.
use vstd::prelude::*;
use crate::helper::{create_procname, procname};
use crate::text::{
    chars_of, concat_str, contains, contains_str, lines, list_contains, string_of, lines_of, lowered, lower_str, path_push, push_path, replace,
    replace_str, string_views, spaces_escaped, unescaped, law_escaped_spaces, law_unescape_escaped,
};

verus! {

/// An Enum for the different types of games Eidolon can support
#[derive(Debug, PartialEq, Eq, Structural, Clone, Copy)]
pub enum GameType {
    Itch,
    Steam,
    Lutris,
    Exe,
    Dolphin,
    WyvernGOG,
}

/// The name a game type is shown under.
pub open spec fn type_label(t: GameType) -> Seq<char> {
    match t {
        GameType::Itch => "Itch"@,
        GameType::Steam => "Steam"@,
        GameType::Lutris => "Lutris"@,
        GameType::Exe => "Exe"@,
        GameType::Dolphin => "Dolphin"@,
        GameType::WyvernGOG => "WyvernGOG"@,
    }
}

/// Each game type is shown under its own variant's name, and under no
/// other type's name.
pub proof fn law_type_label_names_variant(t: GameType)
    ensures
        type_label(t) == "Itch"@ <==> t == GameType::Itch,
        type_label(t) == "Steam"@ <==> t == GameType::Steam,
        type_label(t) == "Lutris"@ <==> t == GameType::Lutris,
        type_label(t) == "Exe"@ <==> t == GameType::Exe,
        type_label(t) == "Dolphin"@ <==> t == GameType::Dolphin,
        type_label(t) == "WyvernGOG"@ <==> t == GameType::WyvernGOG,
{
    reveal_strlit("Itch");
    reveal_strlit("Steam");
    reveal_strlit("Lutris");
    reveal_strlit("Exe");
    reveal_strlit("Dolphin");
    reveal_strlit("WyvernGOG");
    assert("Itch"@.len() == 4 && "Steam"@.len() == 5 && "Lutris"@.len() == 6);
    assert("Exe"@.len() == 3 && "Dolphin"@.len() == 7 && "WyvernGOG"@.len() == 9);
    match t {
        GameType::Itch => assert(type_label(t).len() == 4),
        GameType::Steam => assert(type_label(t).len() == 5),
        GameType::Lutris => assert(type_label(t).len() == 6),
        GameType::Exe => assert(type_label(t).len() == 3),
        GameType::Dolphin => assert(type_label(t).len() == 7),
        GameType::WyvernGOG => assert(type_label(t).len() == 9),
    }
}

impl GameType {
    /// The name this game type is shown under (its variant's name).
    pub fn label(&self) -> (r: String)
        ensures
            r@ == type_label(*self),
    {
        match self {
            GameType::Itch => "Itch".to_owned(),
            GameType::Steam => "Steam".to_owned(),
            GameType::Lutris => "Lutris".to_owned(),
            GameType::Exe => "Exe".to_owned(),
            GameType::Dolphin => "Dolphin".to_owned(),
            GameType::WyvernGOG => "WyvernGOG".to_owned(),
        }
    }
}

/// Represents a game registered in eidolon
#[derive(Debug)]
pub struct Game {
    pub command: String,
    pub pname: String,
    pub name: String,
    pub typeg: GameType,
}

/// The registry name behind a file of the games directory: the file name
/// without its final `.json`.
pub open spec fn registry_name_of(file_name: Seq<char>) -> Seq<char> {
    let n = file_name.len();
    if n >= 5 && file_name.subrange(n - 5, n as int) == ".json"@ {
        file_name.take(n - 5)
    } else {
        file_name
    }
}

/// The registry name that a file of the games directory stands for.
pub fn registry_name(file_name: &str) -> (r: String)
    ensures
        r@ == registry_name_of(file_name@),
{
    proof {
        reveal_strlit(".json");
    }
    let c = chars_of(file_name);
    let n = c.len();
    if n >= 5 && c[n - 5] == '.' && c[n - 4] == 'j' && c[n - 3] == 's' && c[n - 2] == 'o' && c[n
        - 1] == 'n' {
        assert(c@.subrange(n - 5, n as int) =~= ".json"@);
        let mut out: Vec<char> = Vec::new();
        let mut i: usize = 0;
        while i < n - 5
            invariant
                n == c@.len(),
                n >= 5,
                i <= n - 5,
                out@ =~= c@.take(i as int),
            decreases n - 5 - i,
        {
            out.push(c[i]);
            i = i + 1;
        }
        string_of(out.as_slice())
    } else {
        proof {
            if n >= 5 && c@.subrange(n - 5, n as int) == ".json"@ {
                assert(c@.subrange(n - 5, n as int)[0] == c@[n - 5]);
                assert(c@.subrange(n - 5, n as int)[1] == c@[n - 4]);
                assert(c@.subrange(n - 5, n as int)[2] == c@[n - 3]);
                assert(c@.subrange(n - 5, n as int)[3] == c@[n - 2]);
                assert(c@.subrange(n - 5, n as int)[4] == c@[n - 1]);
            }
        }
        file_name.to_owned()
    }
}

/// The kind of game that a start command launches.
pub open spec fn command_type(command: Seq<char>) -> GameType {
    if contains(command, "steam://rungameid"@) {
        GameType::Steam
    } else if contains(command, "lutris:rungameid"@) {
        GameType::Lutris
    } else {
        GameType::Exe
    }
}

/// Tells from a start command which kind of game it launches.
pub fn classify_command(command: &str) -> (r: GameType)
    ensures
        r == command_type(command@),
{
    if contains_str(command, "steam://rungameid") {
        GameType::Steam
    } else if contains_str(command, "lutris:rungameid") {
        GameType::Lutris
    } else {
        GameType::Exe
    }
}

/// Converts a game registered in the old format, as a directory `name` with
/// a start script, into a game: the script's second line is its command.
pub fn convert_old_entry(name: &str, start_script: &str) -> (r: Game)
    requires
        lines(start_script@).len() >= 2,
    ensures
        r.name@ == name@,
        r.pname@ == name@,
        r.command@ == lines(start_script@)[1],
        r.typeg == command_type(lines(start_script@)[1]),
{
    let ls = lines_of(start_script);
    assert(string_views(ls@)[1] == ls@[1]@);
    let command = ls[1].clone();
    let typeg = classify_command(command.as_str());
    Game { name: name.to_owned(), pname: name.to_owned(), command, typeg }
}

/// What becomes of a request to register a game.
#[derive(Debug, PartialEq, Eq, Structural, Clone, Copy)]
pub enum AddOutcome {
    /// A shortcut of that name exists already.
    AlreadyMade,
    /// The name is on the blocked list.
    Blocked,
    /// The shortcut is to be written.
    Make,
}

/// `name` is one of `blocked`.
pub open spec fn is_blocked(name: Seq<char>, blocked: Seq<Seq<char>>) -> bool {
    blocked.contains(name)
}

/// A name is blocked exactly when some entry of the blocked list is that
/// name; so every entry of a blocked list is blocked, and a name on none of
/// its entries is not.
pub proof fn law_blocked_exactly_when_listed(name: Seq<char>, blocked: Seq<Seq<char>>)
    ensures
        is_blocked(name, blocked) <==> exists|i: int| 0 <= i < blocked.len() && #[trigger] blocked[i]
            == name,
        forall|i: int| 0 <= i < blocked.len() ==> is_blocked(#[trigger] blocked[i], blocked),
{
    assert forall|i: int| 0 <= i < blocked.len() implies is_blocked(#[trigger] blocked[i], blocked) by {
        assert(blocked.contains(blocked[i]));
    }
}

/// Whether the game name is on the blocked list.
pub fn name_is_blocked(name: &str, blocked: &Vec<String>) -> (r: bool)
    ensures
        r == is_blocked(name@, string_views(blocked@)),
{
    list_contains(blocked, name)
}

/// Decides whether a game is registered: not when a shortcut of its name
/// exists already, nor when its name is blocked; otherwise it is.
pub fn shortcut_decision(exists: bool, name: &str, blocked: &Vec<String>) -> (r: AddOutcome)
    ensures
        exists ==> r == AddOutcome::AlreadyMade,
        !exists && is_blocked(name@, string_views(blocked@)) ==> r == AddOutcome::Blocked,
        !exists && !is_blocked(name@, string_views(blocked@)) ==> r == AddOutcome::Make,
{
    if exists {
        AddOutcome::AlreadyMade
    } else if name_is_blocked(name, blocked) {
        AddOutcome::Blocked
    } else {
        AddOutcome::Make
    }
}

/// The line under which a game is listed: shown name, registry name, type.
pub open spec fn listing_line_of(g: Game) -> Seq<char> {
    g.pname@ + " - "@ + g.name@ + " - "@ + type_label(g.typeg)
}

/// The line that lists a registered game.
pub fn listing_line(game: &Game) -> (r: String)
    ensures
        r@ == listing_line_of(*game),
{
    let a = concat_str(game.pname.as_str(), " - ");
    let b = concat_str(a.as_str(), game.name.as_str());
    let c = concat_str(b.as_str(), " - ");
    let label = game.typeg.label();
    concat_str(c.as_str(), label.as_str())
}

/// How a registered game is started.
#[derive(Debug)]
pub enum Launch {
    /// Through the itch.io butler daemon, by cave id.
    Butler { cave_id: String },
    /// By running a program with arguments.
    Program { program: String, args: Vec<String> },
}

/// The shell line that runs a game's command: the configured prefix
/// command, where there is one, in front of the game's command.
pub open spec fn prefixed_command(prefix: Seq<char>, command: Seq<char>) -> Seq<char> {
    if prefix.len() == 0 {
        command
    } else {
        prefix + " "@ + command
    }
}

/// A path as one word of a shell line: each of its spaces escaped.
pub open spec fn shell_word(path: Seq<char>) -> Seq<char> {
    replace(path, " "@, "\\ "@)
}

/// The shell line that runs a Dolphin game.
pub open spec fn dolphin_line(path: Seq<char>) -> Seq<char> {
    "dolphin-emu-cli "@ + shell_word(path)
}

/// The shell line that runs a GOG game installed by Wyvern in `dir`.
pub open spec fn gog_line(dir: Seq<char>) -> Seq<char> {
    shell_word(path_push(dir, "start.sh"@))
}

/// The launch that runs `line` with `sh -c`.
pub open spec fn is_shell_launch(r: Launch, line: Seq<char>) -> bool {
    r matches Launch::Program { program, args } && program@ == "sh"@ && string_views(args@)
        == seq!["-c"@, line]
}

fn shell_launch(line: String) -> (r: Launch)
    ensures
        is_shell_launch(r, line@),
{
    let mut args: Vec<String> = Vec::new();
    args.push("-c".to_owned());
    args.push(line);
    assert(string_views(args@) =~= seq!["-c"@, line@]);
    Launch::Program { program: "sh".to_owned(), args }
}

/// `prefixed_command` for a non-empty prefix.
fn prefixed_line(prefix: &str, line: &str) -> (r: String)
    requires
        prefix@.len() > 0,
    ensures
        r@ == prefixed_command(prefix@, line@),
{
    let head = concat_str(prefix, " ");
    concat_str(head.as_str(), line)
}

/// How a game is started: itch.io games through butler by their cave id;
/// Dolphin games by `dolphin-emu-cli` with the game's path, and GOG games
/// installed by Wyvern by the `start.sh` in their directory; all others by
/// `sh -c` with their command. Where a prefix command is configured, it goes
/// in front of every command that runs a game, and Dolphin and GOG games are
/// then run by `sh -c` too, their path as one shell word.
pub fn launch_plan(game: &Game, prefix: &str) -> (r: Launch)
    ensures
        game.typeg == GameType::Itch ==> (r matches Launch::Butler { cave_id } && cave_id@
            == game.command@),
        game.typeg == GameType::Dolphin && prefix@.len() == 0 ==> (r matches Launch::Program {
            program,
            args,
        } && program@ == "dolphin-emu-cli"@ && string_views(args@) == seq![game.command@]),
        game.typeg == GameType::Dolphin && prefix@.len() > 0 ==> is_shell_launch(
            r,
            prefixed_command(prefix@, dolphin_line(game.command@)),
        ),
        game.typeg == GameType::WyvernGOG && prefix@.len() == 0 ==> (r matches Launch::Program {
            program,
            args,
        } && program@ == path_push(game.command@, "start.sh"@) && args@.len() == 0),
        game.typeg == GameType::WyvernGOG && prefix@.len() > 0 ==> is_shell_launch(
            r,
            prefixed_command(prefix@, gog_line(game.command@)),
        ),
        game.typeg != GameType::Itch && game.typeg != GameType::Dolphin && game.typeg
            != GameType::WyvernGOG ==> is_shell_launch(
            r,
            prefixed_command(prefix@, game.command@),
        ),
{
    proof {
        reveal_strlit(" ");
    }
    match game.typeg {
        GameType::Itch => Launch::Butler { cave_id: game.command.clone() },
        GameType::Dolphin => {
            if prefix.is_empty() {
                let mut args: Vec<String> = Vec::new();
                args.push(game.command.clone());
                assert(string_views(args@) =~= seq![game.command@]);
                Launch::Program { program: "dolphin-emu-cli".to_owned(), args }
            } else {
                let escaped = replace_str(game.command.as_str(), " ", "\\ ");
                let line = concat_str("dolphin-emu-cli ", escaped.as_str());
                shell_launch(prefixed_line(prefix, line.as_str()))
            }
        },
        GameType::WyvernGOG => {
            let program = push_path(game.command.as_str(), "start.sh");
            if prefix.is_empty() {
                Launch::Program { program, args: Vec::new() }
            } else {
                let line = replace_str(program.as_str(), " ", "\\ ");
                shell_launch(prefixed_line(prefix, line.as_str()))
            }
        },
        _ => {
            if prefix.is_empty() {
                shell_launch(game.command.clone())
            } else {
                shell_launch(prefixed_line(prefix, game.command.as_str()))
            }
        },
    }
}

/// What came of an attempt to run a game.
pub enum RunOutcome {
    /// No game of that name is registered.
    NotFound,
    /// The game was handed to butler.
    ThroughButler,
    /// The game's program ran to its end.
    Finished { success: bool, stdout: String, stderr: String },
}

/// What running a game reports: the program's output when it succeeded, its
/// error output when it failed, and fixed texts for a game handed to butler
/// and for one that is not registered.
pub fn run_result(outcome: RunOutcome) -> (r: Result<String, String>)
    ensures
        outcome matches RunOutcome::NotFound ==> (r matches Err(e) && e@ == "Nonexistent"@),
        outcome matches RunOutcome::ThroughButler ==> (r matches Ok(m) && m@
            == "Launched through butler"@),
        outcome matches RunOutcome::Finished { success, stdout, stderr } ==> if success {
            r matches Ok(m) && m@ == stdout@
        } else {
            r matches Err(e) && e@ == stderr@
        },
{
    match outcome {
        RunOutcome::NotFound => Err("Nonexistent".to_owned()),
        RunOutcome::ThroughButler => Ok("Launched through butler".to_owned()),
        RunOutcome::Finished { success, stdout, stderr } => if success {
            Ok(stdout)
        } else {
            Err(stderr)
        },
    }
}

/// The start command of an executable: under wine (with `start` in front of
/// Windows shortcuts, whose name holds `.lnk` in any case) or run directly,
/// with each space of its path escaped.
pub open spec fn exe_command_of(wine: bool, exe: Seq<char>, path: Seq<char>) -> Seq<char> {
    let start = if wine {
        if contains(lowered(exe), ".lnk"@) {
            "wine start "@
        } else {
            "wine "@
        }
    } else {
        ""@
    };
    start + shell_word(path)
}

/// The start command of an executable is its start (`wine start `, `wine `
/// or nothing) followed by its full path as one shell word: no space of it
/// is left unescaped, and taking the escapes out gives the path back.
pub proof fn law_exe_command_escapes_every_space(wine: bool, exe: Seq<char>, path: Seq<char>)
    ensures
        ({
            let c = exe_command_of(wine, exe, path);
            let start = if wine {
                if contains(lowered(exe), ".lnk"@) {
                    "wine start "@
                } else {
                    "wine "@
                }
            } else {
                ""@
            };
            &&& c.take(start.len() as int) == start
            &&& spaces_escaped(c.skip(start.len() as int))
            &&& unescaped(c.skip(start.len() as int)) == path
        }),
{
    let c = exe_command_of(wine, exe, path);
    let start = if wine {
        if contains(lowered(exe), ".lnk"@) {
            "wine start "@
        } else {
            "wine "@
        }
    } else {
        ""@
    };
    let p = replace(path, " "@, "\\ "@);
    assert(c == start + p);
    assert(c.take(start.len() as int) =~= start);
    assert(c.skip(start.len() as int) =~= p);
    law_escaped_spaces(path);
    law_unescape_escaped(path);
}

/// The game registered for the executable `exe`, given relative to the
/// directory `cwd`, under the registry name `procname`.
pub fn exe_shortcut(procname: &str, exe: &str, cwd: &str, wine: bool) -> (r: Game)
    ensures
        r.name@ == procname@,
        r.pname@ == procname@,
        r.typeg == GameType::Exe,
        r.command@ == exe_command_of(wine, exe@, path_push(cwd@, exe@)),
{
    proof {
        reveal_strlit(" ");
    }
    let path = push_path(cwd, exe);
    let start = if wine {
        let lower = lower_str(exe);
        if contains_str(lower.as_str(), ".lnk") {
            "wine start ".to_owned()
        } else {
            "wine ".to_owned()
        }
    } else {
        "".to_owned()
    };
    let escaped = replace_str(path.as_str(), " ", "\\ ");
    let command = concat_str(start.as_str(), escaped.as_str());
    Game { pname: procname.to_owned(), name: procname.to_owned(), command, typeg: GameType::Exe }
}

/// The Dolphin game at `path`, registered under the name `name`.
pub fn dolphin_game(name: &str, path: &str) -> (r: Game)
    ensures
        r.command@ == path@,
        r.pname@ == name@,
        r.name@ == procname(name@),
        r.typeg == GameType::Dolphin,
{
    Game {
        command: path.to_owned(),
        pname: name.to_owned(),
        name: create_procname(name),
        typeg: GameType::Dolphin,
    }
}


/// The file that holds a registered game: its registry name with `.json`,
/// in the games directory.
pub open spec fn game_file_path_of(games_dir: Seq<char>, name: Seq<char>) -> Seq<char> {
    games_dir + name + ".json"@
}

/// The path of the file that holds the game registered as `name`.
pub fn game_file_path(games_dir: &str, name: &str) -> (r: String)
    ensures
        r@ == game_file_path_of(games_dir@, name@),
{
    let a = concat_str(games_dir, name);
    concat_str(a.as_str(), ".json")
}


/// The registry lists the game stored as `<name>.json` under `name` again.
pub proof fn law_registry_name_round_trip(name: Seq<char>)
    ensures
        registry_name_of(name + ".json"@) == name,
{
    reveal_strlit(".json");
    let f = name + ".json"@;
    assert(f.subrange(f.len() - 5, f.len() as int) =~= ".json"@);
    assert(f.take(f.len() - 5) =~= name);
}

/// The file that holds the game a name stands for: the file of its
/// registry name.
pub open spec fn game_file_for(games_dir: Seq<char>, name: Seq<char>) -> Seq<char> {
    game_file_path_of(games_dir, procname(name))
}

/// The path of the file that holds the game called `name`.
pub fn game_file_for_name(games_dir: &str, name: &str) -> (r: String)
    ensures
        r@ == game_file_for(games_dir@, name@),
{
    let procname = create_procname(name);
    game_file_path(games_dir, procname.as_str())
}

/// Two names with the same registry name stand for the same game file: a
/// game is found, run and removed through its registry name alone.
pub proof fn law_same_registry_name_same_file(games_dir: Seq<char>, a: Seq<char>, b: Seq<char>)
    ensures
        procname(a) == procname(b) ==> game_file_for(games_dir, a) == game_file_for(games_dir, b),
{
}

/// Whether a registered game is of the kind `kind`.
pub open spec fn of_kind(kind: GameType) -> spec_fn((Seq<char>, GameType)) -> bool {
    |g: (Seq<char>, GameType)| g.1 == kind
}

/// The name of a registered game.
pub open spec fn game_name() -> spec_fn((Seq<char>, GameType)) -> Seq<char> {
    |g: (Seq<char>, GameType)| g.0
}

/// The names, in order, of the games of the kind `kind`.
pub open spec fn names_of_kind(games: Seq<(Seq<char>, GameType)>, kind: GameType) -> Seq<Seq<char>> {
    games.filter(of_kind(kind)).map_values(game_name())
}

/// Picking the games of a kind takes the games one after the other and
/// keeps the name of each game of that kind, and nothing else: no game of
/// another kind is picked, and none of that kind is left out.
pub proof fn law_names_of_kind_pick(games: Seq<(Seq<char>, GameType)>, g: (Seq<char>, GameType), kind: GameType)
    ensures
        names_of_kind(Seq::empty(), kind) == Seq::<Seq<char>>::empty(),
        g.1 == kind ==> names_of_kind(games.push(g), kind) == names_of_kind(games, kind).push(g.0),
        g.1 != kind ==> names_of_kind(games.push(g), kind) == names_of_kind(games, kind),
{
    reveal_with_fuel(Seq::filter, 1);
    assert(games.push(g).drop_last() =~= games);
    assert(Seq::<(Seq<char>, GameType)>::empty().filter(of_kind(kind)) =~= Seq::<(Seq<char>, GameType)>::empty());
    assert(names_of_kind(Seq::empty(), kind) =~= Seq::<Seq<char>>::empty());
    if g.1 == kind {
        assert(games.push(g).filter(of_kind(kind)) == games.filter(of_kind(kind)).push(g));
        assert(names_of_kind(games.push(g), kind) =~= names_of_kind(games, kind).push(g.0));
    } else {
        assert(games.push(g).filter(of_kind(kind)) == games.filter(of_kind(kind)));
    }
}

/// Every name picked as of a kind is the name of a game of that kind.
pub proof fn law_names_of_kind_are_of_kind(games: Seq<(Seq<char>, GameType)>, kind: GameType)
    ensures
        forall|i: int|
            0 <= i < names_of_kind(games, kind).len() ==> exists|j: int|
                0 <= j < games.len() && games[j].1 == kind && games[j].0 == #[trigger] names_of_kind(
                    games,
                    kind,
                )[i],
    decreases games.len(),
{
    if games.len() > 0 {
        let rest = games.drop_last();
        let g = games.last();
        law_names_of_kind_are_of_kind(rest, kind);
        law_names_of_kind_pick(rest, g, kind);
        assert(rest.push(g) =~= games);
        let n = names_of_kind(games, kind);
        let m = names_of_kind(rest, kind);
        assert forall|i: int| 0 <= i < n.len() implies exists|j: int|
            0 <= j < games.len() && games[j].1 == kind && games[j].0 == #[trigger] n[i] by {
            if i < m.len() {
                assert(n[i] == m[i]);
                let j = choose|j: int| 0 <= j < rest.len() && rest[j].1 == kind && rest[j].0 == m[i];
                assert(games[j] == rest[j]);
            } else {
                assert(games[games.len() - 1] == g);
            }
        }
    }
}

/// The views of registered names with their kinds.
pub open spec fn kinded_views(games: Seq<(String, GameType)>) -> Seq<(Seq<char>, GameType)> {
    games.map_values(|g: (String, GameType)| (g.0@, g.1))
}

/// The registered games of one kind, in order: the itch.io games looked for
/// among the installed ones, or the Steam games unregistered once no Steam
/// library holds them any more.
pub fn games_of_kind(games: &Vec<(String, GameType)>, kind: GameType) -> (r: Vec<String>)
    ensures
        string_views(r@) == names_of_kind(kinded_views(games@), kind),
{
    let ghost all = kinded_views(games@);
    let ghost pred = of_kind(kind);
    let mut out: Vec<String> = Vec::new();
    let mut i: usize = 0;
    assert(all.take(0) =~= Seq::<(Seq<char>, GameType)>::empty());
    while i < games.len()
        invariant
            i <= games@.len(),
            all == kinded_views(games@),
            pred == of_kind(kind),
            string_views(out@) == all.take(i as int).filter(pred).map_values(game_name()),
        decreases games@.len() - i,
    {
        reveal_with_fuel(Seq::filter, 1);
        assert(all.take(i + 1).drop_last() =~= all.take(i as int));
        assert(all.take(i + 1).last() == (games@[i as int].0@, games@[i as int].1));
        let ghost before = string_views(out@);
        if games[i].1 == kind {
            out.push(games[i].0.clone());
            assert(string_views(out@) =~= before.push(games@[i as int].0@));
            assert(all.take(i + 1).filter(pred) == all.take(i as int).filter(pred).push(
                all.take(i + 1).last(),
            ));
            assert(all.take(i + 1).filter(pred).map_values(game_name()) =~= all.take(
                i as int,
            ).filter(pred).map_values(game_name()).push(games@[i as int].0@));
        } else {
            assert(all.take(i + 1).filter(pred) == all.take(i as int).filter(pred));
        }
        i = i + 1;
    }
    assert(all.take(i as int) =~= all);
    out
}

} // verus!
