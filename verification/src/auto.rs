//! Scanning of installed games: Steam app manifests, Lutris' game list, and
//! the bookkeeping of which registered games are still installed.
use vstd::prelude::*;
use vstd::utf8::*;
use vstd::string::StringSliceAdditionalSpecFns;
use crate::games::{Game, GameType, command_type};
use crate::helper::{create_procname, procname};
use crate::text::{
    concat_str, contains, contains_str, find, find_bytes, lemma_find_from, lines, lines_of, path_push,
    push_path, lemma_match_found, matches_at, slice_ok, split, split_str, str_get, string_views, trim, trim_str,
};

verus! {

/// A result from searching for steam games
pub struct SearchResult {
    pub appid: String,
    pub name: String,
    pub outname: String,
}

/// The bytes of a Steam app manifest between the end of `key` (found first,
/// `skip` bytes on) and four bytes before `end_key` (found first): the
/// slice that the manifest reader takes out, where `str::get` gives one.
pub open spec fn manifest_field(b: Seq<u8>, key: Seq<u8>, skip: int, end_key: Seq<u8>) -> Option<
    Seq<u8>,
> {
    match (find(b, key), find(b, end_key)) {
        (Some(i), Some(j)) => if j >= 4 && slice_ok(b, i + skip, j - 4) {
            Some(b.subrange(i + skip, j - 4))
        } else {
            None
        },
        _ => None,
    }
}

/// The install directory named in a manifest.
pub open spec fn install_dir_field(b: Seq<u8>) -> Option<Seq<u8>> {
    manifest_field(b, "installdir".spec_bytes(), 14, "LastUpdated".spec_bytes())
}

/// The app id named in a manifest.
pub open spec fn appid_field(b: Seq<u8>) -> Option<Seq<u8>> {
    manifest_field(b, "appid".spec_bytes(), 9, "Universe".spec_bytes())
}

/// The game's display name in a manifest.
pub open spec fn name_field(b: Seq<u8>) -> Option<Seq<u8>> {
    manifest_field(b, "name".spec_bytes(), 8, "StateFlags".spec_bytes())
}

/// The manifest mentions an install directory at all.
pub open spec fn has_install_dir(b: Seq<u8>) -> bool {
    contains(b, "installdir".spec_bytes())
}

/// The manifest `b` can be read for the directory `raw` without a slice
/// falling outside it: where it mentions an install directory, that field
/// can be taken out, and where that directory is `raw`, so can the app id
/// and the name.
pub open spec fn manifest_readable(b: Seq<u8>, raw: Seq<u8>) -> bool {
    has_install_dir(b) ==> match install_dir_field(b) {
        Some(dir) => dir == raw ==> appid_field(b) is Some && name_field(b) is Some,
        None => false,
    }
}

/// The manifest `b` describes the game installed in directory `raw`.
pub open spec fn manifest_matches(b: Seq<u8>, raw: Seq<u8>) -> bool {
    has_install_dir(b) && install_dir_field(b) == Some(raw)
}

/// Takes the field between `key` and `end_key` out of `contents`.
fn manifest_field_of(contents: &str, key: &str, skip: usize, end_key: &str) -> (r: Option<String>)
    ensures
        match manifest_field(contents.spec_bytes(), key.spec_bytes(), skip as int, end_key.spec_bytes()) {
            Some(f) => r matches Some(t) && encode_utf8(t@) == f,
            None => r is None,
        },
{
    let b = contents.as_bytes();
    match (find_bytes(b, key.as_bytes()), find_bytes(b, end_key.as_bytes())) {
        (Some(i), Some(j)) => {
            proof {
                lemma_find_from(b@, key.spec_bytes(), 0);
            }
            if j < 4 || skip > b.len() - i {
                proof {
                    encode_utf8_valid_utf8(contents@);
                    if j >= 4 {
                        assert(!is_char_boundary(b@, i + skip));
                    }
                }
                None
            } else {
                str_get(contents, i + skip, j - 4)
            }
        },
        _ => None,
    }
}

/// Reads a Steam app manifest for the game installed in directory
/// `rawname`: the app id, the display name and the directory, where the
/// manifest names that directory as its install directory.
pub fn search_manifest(contents: &str, rawname: &str) -> (r: Option<SearchResult>)
    requires
        manifest_readable(contents.spec_bytes(), rawname.spec_bytes()),
    ensures
        r is Some <==> manifest_matches(contents.spec_bytes(), rawname.spec_bytes()),
        r matches Some(res) ==> {
            &&& encode_utf8(res.outname@) == rawname.spec_bytes()
            &&& res.outname@ == rawname@
            &&& appid_field(contents.spec_bytes()) == Some(encode_utf8(res.appid@))
            &&& name_field(contents.spec_bytes()) == Some(encode_utf8(res.name@))
        },
{
    let b = contents.as_bytes();
    if find_bytes(b, "installdir".as_bytes()).is_none() {
        return None;
    }
    let outname = match manifest_field_of(contents, "installdir", 14, "LastUpdated") {
        Some(o) => o,
        None => return None,
    };
    let raw = rawname.to_owned();
    if outname == raw {
        proof {
            encode_utf8_decode_utf8(outname@);
        }
        let appid = manifest_field_of(contents, "appid", 9, "Universe");
        let name = manifest_field_of(contents, "name", 8, "StateFlags");
        match (appid, name) {
            (Some(appid), Some(name)) => Some(SearchResult { appid, name, outname }),
            _ => None,
        }
    } else {
        proof {
            encode_utf8_decode_utf8(outname@);
            encode_utf8_decode_utf8(rawname@);
        }
        None
    }
}

/// Whether `search_manifest` can read `contents` for the directory `rawname`.
pub fn manifest_is_readable(contents: &str, rawname: &str) -> (r: bool)
    ensures
        r == manifest_readable(contents.spec_bytes(), rawname.spec_bytes()),
{
    let b = contents.as_bytes();
    if find_bytes(b, "installdir".as_bytes()).is_none() {
        return true;
    }
    match manifest_field_of(contents, "installdir", 14, "LastUpdated") {
        None => false,
        Some(o) => {
            let raw = rawname.to_owned();
            proof {
                encode_utf8_decode_utf8(o@);
                encode_utf8_decode_utf8(rawname@);
            }
            if o == raw {
                manifest_field_of(contents, "appid", 9, "Universe").is_some()
                    && manifest_field_of(contents, "name", 8, "StateFlags").is_some()
            } else {
                true
            }
        },
    }
}


/// The lines of Lutris' game list that name a wine game.
pub open spec fn wine_lines(list: Seq<char>) -> Seq<Seq<char>> {
    lines(list).filter(|l: Seq<char>| contains(l, "wine"@))
}

/// The Lutris id and the name on a line of Lutris' game list: its first two
/// `'|'`-separated fields, trimmed.
pub open spec fn lutris_entry(line: Seq<char>) -> (Seq<char>, Seq<char>) {
    (trim(split(line, '|')[0]), trim(split(line, '|')[1]))
}

/// Every wine line of Lutris' game list has at least two fields.
pub open spec fn lutris_list_readable(list: Seq<char>) -> bool {
    forall|i: int| 0 <= i < wine_lines(list).len() ==> split(#[trigger] wine_lines(list)[i], '|').len() >= 2
}

/// The id and name of each wine game on Lutris' game list, in order.
pub fn parse_lutris_list(list: &str) -> (r: Vec<(String, String)>)
    requires
        lutris_list_readable(list@),
    ensures
        r@.len() == wine_lines(list@).len(),
        forall|i: int|
            0 <= i < r@.len() ==> (#[trigger] r@[i].0@, r@[i].1@) == lutris_entry(
                wine_lines(list@)[i],
            ),
{
    let ls = lines_of(list);
    let ghost all = lines(list@);
    let ghost pred = |l: Seq<char>| contains(l, "wine"@);
    let mut out: Vec<(String, String)> = Vec::new();
    let mut i: usize = 0;
    assert(all.take(0) =~= Seq::<Seq<char>>::empty());
    while i < ls.len()
        invariant
            i <= ls@.len(),
            string_views(ls@) == all,
            all == lines(list@),
            pred == (|l: Seq<char>| contains(l, "wine"@)),
            lutris_list_readable(list@),
            out@.len() == all.take(i as int).filter(pred).len(),
            forall|k: int|
                0 <= k < out@.len() ==> (#[trigger] out@[k].0@, out@[k].1@) == lutris_entry(
                    all.take(i as int).filter(pred)[k],
                ),
        decreases ls@.len() - i,
    {
        assert(all.take(i + 1).drop_last() =~= all.take(i as int));
        assert(all.take(i + 1).last() == all[i as int]);
        assert(string_views(ls@)[i as int] == ls@[i as int]@);
        reveal_with_fuel(Seq::filter, 1);
        if contains_str(ls[i].as_str(), "wine") {
            let ghost f = all.take(i as int).filter(pred);
            assert(all.take(i + 1).filter(pred) == f.push(all[i as int]));
            proof {
                assert(all =~= all.take(i + 1) + all.skip(i + 1));
                Seq::filter_distributes_over_add(all.take(i + 1), all.skip(i + 1), pred);
                assert(wine_lines(list@) == all.filter(pred));
                assert(wine_lines(list@)[f.len() as int] == all[i as int]);
            }
            let fields = split_str(ls[i].as_str(), '|');
            assert(string_views(fields@)[0] == fields@[0]@);
            assert(string_views(fields@)[1] == fields@[1]@);
            let id = trim_str(fields[0].as_str());
            let name = trim_str(fields[1].as_str());
            let ghost o0 = out@;
            out.push((id, name));
            assert forall|k: int| 0 <= k < out@.len() implies (#[trigger] out@[k].0@, out@[k].1@)
                == lutris_entry(all.take(i + 1).filter(pred)[k]) by {
                if k < o0.len() {
                    assert(out@[k] == o0[k]);
                }
            }
        } else {
            assert(all.take(i + 1).filter(pred) == all.take(i as int).filter(pred));
        }
        i = i + 1;
    }
    assert(all.take(i as int) =~= all);
    out
}


/// Whether every wine line of Lutris' game list has at least two fields.
pub fn lutris_list_is_readable(list: &str) -> (r: bool)
    ensures
        r == lutris_list_readable(list@),
{
    let ls = lines_of(list);
    let ghost all = lines(list@);
    let ghost pred = |l: Seq<char>| contains(l, "wine"@);
    let mut i: usize = 0;
    assert(all.take(0) =~= Seq::<Seq<char>>::empty());
    while i < ls.len()
        invariant
            i <= ls@.len(),
            string_views(ls@) == all,
            all == lines(list@),
            pred == (|l: Seq<char>| contains(l, "wine"@)),
            forall|k: int|
                0 <= k < all.take(i as int).filter(pred).len() ==> split(
                    #[trigger] all.take(i as int).filter(pred)[k],
                    '|',
                ).len() >= 2,
        decreases ls@.len() - i,
    {
        assert(all.take(i + 1).drop_last() =~= all.take(i as int));
        assert(all.take(i + 1).last() == all[i as int]);
        assert(string_views(ls@)[i as int] == ls@[i as int]@);
        reveal_with_fuel(Seq::filter, 1);
        proof {
            assert(all =~= all.take(i + 1) + all.skip(i + 1));
            Seq::filter_distributes_over_add(all.take(i + 1), all.skip(i + 1), pred);
            assert(all.take(i as int) =~= all.take(i as int) + Seq::<Seq<char>>::empty());
        }
        if contains_str(ls[i].as_str(), "wine") {
            let ghost f = all.take(i as int).filter(pred);
            assert(all.take(i + 1).filter(pred) == f.push(all[i as int]));
            assert(wine_lines(list@)[f.len() as int] == all[i as int]);
            let fields = split_str(ls[i].as_str(), '|');
            if fields.len() < 2 {
                assert(split(wine_lines(list@)[f.len() as int], '|').len() < 2);
                return false;
            }
        } else {
            assert(all.take(i + 1).filter(pred) == all.take(i as int).filter(pred));
        }
        i = i + 1;
    }
    assert(all.take(i as int) =~= all);
    true
}

/// Lutris' wine games when its game list could be had (`listed`), or the
/// message that Lutris is not installed.
pub fn lutris_games(listed: bool, list: &str) -> (r: Result<Vec<(String, String)>, String>)
    requires
        listed ==> lutris_list_readable(list@),
    ensures
        !listed ==> (r matches Err(e) && e@ == "Lutris not installed"@),
        listed ==> (r matches Ok(v) && v@.len() == wine_lines(list@).len() && forall|i: int|
            0 <= i < v@.len() ==> (#[trigger] v@[i].0@, v@[i].1@) == lutris_entry(
                wine_lines(list@)[i],
            )),
{
    if listed {
        Ok(parse_lutris_list(list))
    } else {
        Err("Lutris not installed".to_owned())
    }
}

/// `names` after the pass that takes a reinstalled game off the list of
/// games to unregister: scanning left to right, an entry equal to `found`
/// is removed, and the entry that moves into its place is passed over
/// without being looked at.
pub open spec fn drop_registered(names: Seq<Seq<char>>, found: Seq<char>) -> Seq<Seq<char>>
    decreases names.len(),
{
    if names.len() == 0 {
        names
    } else if names[0] == found {
        if names.len() == 1 {
            Seq::empty()
        } else {
            seq![names[1]] + drop_registered(names.skip(2), found)
        }
    } else {
        seq![names[0]] + drop_registered(names.drop_first(), found)
    }
}

/// Takes the game `found` off the list `already` of registered games that
/// have not been seen installed, in one left-to-right pass that looks past
/// the entry following each one it removes.
pub fn remove_found(already: &mut Vec<String>, found: &str)
    ensures
        string_views(final(already)@) == drop_registered(string_views(old(already)@), found@),
{
    let target = found.to_owned();
    let ghost orig = string_views(already@);
    let mut i: usize = 0;
    assert(orig.skip(0) =~= orig);
    assert(orig.take(0) =~= Seq::<Seq<char>>::empty());
    while i < already.len()
        invariant
            target@ == found@,
            i <= already@.len(),
            drop_registered(orig, found@) == string_views(already@).take(i as int) + drop_registered(
                string_views(already@).skip(i as int),
                found@,
            ),
        ensures
            i == already@.len(),
            drop_registered(orig, found@) == string_views(already@).take(i as int) + drop_registered(
                string_views(already@).skip(i as int),
                found@,
            ),
        decreases already@.len() - i,
    {
        let ghost v = string_views(already@);
        let ghost rest = v.skip(i as int);
        assert(rest[0] == already@[i as int]@);
        if already[i] == target {
            already.remove(i);
            let ghost w = string_views(already@);
            if i == already.len() {
                assert(rest.len() == 1);
                assert(w =~= v.take(i as int));
                assert(v.take(i as int) + Seq::<Seq<char>>::empty() =~= w);
                assert(w.skip(i as int) =~= Seq::<Seq<char>>::empty());
                assert(w.take(i as int) =~= w);
                break;
            }
            assert(w.take(i + 1) =~= v.take(i as int) + seq![rest[1]]);
            assert(w.skip(i + 1) =~= rest.skip(2));
        } else {
            let ghost w = string_views(already@);
            assert(w.take(i + 1) =~= v.take(i as int) + seq![rest[0]]);
            assert(w.skip(i + 1) =~= rest.drop_first());
        }
        i = i + 1;
    }
    let ghost w = string_views(already@);
    assert(w.take(i as int) =~= w);
    assert(w.skip(i as int) =~= Seq::<Seq<char>>::empty());
    assert(w + Seq::<Seq<char>>::empty() =~= w);
}

/// The entries other than `t`, in order.
pub open spec fn without(s: Seq<Seq<char>>, t: Seq<char>) -> Seq<Seq<char>> {
    s.filter(|x: Seq<char>| x != t)
}

/// `t` never stands twice in a row in `s`.
pub open spec fn no_adjacent_repeat(s: Seq<Seq<char>>, t: Seq<char>) -> bool {
    forall|i: int| 0 <= i < s.len() - 1 ==> !(#[trigger] s[i] == t && s[i + 1] == t)
}

proof fn lemma_filter_cons(x: Seq<char>, rest: Seq<Seq<char>>, t: Seq<char>)
    ensures
        without(seq![x] + rest, t) == if x != t {
            seq![x] + without(rest, t)
        } else {
            without(rest, t)
        },
{
    let p = |y: Seq<char>| y != t;
    Seq::filter_distributes_over_add(seq![x], rest, p);
    reveal_with_fuel(Seq::filter, 2);
    assert(seq![x].drop_last() =~= Seq::<Seq<char>>::empty());
    if x != t {
        assert(seq![x].filter(p) =~= seq![x]);
    } else {
        assert(seq![x].filter(p) =~= Seq::<Seq<char>>::empty());
        assert(Seq::<Seq<char>>::empty() + without(rest, t) =~= without(rest, t));
    }
}

/// Taking a found game off the list never loses an entry of another game:
/// the entries other than `found` are those of `names`, in the same order.
pub proof fn law_drop_registered_keeps_others(names: Seq<Seq<char>>, found: Seq<char>)
    ensures
        without(drop_registered(names, found), found) == without(names, found),
    decreases names.len(),
{
    if names.len() == 0 {
    } else if names[0] == found {
        if names.len() == 1 {
            lemma_filter_cons(names[0], Seq::empty(), found);
            assert(names =~= seq![names[0]] + Seq::<Seq<char>>::empty());
            assert(Seq::<Seq<char>>::empty().filter(|x: Seq<char>| x != found) =~= Seq::<Seq<char>>::empty()) by {
                reveal_with_fuel(Seq::filter, 1);
            }
        } else {
            law_drop_registered_keeps_others(names.skip(2), found);
            lemma_filter_cons(names[1], drop_registered(names.skip(2), found), found);
            lemma_filter_cons(names[1], names.skip(2), found);
            lemma_filter_cons(names[0], seq![names[1]] + names.skip(2), found);
            assert(names =~= seq![names[0]] + (seq![names[1]] + names.skip(2)));
        }
    } else {
        law_drop_registered_keeps_others(names.drop_first(), found);
        lemma_filter_cons(names[0], drop_registered(names.drop_first(), found), found);
        lemma_filter_cons(names[0], names.drop_first(), found);
        assert(names =~= seq![names[0]] + names.drop_first());
    }
}

/// Where a registered name does not stand twice in a row (the names of a
/// directory's files never do), taking a found game off the list removes
/// exactly its entries and nothing else.
pub proof fn law_drop_registered_removes_found(names: Seq<Seq<char>>, found: Seq<char>)
    requires
        no_adjacent_repeat(names, found),
    ensures
        drop_registered(names, found) == without(names, found),
    decreases names.len(),
{
    if names.len() == 0 {
        assert(without(names, found) =~= names) by {
            reveal_with_fuel(Seq::filter, 1);
        }
    } else if names[0] == found {
        if names.len() == 1 {
            lemma_filter_cons(names[0], Seq::empty(), found);
            assert(names =~= seq![names[0]] + Seq::<Seq<char>>::empty());
            assert(Seq::<Seq<char>>::empty().filter(|x: Seq<char>| x != found) =~= Seq::<Seq<char>>::empty()) by {
                reveal_with_fuel(Seq::filter, 1);
            }
        } else {
            assert(names[1] != found);
            let rest = names.skip(2);
            assert forall|i: int| 0 <= i < rest.len() - 1 implies !(#[trigger] rest[i] == found
                && rest[i + 1] == found) by {
                assert(rest[i] == names[i + 2]);
                assert(!(names[i + 2] == found && names[i + 3] == found));
            }
            law_drop_registered_removes_found(rest, found);
            lemma_filter_cons(names[1], rest, found);
            lemma_filter_cons(names[0], seq![names[1]] + rest, found);
            assert(names =~= seq![names[0]] + (seq![names[1]] + rest));
        }
    } else {
        let rest = names.drop_first();
        assert forall|i: int| 0 <= i < rest.len() - 1 implies !(#[trigger] rest[i] == found
            && rest[i + 1] == found) by {
            assert(rest[i] == names[i + 1]);
            assert(!(names[i + 1] == found && names[i + 2] == found));
        }
        law_drop_registered_removes_found(rest, found);
        lemma_filter_cons(names[0], rest, found);
        assert(names =~= seq![names[0]] + rest);
    }
}

/// The registered games left to unregister after a scan: the list with each
/// found game taken off in turn, in the order the scan found them.
pub open spec fn leftover_after(names: Seq<Seq<char>>, found: Seq<Seq<char>>) -> Seq<Seq<char>>
    decreases found.len(),
{
    if found.len() == 0 {
        names
    } else {
        drop_registered(leftover_after(names, found.drop_last()), found.last())
    }
}

/// The registered games that a scan did not find installed: `already` with
/// every game of `found` taken off, one after the other.
pub fn leftover_games(already: Vec<String>, found: &Vec<String>) -> (r: Vec<String>)
    ensures
        string_views(r@) == leftover_after(string_views(already@), string_views(found@)),
{
    let ghost start = string_views(already@);
    let ghost fs = string_views(found@);
    let mut left = already;
    let mut i: usize = 0;
    assert(fs.take(0) =~= Seq::<Seq<char>>::empty());
    while i < found.len()
        invariant
            i <= found@.len(),
            fs == string_views(found@),
            string_views(left@) == leftover_after(start, fs.take(i as int)),
        decreases found@.len() - i,
    {
        assert(fs.take(i + 1).drop_last() =~= fs.take(i as int));
        assert(fs.take(i + 1).last() == found@[i as int]@);
        remove_found(&mut left, found[i].as_str());
        i = i + 1;
    }
    assert(fs.take(i as int) =~= fs);
    left
}

/// The command that launches the Steam game with app id `appid`.
pub open spec fn steam_command(appid: Seq<char>) -> Seq<char> {
    "steam 'steam://rungameid/"@ + appid + "'"@
}

/// The game registered for a Steam game found in a library.
pub fn steam_game(found: &SearchResult) -> (r: Game)
    ensures
        ({
            let g = r;
            &&& g.name@ == procname(found.name@)
            &&& g.pname@ == found.name@
            &&& g.command@ == steam_command(found.appid@)
            &&& g.typeg == GameType::Steam
        }),
{
    let procname = create_procname(found.name.as_str());
    let head = concat_str("steam 'steam://rungameid/", found.appid.as_str());
    let command = concat_str(head.as_str(), "'");
    Game { name: procname, pname: found.name.clone(), command, typeg: GameType::Steam }
}

/// The game registered for an itch.io game, launched by butler by its cave id.
pub fn itch_game(title: &str, cave_id: &str) -> (r: Game)
    ensures
        ({
            let g = r;
            &&& g.name@ == procname(title@)
            &&& g.pname@ == title@
            &&& g.command@ == cave_id@
            &&& g.typeg == GameType::Itch
        }),
{
    Game {
        pname: title.to_owned(),
        name: create_procname(title),
        command: cave_id.to_owned(),
        typeg: GameType::Itch,
    }
}

/// The command that launches the Lutris game with id `id`.
pub open spec fn lutris_command(id: Seq<char>) -> Seq<char> {
    "lutris lutris:rungameid/"@ + id
}

/// The game registered for a Lutris wine game with id `id` and name `name`.
pub fn lutris_game(id: &str, name: &str) -> (r: Game)
    ensures
        ({
            let g = r;
            &&& g.name@ == procname(name@)
            &&& g.pname@ == name@
            &&& g.command@ == lutris_command(id@)
            &&& g.typeg == GameType::Lutris
        }),
{
    Game {
        pname: name.to_owned(),
        name: create_procname(name),
        command: concat_str("lutris lutris:rungameid/", id),
        typeg: GameType::Lutris,
    }
}

/// A path in a Steam library that names an app manifest.
pub fn is_manifest_path(path: &str) -> (r: bool)
    ensures
        r == contains(path@, "appmanifest"@),
{
    contains_str(path, "appmanifest")
}

/// The last `'/'`-separated component of a path.
pub open spec fn last_component(path: Seq<char>) -> Seq<char> {
    split(path, '/').last()
}

/// The directory name at the end of `path`.
pub fn last_path_component(path: &str) -> (r: String)
    ensures
        r@ == last_component(path@),
{
    let parts = split_str(path, '/');
    assert(string_views(parts@).last() == parts@.last()@);
    parts[parts.len() - 1].clone()
}

/// The kinds of executables that an import recognises as a game.
#[derive(Debug, PartialEq, Eq, Structural, Clone, Copy)]
pub enum ExeKind {
    /// A Unity build (`.x86_64`).
    Unity,
    /// A GOG installation's `start.sh`.
    Gog,
    /// A start script of an older registration (`start`).
    StartScript,
}

/// The kind of game executable a directory entry is, if any.
pub open spec fn exe_kind(entry: Seq<char>) -> Option<ExeKind> {
    if contains(entry, ".x86_64"@) {
        Some(ExeKind::Unity)
    } else if contains(entry, "start.sh"@) {
        Some(ExeKind::Gog)
    } else if contains(entry, "start"@) {
        Some(ExeKind::StartScript)
    } else {
        None
    }
}

/// Tells which kind of game executable a directory entry is, if any.
pub fn classify_entry(entry: &str) -> (r: Option<ExeKind>)
    ensures
        r == exe_kind(entry@),
{
    if contains_str(entry, ".x86_64") {
        Some(ExeKind::Unity)
    } else if contains_str(entry, "start.sh") {
        Some(ExeKind::Gog)
    } else if contains_str(entry, "start") {
        Some(ExeKind::StartScript)
    } else {
        None
    }
}

/// The entry that an import takes as the game: the last one recognised as a
/// game executable, or the empty name when none is.
pub open spec fn picked_exe(entries: Seq<Seq<char>>) -> Seq<char>
    decreases entries.len(),
{
    if entries.len() == 0 {
        Seq::empty()
    } else if exe_kind(entries.last()) is Some {
        entries.last()
    } else {
        picked_exe(entries.drop_last())
    }
}

/// Picks, among the entries of a game directory, the executable to register.
pub fn pick_game_exe(entries: &Vec<String>) -> (r: String)
    ensures
        r@ == picked_exe(string_views(entries@)),
{
    let ghost all = string_views(entries@);
    let mut found = String::new();
    let mut i: usize = 0;
    assert(all.take(0) =~= Seq::<Seq<char>>::empty());
    while i < entries.len()
        invariant
            i <= entries@.len(),
            all == string_views(entries@),
            found@ == picked_exe(all.take(i as int)),
        decreases entries@.len() - i,
    {
        assert(all.take(i + 1).drop_last() =~= all.take(i as int));
        assert(all.take(i + 1).last() == entries@[i as int]@);
        if classify_entry(entries[i].as_str()).is_some() {
            found = entries[i].clone();
        }
        i = i + 1;
    }
    assert(all.take(i as int) =~= all);
    found
}

/// The executable that an import of `dir` (relative to `cwd`) registers:
/// the picked entry inside that directory.
pub open spec fn import_exe_path(cwd: Seq<char>, dir: Seq<char>, exe: Seq<char>) -> Seq<char> {
    path_push(cwd, dir) + "/"@ + exe
}

/// The path of the executable `exe` found in the directory `dir`.
pub fn import_target(cwd: &str, dir: &str, exe: &str) -> (r: String)
    ensures
        r@ == import_exe_path(cwd@, dir@, exe@),
{
    let base = push_path(cwd, dir);
    let with_sep = concat_str(base.as_str(), "/");
    concat_str(with_sep.as_str(), exe)
}


/// A Steam shortcut's command is recognised as a Steam game's when old
/// registrations are converted.
pub proof fn law_steam_command_is_steam(appid: Seq<char>)
    ensures
        command_type(steam_command(appid)) == GameType::Steam,
{
    reveal_strlit("steam 'steam://rungameid/");
    reveal_strlit("steam://rungameid");
    reveal_strlit("'");
    let c = steam_command(appid);
    assert(c.subrange(7, 24) =~= "steam://rungameid"@);
    lemma_match_found(c, "steam://rungameid"@, 7);
}

/// A Lutris shortcut's command is recognised as a Lutris game's when old
/// registrations are converted, unless its id itself holds a Steam link.
pub proof fn law_lutris_command_is_lutris(id: Seq<char>)
    requires
        !contains(id, "steam://rungameid"@),
    ensures
        command_type(lutris_command(id)) == GameType::Lutris,
{
    reveal_strlit("lutris lutris:rungameid/");
    reveal_strlit("lutris:rungameid");
    reveal_strlit("steam://rungameid");
    let c = lutris_command(id);
    let pre = "lutris lutris:rungameid/"@;
    let needle = "steam://rungameid"@;
    assert(c.subrange(7, 23) =~= "lutris:rungameid"@);
    lemma_match_found(c, "lutris:rungameid"@, 7);
    if contains(c, needle) {
        let k = find(c, needle)->0;
        lemma_find_from(c, needle, 0);
        assert(matches_at(c, needle, k));
        assert(c.subrange(k, k + 17)[0] == needle[0]);
        assert(c.subrange(k, k + 17)[1] == needle[1]);
        if k >= 24 {
            assert(id.subrange(k - 24, k - 24 + 17) =~= c.subrange(k, k + 17));
            lemma_match_found(id, needle, k - 24);
        } else {
            assert(c[k] == pre[k]);
            assert(k + 1 < 24 ==> c[k + 1] == pre[k + 1]);
            assert(false);
        }
    }
}

} // verus!
