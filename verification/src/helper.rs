//! Helpers shared by the registry: the normalised name under which a game is
//! registered, and where the registry lives.
use vstd::prelude::*;
use crate::patterns::CompiledPattern;
use crate::text::{
    chars_of, concat_str, is_mark, is_space, lemma_marks_removed, lemma_marks_removed_chars,
    lemma_marks_removed_id, lemma_trim_id, lowered, is_ascii_text, is_plain_ascii, is_plain_char,
    lemma_lowered_ascii, lemma_lowered_plain, lemma_trim_chars, lower_str, marks_removed, string_of, trim,
    trim_chars, white_underscored,
};

verus! {

/// The pattern of the characters that become `'_'` in a registry name.
pub open spec fn white_pattern() -> Seq<char> {
    "-|\\s"@
}

/// The pattern of the characters that are dropped from a registry name.
pub open spec fn special_pattern() -> Seq<char> {
    "'|™|:"@
}

/// The registry name of a game called `raw`: lowercased, trimmed, each dash
/// or white-space character turned into `'_'`, and apostrophes, `'™'` and
/// colons dropped.
pub open spec fn procname(raw: Seq<char>) -> Seq<char> {
    marks_removed(white_underscored(trim(lowered(raw))))
}

/// A text that no step of forming a registry name changes: no white space,
/// no dash and no mark.
pub open spec fn is_clean_name(s: Seq<char>) -> bool {
    forall|i: int| 0 <= i < s.len() ==> !is_space(#[trigger] s[i]) && s[i] != '-' && !is_mark(s[i])
}

/// A registry name holds no white space, no dash and no apostrophe, `'™'`
/// or colon.
pub proof fn law_procname_is_clean(raw: Seq<char>)
    ensures
        is_clean_name(procname(raw)),
{
    let w = white_underscored(trim(lowered(raw)));
    lemma_marks_removed(w);
    lemma_marks_removed_chars(w);
    assert forall|i: int| 0 <= i < procname(raw).len() implies !is_space(
        #[trigger] procname(raw)[i],
    ) && procname(raw)[i] != '-' && !is_mark(procname(raw)[i]) by {
        let j = choose|j: int| 0 <= j < w.len() && w[j] == procname(raw)[i];
        assert(w[j] == (if trim(lowered(raw))[j] == '-' || is_space(trim(lowered(raw))[j]) {
            '_'
        } else {
            trim(lowered(raw))[j]
        }));
    }
}

/// A clean text that lowercasing leaves alone is its own registry name.
pub proof fn law_clean_name_is_registry_name(s: Seq<char>)
    ensures
        is_clean_name(s) && lowered(s) == s ==> procname(s) == s,
{
    if is_clean_name(s) && lowered(s) == s {
        lemma_trim_id(s);
        assert(white_underscored(s) =~= s);
        lemma_marks_removed_id(s);
    }
}

/// The registry name of an ASCII name is ASCII text without capitals.
pub proof fn law_procname_of_ascii_is_plain(raw: Seq<char>)
    requires
        is_ascii_text(raw),
    ensures
        is_plain_ascii(procname(raw)),
{
    let l = lowered(raw);
    lemma_lowered_ascii(raw);
    let t = trim(l);
    lemma_trim_chars(l);
    assert forall|i: int| 0 <= i < t.len() implies is_plain_char(#[trigger] t[i]) by {
        let j = choose|j: int| 0 <= j < l.len() && l[j] == t[i];
        assert(is_plain_char(l[j]));
    }
    let w = white_underscored(t);
    assert forall|i: int| 0 <= i < w.len() implies is_plain_char(#[trigger] w[i]) by {
        assert(is_plain_char(t[i]));
        assert(('_' as int) == 95);
    }
    lemma_marks_removed_chars(w);
    let p = procname(raw);
    assert forall|i: int| 0 <= i < p.len() implies is_plain_char(#[trigger] p[i]) by {
        let j = choose|j: int| 0 <= j < w.len() && w[j] == p[i];
        assert(is_plain_char(w[j]));
    }
}

/// Forming the registry name twice gives the registry name: for every
/// ASCII name, and for every other name whose registry name lowercasing
/// leaves alone.
pub proof fn law_procname_idempotent(raw: Seq<char>)
    ensures
        is_ascii_text(raw) ==> procname(procname(raw)) == procname(raw),
        lowered(procname(raw)) == procname(raw) ==> procname(procname(raw)) == procname(raw),
{
    law_procname_is_clean(raw);
    if is_ascii_text(raw) {
        law_procname_of_ascii_is_plain(raw);
        lemma_lowered_plain(procname(raw));
    }
    law_clean_name_is_registry_name(procname(raw));
}

/// Formats a game name into the underscored name it is registered under.
pub fn create_procname(rawname: &str) -> (r: String)
    ensures
        r@ == procname(rawname@),
{
    let lower = lower_str(rawname);
    let lc = chars_of(lower.as_str());
    let trimmed = string_of(trim_chars(lc.as_slice()).as_slice());
    let white = CompiledPattern::new("-|\\s");
    let special = CompiledPattern::new("'|™|:");
    match (white, special) {
        (Some(w), Some(sp)) => {
            let white_formatted = w.replace_all(trimmed.as_str(), "_");
            sp.replace_all(white_formatted.as_str(), "")
        },
        _ => {
            assert(false);
            String::new()
        },
    }
}

/// The directory, under a home directory, that holds one file per game.
pub open spec fn games_dir_path(home: Seq<char>) -> Seq<char> {
    home + "/.config/eidolon/games/"@
}

/// The games directory under the home directory `home`.
pub fn games_dir(home: &str) -> (r: String)
    ensures
        r@ == games_dir_path(home@),
{
    concat_str(home, "/.config/eidolon/games/")
}

/// `dirs::home_dir`, as a string. It reads the environment (`$HOME`, or the
/// user database where `$HOME` is unset or empty), so which directory comes
/// back is not stated; what is stated is what the crate's source and
/// documentation show for Linux: it never returns an empty path. `None`
/// where there is no home directory or its path is not valid UTF-8.
#[verifier::external_body]
fn home_dir() -> (r: Option<String>)
    ensures
        r matches Some(h) ==> h@.len() > 0,
{
    match dirs::home_dir() {
        Some(p) => p.to_str().map(|s| s.to_string()),
        None => None,
    }
}

/// The current user's home directory, where one is known: never an empty
/// path.
pub fn get_home() -> (r: Option<String>)
    ensures
        r matches Some(h) ==> h@.len() > 0,
{
    home_dir()
}

/// The games directory of the current user: whatever the (non-empty) home
/// directory is, it is that directory followed by `/.config/eidolon/games/`.
pub fn gd() -> (r: Option<String>)
    ensures
        r matches Some(s) ==> exists|home: Seq<char>|
            home.len() > 0 && s@ == #[trigger] games_dir_path(home),
{
    match get_home() {
        Some(home) => Some(games_dir(home.as_str())),
        None => None,
    }
}

} // verus!
