//! The stand-alone tool that registers one executable as a start script:
//! its own way of forming a registry name, without regular expressions.
use vstd::prelude::*;
use crate::text::{
    chars_of, concat_str, is_mark, lemma_marks_removed, lowered, lower_str, marks_removed, string_of,
    trim, trim_chars,
};

verus! {

/// Dashes and spaces become underscores.
pub open spec fn underscored(s: Seq<char>) -> Seq<char> {
    s.map_values(|c: char| if c == '-' || c == ' ' { '_' } else { c })
}

/// The registry name this tool gives a game called `raw`: dashes and
/// spaces turned into underscores, lowercased, trimmed, and apostrophes,
/// `'™'` and colons dropped.
pub open spec fn plain_procname(raw: Seq<char>) -> Seq<char> {
    marks_removed(trim(lowered(underscored(raw))))
}

/// Formats a game name into its registry name, character by character.
pub fn create_procname(rawname: &str) -> (r: String)
    ensures
        r@ == plain_procname(rawname@),
{
    let raw = chars_of(rawname);
    let mut mapped: Vec<char> = Vec::new();
    let mut i: usize = 0;
    while i < raw.len()
        invariant
            i <= raw@.len(),
            mapped@ =~= underscored(raw@).take(i as int),
        decreases raw@.len() - i,
    {
        let c = raw[i];
        if c == '-' || c == ' ' {
            mapped.push('_');
        } else {
            mapped.push(c);
        }
        i = i + 1;
    }
    assert(underscored(raw@).take(raw@.len() as int) =~= underscored(raw@));
    let joined = string_of(mapped.as_slice());
    let lower = lower_str(joined.as_str());
    let lc = chars_of(lower.as_str());
    let trimmed = trim_chars(lc.as_slice());
    let mut out: Vec<char> = Vec::new();
    let mut k: usize = 0;
    assert(trimmed@.take(0) =~= Seq::<char>::empty());
    while k < trimmed.len()
        invariant
            k <= trimmed@.len(),
            out@ == marks_removed(trimmed@.take(k as int)),
        decreases trimmed@.len() - k,
    {
        assert(trimmed@.take(k + 1).drop_last() =~= trimmed@.take(k as int));
        let c = trimmed[k];
        if !(c == '\'' || c == '™' || c == ':') {
            out.push(c);
        }
        k = k + 1;
    }
    assert(trimmed@.take(trimmed@.len() as int) =~= trimmed@);
    string_of(out.as_slice())
}

/// A registry name formed by this tool holds no apostrophe, `'™'` or colon.
pub proof fn law_plain_procname_has_no_marks(raw: Seq<char>)
    ensures
        forall|i: int|
            0 <= i < plain_procname(raw).len() ==> !is_mark(#[trigger] plain_procname(raw)[i]),
{
    lemma_marks_removed(trim(lowered(underscored(raw))));
}

/// The start script this tool writes for an executable at `path`.
pub open spec fn start_script(path: Seq<char>) -> Seq<char> {
    "#!/bin/bash\n"@ + path
}

/// Builds the start script for an executable.
pub fn start_script_for(path: &str) -> (r: String)
    ensures
        r@ == start_script(path@),
{
    concat_str("#!/bin/bash\n", path)
}

} // verus!
