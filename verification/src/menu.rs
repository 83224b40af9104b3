//! The game menu: the alphabetical list handed to the menu command, the
//! shell line that runs it, and what is made of its answer.
use vstd::prelude::*;
use vstd::seq_lib::to_multiset_insert;
use crate::text::{
    chars_of, concat_str, free_of, lemma_split_append, lemma_split_push_sep, lines, push_all, split,
    string_of, string_views, trim, trim_chars, trim_str,
};

verus! {

/// `a` comes before `b` in the order of `String`'s `cmp`: lexicographic by
/// character (UTF-8 bytes compare as their code points do).
pub open spec fn str_lt(a: Seq<char>, b: Seq<char>) -> bool
    decreases a.len(),
{
    if b.len() == 0 {
        false
    } else if a.len() == 0 {
        true
    } else if a[0] != b[0] {
        a[0] < b[0]
    } else {
        str_lt(a.drop_first(), b.drop_first())
    }
}

/// The order is transitive.
pub proof fn lemma_str_lt_transitive(a: Seq<char>, b: Seq<char>, c: Seq<char>)
    requires
        str_lt(a, b),
        str_lt(b, c),
    ensures
        str_lt(a, c),
    decreases a.len(),
{
    if a.len() > 0 && b.len() > 0 && c.len() > 0 && a[0] == b[0] && b[0] == c[0] {
        lemma_str_lt_transitive(a.drop_first(), b.drop_first(), c.drop_first());
    } else if a.len() > 0 && b.len() > 0 && c.len() > 0 {
    }
}

/// No name comes before itself.
pub proof fn lemma_str_lt_irreflexive(a: Seq<char>)
    ensures
        !str_lt(a, a),
    decreases a.len(),
{
    if a.len() > 0 {
        lemma_str_lt_irreflexive(a.drop_first());
    }
}

/// The order is the lexicographic order by code point: `a` comes before `b`
/// exactly when `a` is a proper prefix of `b`, or when at the first place
/// where they differ the character of `a` has the smaller code point.
pub proof fn law_str_lt_is_lexicographic(a: Seq<char>, b: Seq<char>)
    ensures
        str_lt(a, b) <==> ((a.len() < b.len() && a == b.take(a.len() as int)) || exists|k: int|
            0 <= k < a.len() && k < b.len() && a.take(k) == b.take(k) && a[k] < #[trigger] b[k]),
    decreases a.len(),
{
    if b.len() == 0 {
    } else if a.len() == 0 {
        assert(a =~= b.take(0));
    } else if a[0] != b[0] {
        if a.len() < b.len() && a == b.take(a.len() as int) {
            assert(a[0] == b.take(a.len() as int)[0]);
        }
        if str_lt(a, b) {
            assert(a.take(0) =~= b.take(0));
            assert(0 < a.len() && 0 < b.len() && a.take(0) == b.take(0) && a[0] < b[0]);
        }
        if exists|k: int|
            0 <= k < a.len() && k < b.len() && a.take(k) == b.take(k) && a[k] < #[trigger] b[k] {
            let k = choose|k: int|
                0 <= k < a.len() && k < b.len() && a.take(k) == b.take(k) && a[k] < #[trigger] b[k];
            if k > 0 {
                assert(a.take(k)[0] == b.take(k)[0]);
            }
        }
    } else {
        let a1 = a.drop_first();
        let b1 = b.drop_first();
        law_str_lt_is_lexicographic(a1, b1);
        // the prefix case
        if a.len() < b.len() && a == b.take(a.len() as int) {
            assert(a1 =~= b1.take(a1.len() as int));
        }
        if a1.len() < b1.len() && a1 == b1.take(a1.len() as int) {
            assert forall|i: int| 0 <= i < a.len() implies a[i] == #[trigger] b.take(
                a.len() as int,
            )[i] by {
                if i > 0 {
                    assert(a[i] == a1[i - 1]);
                    assert(a1[i - 1] == b1.take(a1.len() as int)[i - 1]);
                }
            }
            assert(a =~= b.take(a.len() as int));
        }
        // the case of a first difference
        if exists|k: int|
            0 <= k < a.len() && k < b.len() && a.take(k) == b.take(k) && a[k] < #[trigger] b[k] {
            let k = choose|k: int|
                0 <= k < a.len() && k < b.len() && a.take(k) == b.take(k) && a[k] < #[trigger] b[k];
            assert(k > 0);
            assert(a1.take(k - 1) =~= a.take(k).drop_first());
            assert(b1.take(k - 1) =~= b.take(k).drop_first());
            assert(a1[k - 1] == a[k] && b1[k - 1] == b[k]);
            assert(0 <= k - 1 < a1.len() && k - 1 < b1.len() && a1.take(k - 1) == b1.take(k - 1)
                && a1[k - 1] < b1[k - 1]);
        }
        if exists|k: int|
            0 <= k < a1.len() && k < b1.len() && a1.take(k) == b1.take(k) && a1[k] < #[trigger] b1[k] {
            let k = choose|k: int|
                0 <= k < a1.len() && k < b1.len() && a1.take(k) == b1.take(k) && a1[k] < #[trigger] b1[k];
            assert(a.take(k + 1) =~= seq![a[0]] + a1.take(k));
            assert(b.take(k + 1) =~= seq![b[0]] + b1.take(k));
            assert(a[k + 1] == a1[k] && b[k + 1] == b1[k]);
            assert(0 <= k + 1 < a.len() && k + 1 < b.len() && a.take(k + 1) == b.take(k + 1) && a[k + 1] < b[k + 1]);
        }
    }
}

/// Of two different names, one comes before the other.
pub proof fn law_str_lt_total(a: Seq<char>, b: Seq<char>)
    ensures
        a != b ==> str_lt(a, b) || str_lt(b, a),
    decreases a.len(),
{
    if a.len() > 0 && b.len() > 0 {
        if a[0] != b[0] {
            assert(a[0] < b[0] || b[0] < a[0]);
        } else {
            law_str_lt_total(a.drop_first(), b.drop_first());
            if a.drop_first() == b.drop_first() {
                assert(a =~= seq![a[0]] + a.drop_first());
                assert(b =~= seq![b[0]] + b.drop_first());
            }
        }
    } else if a.len() == 0 && b.len() == 0 {
        assert(a =~= b);
    }
}

/// No two names are out of order.
pub open spec fn sorted_names(s: Seq<Seq<char>>) -> bool {
    forall|i: int, j: int| 0 <= i < j < s.len() ==> !str_lt(#[trigger] s[j], #[trigger] s[i])
}

/// Compares two strings in the order of `String`'s `cmp`.
pub fn str_less(a: &str, b: &str) -> (r: bool)
    ensures
        r == str_lt(a@, b@),
{
    let ac = chars_of(a);
    let bc = chars_of(b);
    let mut i: usize = 0;
    assert(ac@.skip(0) =~= ac@);
    assert(bc@.skip(0) =~= bc@);
    while i < ac.len() && i < bc.len() && ac[i] == bc[i]
        invariant
            i <= ac@.len(),
            i <= bc@.len(),
            str_lt(a@, b@) == str_lt(ac@.skip(i as int), bc@.skip(i as int)),
            ac@ == a@,
            bc@ == b@,
        decreases ac@.len() - i,
    {
        assert(ac@.skip(i as int).drop_first() =~= ac@.skip(i + 1));
        assert(bc@.skip(i as int).drop_first() =~= bc@.skip(i + 1));
        i = i + 1;
    }
    if i == bc.len() {
        false
    } else if i == ac.len() {
        true
    } else {
        ac[i] < bc[i]
    }
}

/// Sorts names alphabetically, as `sort_by` with `cmp` does.
pub fn sort_names(names: Vec<String>) -> (r: Vec<String>)
    ensures
        sorted_names(string_views(r@)),
        string_views(r@).to_multiset() == string_views(names@).to_multiset(),
{
    let mut out: Vec<String> = Vec::new();
    let mut rest = names;
    let ghost all = string_views(rest@);
    let mut i: usize = 0;
    let n = rest.len();
    assert(all.take(0) =~= Seq::<Seq<char>>::empty());
    assert(string_views(out@) =~= Seq::<Seq<char>>::empty());
    while i < n
        invariant
            n == all.len(),
            i <= n,
            string_views(rest@) == all,
            sorted_names(string_views(out@)),
            string_views(out@).to_multiset() == all.take(i as int).to_multiset(),
        decreases n - i,
    {
        let x = rest[i].clone();
        assert(x@ == all[i as int]);
        let ghost o = string_views(out@);
        let mut p: usize = 0;
        while p < out.len() && !str_less(x.as_str(), out[p].as_str())
            invariant
                p <= out@.len(),
                o == string_views(out@),
                forall|k: int| 0 <= k < p ==> !str_lt(x@, #[trigger] o[k]),
            decreases out@.len() - p,
        {
            assert(o[p as int] == out@[p as int]@);
            p = p + 1;
        }
        proof {
            if p < out@.len() {
                assert(o[p as int] == out@[p as int]@);
            }
        }
        out.insert(p, x);
        let ghost o2 = string_views(out@);
        assert(o2 =~= o.insert(p as int, x@));
        proof {
            o.insert_ensures(p as int, x@);
            to_multiset_insert(o, p as int, x@);
            assert(all.take(i + 1) =~= all.take(i as int).push(x@));
            vstd::seq_lib::to_multiset_build(all.take(i as int), x@);
            assert forall|a: int, b: int| 0 <= a < b < o2.len() implies !str_lt(
                #[trigger] o2[b],
                #[trigger] o2[a],
            ) by {
                if b < p {
                    assert(o2[a] == o[a] && o2[b] == o[b]);
                } else if b == p {
                    assert(o2[a] == o[a]);
                } else if a == p {
                    assert(o2[b] == o[b - 1]);
                    if str_lt(o[b - 1], x@) {
                        if b - 1 == p {
                            lemma_str_lt_transitive(o[b - 1], x@, o[p as int]);
                            lemma_str_lt_irreflexive(o[p as int]);
                        } else {
                            assert(!str_lt(o[b - 1], o[p as int]));
                            lemma_str_lt_transitive(o[b - 1], x@, o[p as int]);
                        }
                    }
                } else if a < p {
                    assert(o2[a] == o[a] && o2[b] == o[b - 1]);
                } else {
                    assert(o2[a] == o[a - 1] && o2[b] == o[b - 1]);
                }
            }
        }
        i = i + 1;
    }
    assert(all.take(n as int) =~= all);
    out
}

/// The names, each followed by a line break.
pub open spec fn joined_lines(s: Seq<Seq<char>>) -> Seq<char>
    decreases s.len(),
{
    if s.len() == 0 {
        Seq::empty()
    } else {
        joined_lines(s.drop_last()) + s.last() + seq!['\n']
    }
}

/// A name that fits on one line of the menu's input.
pub open spec fn one_line(n: Seq<char>) -> bool {
    free_of(n, '\n') && !(n.len() > 0 && n.last() == '\r')
}

proof fn lemma_split_joined(s: Seq<Seq<char>>)
    requires
        forall|i: int| 0 <= i < s.len() ==> one_line(#[trigger] s[i]),
    ensures
        split(joined_lines(s), '\n') == s.push(Seq::empty()),
    decreases s.len(),
{
    if s.len() == 0 {
        assert(s.push(Seq::empty()) =~= seq![Seq::<char>::empty()]);
    } else {
        let s0 = s.drop_last();
        let l = s.last();
        assert(one_line(s[s.len() - 1]));
        lemma_split_joined(s0);
        let j0 = joined_lines(s0);
        lemma_split_append(j0, l, '\n');
        lemma_split_push_sep(j0 + l, '\n');
        assert(joined_lines(s) =~= (j0 + l).push('\n'));
        assert(Seq::<char>::empty() + l =~= l);
        assert(s0.push(Seq::empty()).update(s0.len() as int, Seq::<char>::empty() + l) =~= s);
    }
}

/// Names that each fit on one line come back unchanged, one per line, from
/// the list that puts each on its own line: the menu sees one line per game.
pub proof fn law_lines_of_joined(s: Seq<Seq<char>>)
    requires
        forall|i: int| 0 <= i < s.len() ==> one_line(#[trigger] s[i]),
    ensures
        lines(joined_lines(s)) == s,
{
    lemma_split_joined(s);
    let p = split(joined_lines(s), '\n');
    assert forall|i: int| 0 <= i < s.len() implies #[trigger] lines(joined_lines(s))[i] == s[i] by {
        assert(one_line(s[i]));
        assert(p[i] == s[i]);
    }
    assert(lines(joined_lines(s)) =~= s);
}

/// The list shown in the menu: the names one per line, with the white space
/// at either end taken off.
pub fn menu_list(names: &Vec<String>) -> (r: String)
    ensures
        r@ == trim(joined_lines(string_views(names@))),
{
    let ghost all = string_views(names@);
    let mut out: Vec<char> = Vec::new();
    let mut i: usize = 0;
    assert(all.take(0) =~= Seq::<Seq<char>>::empty());
    while i < names.len()
        invariant
            i <= names@.len(),
            all == string_views(names@),
            out@ == joined_lines(all.take(i as int)),
        decreases names@.len() - i,
    {
        assert(all.take(i + 1).drop_last() =~= all.take(i as int));
        assert(all.take(i + 1).last() == names@[i as int]@);
        let c = chars_of(names[i].as_str());
        push_all(&mut out, c.as_slice());
        out.push('\n');
        i = i + 1;
    }
    assert(all.take(i as int) =~= all);
    string_of(trim_chars(out.as_slice()).as_slice())
}

/// The shell line that feeds the list to the menu command.
pub open spec fn menu_shell_line(list: Seq<char>, menu_command: Seq<char>) -> Seq<char> {
    "echo '"@ + list + "' | "@ + menu_command
}

/// Builds the shell line that shows the menu.
pub fn menu_shell_command(list: &str, menu_command: &str) -> (r: String)
    ensures
        r@ == menu_shell_line(list@, menu_command@),
{
    let a = concat_str("echo '", list);
    let b = concat_str(a.as_str(), "' | ");
    concat_str(b.as_str(), menu_command)
}

/// The game picked in the menu: its answer without surrounding white space,
/// unless nothing is left.
pub fn menu_choice(output: &str) -> (r: Option<String>)
    ensures
        trim(output@).len() == 0 ==> r is None,
        trim(output@).len() > 0 ==> (r matches Some(s) && s@ == trim(output@)),
{
    let t = trim_str(output);
    if t.as_str().is_empty() {
        None
    } else {
        Some(t)
    }
}

/// What is done once the menu has answered.
#[derive(Debug, PartialEq, Eq)]
pub enum MenuAction {
    /// The game picked in the menu is run.
    Run(String),
    /// Nothing was picked.
    NoSelection,
    /// The menu command failed although it printed an answer: it does not work.
    BrokenMenu,
}

/// What the menu's answer leads to, from whether the menu command succeeded
/// and what it printed: an empty answer (after trimming) picks nothing; a
/// non-empty one runs that game where the command succeeded, and shows
/// that the menu command does not work where it failed.
pub fn menu_action(menu_succeeded: bool, output: &str) -> (r: MenuAction)
    ensures
        trim(output@).len() == 0 ==> r is NoSelection,
        trim(output@).len() > 0 && menu_succeeded ==> (r matches MenuAction::Run(name) && name@
            == trim(output@)),
        trim(output@).len() > 0 && !menu_succeeded ==> r is BrokenMenu,
{
    match menu_choice(output) {
        None => MenuAction::NoSelection,
        Some(name) => if menu_succeeded {
            MenuAction::Run(name)
        } else {
            MenuAction::BrokenMenu
        },
    }
}

/// What is reported after a game picked in the menu was run.
#[derive(Debug, PartialEq, Eq)]
pub enum RunReport {
    /// The game ran: nothing to report.
    Done,
    /// The game failed; its error output goes to the crash log.
    Crashed(String),
    /// No game of that name is registered.
    NotFound,
}

/// The report on running a game: nothing where it ran, "not found" for the
/// error `Nonexistent`, and a crash with the error output otherwise.
pub fn run_report(result: Result<String, String>) -> (r: RunReport)
    ensures
        match result {
            Ok(_) => r is Done,
            Err(e) => if e@ == "Nonexistent"@ {
                r is NotFound
            } else {
                r matches RunReport::Crashed(s) && s@ == e@
            },
        },
{
    match result {
        Ok(_) => RunReport::Done,
        Err(e) => {
            let missing = "Nonexistent".to_owned();
            if e == missing {
                RunReport::NotFound
            } else {
                RunReport::Crashed(e)
            }
        },
    }
}

} // verus!
