//! Character-level text operations: the splitting, trimming, searching and
//! replacing that the registry, the configuration and the Steam manifests
//! rely on, each with its meaning stated over `Seq<char>`.
use vstd::prelude::*;
use vstd::utf8::*;
use vstd::string::StringSliceAdditionalSpecFns;

verus! {

/// The characters of `s`, in order.
pub fn chars_of(s: &str) -> (r: Vec<char>)
    ensures
        r@ == s@,
{
    let mut out: Vec<char> = Vec::new();
    for c in it: s.chars()
        invariant
            out@ == it.seq().take(it.index() as int),
            it.seq() == s@,
    {
        out.push(c);
    }
    out
}

/// `String::from_iter` over a slice of characters: the string made of
/// exactly those characters, in order.
#[verifier::external_body]
pub(crate) fn string_of(chars: &[char]) -> (r: String)
    ensures
        r@ == chars@,
{
    String::from_iter(chars.iter())
}

/// Unicode's `White_Space` property, which `char::is_whitespace` tests.
pub open spec fn is_space(c: char) -> bool {
    let u = c as u32;
    ||| 0x9 <= u <= 0xd
    ||| u == 0x20
    ||| u == 0x85
    ||| u == 0xa0
    ||| u == 0x1680
    ||| 0x2000 <= u <= 0x200a
    ||| u == 0x2028
    ||| u == 0x2029
    ||| u == 0x202f
    ||| u == 0x205f
    ||| u == 0x3000
}

/// Tests a character for Unicode white space.
pub fn is_space_char(c: char) -> (r: bool)
    ensures
        r == is_space(c),
{
    let u = c as u32;
    (0x9 <= u && u <= 0xd) || u == 0x20 || u == 0x85 || u == 0xa0 || u == 0x1680 || (0x2000 <= u
        && u <= 0x200a) || u == 0x2028 || u == 0x2029 || u == 0x202f || u == 0x205f || u == 0x3000
}

/// `s` without its leading white space.
pub open spec fn trim_start(s: Seq<char>) -> Seq<char>
    decreases s.len(),
{
    if s.len() > 0 && is_space(s[0]) {
        trim_start(s.drop_first())
    } else {
        s
    }
}

/// `s` without its trailing white space.
pub open spec fn trim_end(s: Seq<char>) -> Seq<char>
    decreases s.len(),
{
    if s.len() > 0 && is_space(s.last()) {
        trim_end(s.drop_last())
    } else {
        s
    }
}

/// `s` without leading and trailing white space, as `str::trim` gives it.
pub open spec fn trim(s: Seq<char>) -> Seq<char> {
    trim_end(trim_start(s))
}

/// Removes leading and trailing white space.
pub fn trim_chars(s: &[char]) -> (r: Vec<char>)
    ensures
        r@ == trim(s@),
{
    let n = s.len();
    let mut i: usize = 0;
    assert(s@.skip(0) =~= s@);
    while i < n && is_space_char(s[i])
        invariant
            i <= n,
            n == s@.len(),
            trim_start(s@) == trim_start(s@.skip(i as int)),
        decreases n - i,
    {
        assert(s@.skip(i as int).drop_first() =~= s@.skip(i + 1));
        i = i + 1;
    }
    assert(trim_start(s@) == s@.skip(i as int));
    assert(s@.skip(i as int) =~= s@.subrange(i as int, n as int));
    let mut j: usize = n;
    while j > i && is_space_char(s[j - 1])
        invariant
            i <= j <= n,
            n == s@.len(),
            trim_end(s@.skip(i as int)) == trim_end(s@.subrange(i as int, j as int)),
        decreases j,
    {
        assert(s@.subrange(i as int, j as int).drop_last() =~= s@.subrange(i as int, j - 1));
        j = j - 1;
    }
    assert(s@.skip(i as int) =~= s@.subrange(i as int, n as int));
    let mut out: Vec<char> = Vec::new();
    let mut k: usize = i;
    while k < j
        invariant
            i <= k <= j <= n,
            n == s@.len(),
            out@ =~= s@.subrange(i as int, k as int),
        decreases j - k,
    {
        out.push(s[k]);
        k = k + 1;
    }
    out
}


/// `n` occurs in `h` starting at index `i`.
pub open spec fn matches_at<A>(h: Seq<A>, n: Seq<A>, i: int) -> bool {
    0 <= i && i + n.len() <= h.len() && h.subrange(i, i + n.len()) == n
}

/// The first index at or after `i` where `n` occurs in `h`.
pub open spec fn find_from<A>(h: Seq<A>, n: Seq<A>, i: int) -> Option<int>
    decreases h.len() + 1 - i,
{
    if i < 0 || i + n.len() > h.len() {
        None
    } else if matches_at(h, n, i) {
        Some(i)
    } else {
        find_from(h, n, i + 1)
    }
}

/// The first index where `n` occurs in `h`, as `str::find` reports it.
pub open spec fn find<A>(h: Seq<A>, n: Seq<A>) -> Option<int> {
    find_from(h, n, 0)
}

/// `n` occurs somewhere in `h`.
pub open spec fn contains<A>(h: Seq<A>, n: Seq<A>) -> bool {
    find(h, n) is Some
}

/// What `find_from` returns is the least index at or after `i` where `n` occurs.
pub proof fn lemma_find_from<A>(h: Seq<A>, n: Seq<A>, i: int)
    requires
        0 <= i,
    ensures
        find_from(h, n, i) matches Some(k) ==> i <= k && matches_at(h, n, k) && forall|j: int|
            i <= j < k ==> !matches_at(h, n, j),
        find_from(h, n, i) is None ==> forall|j: int| i <= j ==> !matches_at(h, n, j),
    decreases h.len() + 1 - i,
{
    if i + n.len() > h.len() {
    } else if matches_at(h, n, i) {
    } else {
        lemma_find_from(h, n, i + 1);
    }
}

/// `n` occurs in `h` at index `i`, tested character by character.
pub fn chars_match_at(h: &[char], n: &[char], i: usize) -> (r: bool)
    ensures
        r == matches_at(h@, n@, i as int),
{
    if i > h.len() || n.len() > h.len() - i {
        return false;
    }
    let hl = h.len();
    let mut k: usize = 0;
    while k < n.len()
        invariant
            hl == h@.len(),
            k <= n@.len(),
            i + n@.len() <= h@.len(),
            forall|j: int| 0 <= j < k ==> h@[i + j] == n@[j],
        decreases n@.len() - k,
    {
        assert(i + k < h@.len());
        if h[i + k] != n[k] {
            assert(h@.subrange(i as int, i + n@.len())[k as int] != n@[k as int]);
            return false;
        }
        k = k + 1;
    }
    assert(h@.subrange(i as int, i + n@.len()) =~= n@);
    true
}

/// The first index where `n` occurs in `h`.
pub fn find_chars(h: &[char], n: &[char]) -> (r: Option<usize>)
    ensures
        r matches Some(k) ==> find(h@, n@) == Some(k as int),
        r is None ==> find(h@, n@) is None,
{
    let mut i: usize = 0;
    while i < h.len()
        invariant
            i <= h@.len(),
            find(h@, n@) == find_from(h@, n@, i as int),
        decreases h@.len() - i,
    {
        if chars_match_at(h, n, i) {
            return Some(i);
        }
        if n.len() > h.len() - i {
            return None;
        }
        i = i + 1;
    }
    assert(find_from(h@, n@, i + 1) is None);
    if chars_match_at(h, n, i) {
        Some(i)
    } else {
        None
    }
}

/// `n` occurs in `h` at index `i`, tested byte by byte.
pub fn bytes_match_at(h: &[u8], n: &[u8], i: usize) -> (r: bool)
    ensures
        r == matches_at(h@, n@, i as int),
{
    if i > h.len() || n.len() > h.len() - i {
        return false;
    }
    let hl = h.len();
    let mut k: usize = 0;
    while k < n.len()
        invariant
            hl == h@.len(),
            k <= n@.len(),
            i + n@.len() <= h@.len(),
            forall|j: int| 0 <= j < k ==> h@[i + j] == n@[j],
        decreases n@.len() - k,
    {
        assert(i + k < h@.len());
        if h[i + k] != n[k] {
            assert(h@.subrange(i as int, i + n@.len())[k as int] != n@[k as int]);
            return false;
        }
        k = k + 1;
    }
    assert(h@.subrange(i as int, i + n@.len()) =~= n@);
    true
}

/// The first index where the bytes `n` occur in `h`.
pub fn find_bytes(h: &[u8], n: &[u8]) -> (r: Option<usize>)
    ensures
        r matches Some(k) ==> find(h@, n@) == Some(k as int),
        r is None ==> find(h@, n@) is None,
{
    let mut i: usize = 0;
    while i < h.len()
        invariant
            i <= h@.len(),
            find(h@, n@) == find_from(h@, n@, i as int),
        decreases h@.len() - i,
    {
        if bytes_match_at(h, n, i) {
            return Some(i);
        }
        if n.len() > h.len() - i {
            return None;
        }
        i = i + 1;
    }
    assert(find_from(h@, n@, i + 1) is None);
    if bytes_match_at(h, n, i) {
        Some(i)
    } else {
        None
    }
}

/// `s` with each occurrence of `from`, taken left to right without
/// overlap, replaced by `to`: what `str::replace` gives for a non-empty `from`.
pub open spec fn replace<A>(s: Seq<A>, from: Seq<A>, to: Seq<A>) -> Seq<A>
    decreases s.len(),
{
    if s.len() == 0 {
        s
    } else if from.len() > 0 && matches_at(s, from, 0) {
        to + replace(s.skip(from.len() as int), from, to)
    } else {
        seq![s[0]] + replace(s.drop_first(), from, to)
    }
}

/// Replaces each occurrence of the non-empty `from` in `s` by `to`.
pub fn replace_chars(s: &[char], from: &[char], to: &[char]) -> (r: Vec<char>)
    requires
        from@.len() > 0,
    ensures
        r@ == replace(s@, from@, to@),
{
    let mut out: Vec<char> = Vec::new();
    let mut i: usize = 0;
    assert(s@.skip(0) =~= s@);
    while i < s.len()
        invariant
            i <= s@.len(),
            from@.len() > 0,
            replace(s@, from@, to@) == out@ + replace(s@.skip(i as int), from@, to@),
        decreases s@.len() - i,
    {
        let ghost rest = s@.skip(i as int);
        if chars_match_at(s, from, i) {
            assert(rest.subrange(0, from@.len() as int) =~= s@.subrange(i as int, i + from@.len()));
            assert(rest.skip(from@.len() as int) =~= s@.skip(i + from@.len()));
            let mut k: usize = 0;
            let ghost before = out@;
            while k < to.len()
                invariant
                    k <= to@.len(),
                    out@ =~= before + to@.take(k as int),
                decreases to@.len() - k,
            {
                out.push(to[k]);
                k = k + 1;
            }
            assert(to@.take(to@.len() as int) =~= to@);
            assert(before + (to@ + replace(rest.skip(from@.len() as int), from@, to@)) =~= out@
                + replace(rest.skip(from@.len() as int), from@, to@));
            i = i + from.len();
        } else {
            assert(!matches_at(rest, from@, 0)) by {
                if matches_at(rest, from@, 0) {
                    assert(rest.subrange(0, from@.len() as int) =~= s@.subrange(
                        i as int,
                        i + from@.len(),
                    ));
                }
            }
            assert(rest.drop_first() =~= s@.skip(i + 1));
            let ghost before = out@;
            out.push(s[i]);
            assert(before + (seq![s@[i as int]] + replace(rest.drop_first(), from@, to@)) =~= out@
                + replace(rest.drop_first(), from@, to@));
            i = i + 1;
        }
    }
    assert(s@.skip(i as int) =~= Seq::<char>::empty());
    assert(out@ + Seq::<char>::empty() =~= out@);
    out
}

/// The pieces of `s` between occurrences of `sep`, as `str::split` with a
/// character pattern gives them: one more piece than there are separators.
pub open spec fn split<A>(s: Seq<A>, sep: A) -> Seq<Seq<A>>
    decreases s.len(),
{
    if s.len() == 0 {
        seq![Seq::empty()]
    } else {
        let p = split(s.drop_last(), sep);
        if s.last() == sep {
            p.push(Seq::empty())
        } else {
            p.update(p.len() - 1, p.last().push(s.last()))
        }
    }
}

/// Splitting always gives at least one piece.
pub proof fn lemma_split_len<A>(s: Seq<A>, sep: A)
    ensures
        split(s, sep).len() >= 1,
    decreases s.len(),
{
    if s.len() > 0 {
        lemma_split_len(s.drop_last(), sep);
    }
}

/// Splits `s` at each occurrence of `sep`.
pub fn split_chars(s: &[char], sep: char) -> (r: Vec<Vec<char>>)
    ensures
        views(r@) == split(s@, sep),
        r@.len() >= 1,
{
    let mut done: Vec<Vec<char>> = Vec::new();
    let mut cur: Vec<char> = Vec::new();
    let mut i: usize = 0;
    assert(s@.take(0) =~= Seq::<char>::empty());
    while i < s.len()
        invariant
            i <= s@.len(),
            views(done@).push(cur@) == split(s@.take(i as int), sep),
        decreases s@.len() - i,
    {
        let ghost t = s@.take(i + 1);
        assert(t.drop_last() =~= s@.take(i as int));
        proof {
            lemma_split_len(s@.take(i as int), sep);
        }
        if s[i] == sep {
            let ghost d0 = views(done@);
            let ghost c0 = cur@;
            done.push(cur);
            assert(views(done@) =~= d0.push(c0));
            cur = Vec::new();
            assert(views(done@).push(cur@) =~= d0.push(c0).push(Seq::empty()));
        } else {
            let ghost c0 = cur@;
            cur.push(s[i]);
            assert(views(done@).push(cur@) =~= views(done@).push(c0).update(
                views(done@).len() as int,
                c0.push(s@[i as int]),
            ));
        }
        i = i + 1;
    }
    assert(s@.take(s@.len() as int) =~= s@);
    let ghost d0 = views(done@);
    done.push(cur);
    assert(views(done@) =~= d0.push(cur@));
    done
}

/// The character sequences that a sequence of character vectors holds.
pub open spec fn views(v: Seq<Vec<char>>) -> Seq<Seq<char>> {
    v.map_values(|x: Vec<char>| x@)
}

/// A line without the `'\r'` of a `"\r\n"` ending.
pub open spec fn strip_cr(l: Seq<char>) -> Seq<char> {
    if l.len() > 0 && l.last() == '\r' {
        l.drop_last()
    } else {
        l
    }
}

/// The lines of `s`, as `str::lines` gives them: split at `'\n'`, a
/// `'\r'` that stands before a `'\n'` dropped, and no empty line made of
/// a final line ending.
pub open spec fn lines(s: Seq<char>) -> Seq<Seq<char>> {
    let p = split(s, '\n');
    let k = if p.last().len() == 0 {
        p.len() - 1
    } else {
        p.len() as int
    };
    Seq::new(
        k as nat,
        |i: int|
            if i < p.len() - 1 {
                strip_cr(p[i])
            } else {
                p[i]
            },
    )
}

/// Splits `s` into lines.
pub fn lines_chars(s: &[char]) -> (r: Vec<Vec<char>>)
    ensures
        views(r@) == lines(s@),
{
    let pieces = split_chars(s, '\n');
    let np = pieces.len();
    let k = if pieces[np - 1].len() == 0 {
        np - 1
    } else {
        np
    };
    let mut out: Vec<Vec<char>> = Vec::new();
    let mut i: usize = 0;
    while i < k
        invariant
            k <= np,
            np == pieces@.len(),
            views(pieces@) == split(s@, '\n'),
            i <= k,
            views(out@) =~= lines(s@).take(i as int),
            lines(s@).len() == k,
        decreases k - i,
    {
        let p = &pieces[i];
        let mut line: Vec<char> = Vec::new();
        let mut j: usize = 0;
        let end = if i + 1 < np && p.len() > 0 && p[p.len() - 1] == '\r' {
            p.len() - 1
        } else {
            p.len()
        };
        while j < end
            invariant
                j <= end <= p@.len(),
                line@ =~= p@.take(j as int),
            decreases end - j,
        {
            line.push(p[j]);
            j = j + 1;
        }
        assert(views(pieces@)[i as int] == p@);
        assert(line@ == lines(s@)[i as int]);
        let ghost o0 = views(out@);
        out.push(line);
        assert(views(out@) =~= o0.push(line@));
        i = i + 1;
    }
    out
}


/// The lowercase form of a string as `str::to_lowercase` computes it
/// (Unicode's lowercase mapping, locale-independent).
pub uninterp spec fn lowercase(s: Seq<char>) -> Seq<char>;

/// Every character of `s` is an ASCII character.
pub open spec fn is_ascii_text(s: Seq<char>) -> bool {
    forall|i: int| 0 <= i < s.len() ==> (#[trigger] s[i] as int) < 128
}

/// `c` is one of the ASCII capitals `'A'..='Z'`.
pub open spec fn is_ascii_capital(c: char) -> bool {
    'A' <= c && c <= 'Z'
}

/// The lowercase of an ASCII character: a capital becomes its small letter
/// (32 code points on), every other character stays as it is.
pub open spec fn ascii_lower_char(c: char) -> char {
    if is_ascii_capital(c) {
        ((c as int) + 32) as char
    } else {
        c
    }
}

/// ASCII text lowercased character by character.
pub open spec fn ascii_lowercase(s: Seq<char>) -> Seq<char> {
    s.map_values(|c: char| ascii_lower_char(c))
}

/// What lowercasing gives: on ASCII text the ASCII lowercase, on any other
/// text Unicode's lowercase mapping.
pub open spec fn lowered(s: Seq<char>) -> Seq<char> {
    if is_ascii_text(s) {
        ascii_lowercase(s)
    } else {
        lowercase(s)
    }
}

/// `str::to_lowercase`: its result is left to the name `lowercase`; on ASCII
/// text, where Unicode lowercases only the capitals `'A'..='Z'` (to
/// `'a'..='z'`) and leaves every other character, it is the ASCII lowercase.
#[verifier::external_body]
pub(crate) fn to_lowercase(s: &str) -> (r: String)
    ensures
        r@ == lowercase(s@),
        is_ascii_text(s@) ==> r@ == ascii_lowercase(s@),
{
    s.to_lowercase()
}

/// Lowering a string: `lowered` of its text.
pub fn lower_str(s: &str) -> (r: String)
    ensures
        r@ == lowered(s@),
{
    to_lowercase(s)
}

/// `c` is an ASCII character other than a capital letter.
pub open spec fn is_plain_char(c: char) -> bool {
    (c as int) < 128 && !is_ascii_capital(c)
}

/// Text of ASCII characters none of which is a capital letter.
pub open spec fn is_plain_ascii(s: Seq<char>) -> bool {
    forall|i: int| 0 <= i < s.len() ==> is_plain_char(#[trigger] s[i])
}

/// ASCII text without capitals is its own lowercase.
pub proof fn lemma_lowered_plain(s: Seq<char>)
    requires
        is_plain_ascii(s),
    ensures
        lowered(s) == s,
{
    assert(is_ascii_text(s));
    assert(ascii_lowercase(s) =~= s);
}

/// The lowercase of ASCII text is ASCII text without capitals.
pub proof fn lemma_lowered_ascii(s: Seq<char>)
    requires
        is_ascii_text(s),
    ensures
        is_plain_ascii(lowered(s)),
{
    let l = lowered(s);
    assert forall|i: int| 0 <= i < l.len() implies (#[trigger] l[i] as int) < 128 && !is_ascii_capital(l[i]) by {
        assert(l[i] == ascii_lower_char(s[i]));
        assert((s[i] as int) < 128);
        if is_ascii_capital(s[i]) {
            assert(('A' as int) == 65 && ('Z' as int) == 90);
            assert(65 <= (s[i] as int) <= 90);
            assert((((s[i] as int) + 32) as char) as int == (s[i] as int) + 32);
        }
    }
}

/// `base` with `part` pushed onto it as `PathBuf::push` does on Unix: an
/// absolute `part` replaces `base`; otherwise `part` is joined to `base`
/// with a `'/'` unless `base` is empty or already ends with one.
pub open spec fn path_push(base: Seq<char>, part: Seq<char>) -> Seq<char> {
    if part.len() > 0 && part[0] == '/' {
        part
    } else if base.len() > 0 && base.last() != '/' {
        base + seq!['/'] + part
    } else {
        base + part
    }
}

/// Joins `part` onto the path `base`.
pub fn push_path(base: &str, part: &str) -> (r: String)
    ensures
        r@ == path_push(base@, part@),
{
    let b = chars_of(base);
    let p = chars_of(part);
    if p.len() > 0 && p[0] == '/' {
        return string_of(p.as_slice());
    }
    let mut out = b.clone();
    if b.len() > 0 && b[b.len() - 1] != '/' {
        out.push('/');
    }
    let mut i: usize = 0;
    let ghost start = out@;
    while i < p.len()
        invariant
            i <= p@.len(),
            out@ =~= start + p@.take(i as int),
        decreases p@.len() - i,
    {
        out.push(p[i]);
        i = i + 1;
    }
    assert(p@.take(p@.len() as int) =~= p@);
    string_of(out.as_slice())
}

/// Appends the characters of `s` to `out`.
pub fn push_all(out: &mut Vec<char>, s: &[char])
    ensures
        final(out)@ == old(out)@ + s@,
{
    let mut i: usize = 0;
    let ghost start = out@;
    while i < s.len()
        invariant
            i <= s@.len(),
            out@ =~= start + s@.take(i as int),
        decreases s@.len() - i,
    {
        out.push(s[i]);
        i = i + 1;
    }
    assert(s@.take(s@.len() as int) =~= s@);
}

/// The concatenation of two strings.
pub fn concat_str(a: &str, b: &str) -> (r: String)
    ensures
        r@ == a@ + b@,
{
    let mut out = chars_of(a);
    let bc = chars_of(b);
    push_all(&mut out, bc.as_slice());
    string_of(out.as_slice())
}


/// `str::get(start..end)` succeeds: the range is ordered and both ends fall
/// on character boundaries of the UTF-8 bytes `b`.
pub open spec fn slice_ok(b: Seq<u8>, start: int, end: int) -> bool {
    start <= end && is_char_boundary(b, start) && is_char_boundary(b, end)
}

/// A character boundary of `b` below a boundary `c` is a boundary of the
/// first `c` bytes of `b`.
proof fn lemma_boundary_prefix(b: Seq<u8>, a: int, c: int)
    requires
        valid_utf8(b),
        a <= c,
        is_char_boundary(b, a),
        is_char_boundary(b, c),
    ensures
        valid_utf8(b.subrange(0, c)),
        is_char_boundary(b.subrange(0, c), a),
{
    valid_utf8_split(b, c);
    let h = b.subrange(0, c);
    if a == 0 {
    } else if a == c {
        is_char_boundary_start_end_of_seq(h);
    } else {
        assert(0 < a < b.len()) by {
            reveal_with_fuel(is_char_boundary, 1);
        }
        is_char_boundary_iff_not_is_continuation_byte(b, a);
        is_char_boundary_iff_not_is_continuation_byte(h, a);
    }
}

/// The part of `s` between the byte offsets `start` and `end`, as
/// `str::get(start..end)` gives it: `None` unless the range is ordered and
/// both ends fall on character boundaries.
pub fn str_get(s: &str, start: usize, end: usize) -> (r: Option<String>)
    ensures
        r is Some <==> slice_ok(s.spec_bytes(), start as int, end as int),
        r matches Some(t) ==> encode_utf8(t@) == s.spec_bytes().subrange(start as int, end as int),
{
    proof {
        encode_utf8_valid_utf8(s@);
    }
    if start <= end && s.is_char_boundary(start) && s.is_char_boundary(end) {
        proof {
            lemma_boundary_prefix(s.spec_bytes(), start as int, end as int);
        }
        let (head, _) = s.split_at(end);
        let (_, mid) = head.split_at(start);
        assert(mid.spec_bytes() =~= s.spec_bytes().subrange(start as int, end as int));
        Some(mid.to_owned())
    } else {
        None
    }
}


/// The character sequences that a sequence of strings holds.
pub open spec fn string_views(v: Seq<String>) -> Seq<Seq<char>> {
    v.map_values(|x: String| x@)
}

/// Turns character vectors into strings.
pub fn strings_of(v: &Vec<Vec<char>>) -> (r: Vec<String>)
    ensures
        string_views(r@) == views(v@),
{
    let mut out: Vec<String> = Vec::new();
    let mut i: usize = 0;
    while i < v.len()
        invariant
            i <= v@.len(),
            string_views(out@) =~= views(v@).take(i as int),
        decreases v@.len() - i,
    {
        let ghost o0 = string_views(out@);
        out.push(string_of(v[i].as_slice()));
        assert(string_views(out@) =~= o0.push(v@[i as int]@));
        i = i + 1;
    }
    out
}

/// `str::trim`.
pub fn trim_str(s: &str) -> (r: String)
    ensures
        r@ == trim(s@),
{
    let c = chars_of(s);
    string_of(trim_chars(c.as_slice()).as_slice())
}

/// Whether `n` occurs in `h`.
pub fn contains_str(h: &str, n: &str) -> (r: bool)
    ensures
        r == contains(h@, n@),
{
    let hc = chars_of(h);
    let nc = chars_of(n);
    find_chars(hc.as_slice(), nc.as_slice()).is_some()
}

/// `str::replace` for a non-empty pattern.
pub fn replace_str(s: &str, from: &str, to: &str) -> (r: String)
    requires
        from@.len() > 0,
    ensures
        r@ == replace(s@, from@, to@),
{
    let sc = chars_of(s);
    let fc = chars_of(from);
    let tc = chars_of(to);
    string_of(replace_chars(sc.as_slice(), fc.as_slice(), tc.as_slice()).as_slice())
}

/// `str::split` at a character.
pub fn split_str(s: &str, sep: char) -> (r: Vec<String>)
    ensures
        string_views(r@) == split(s@, sep),
        r@.len() >= 1,
{
    let c = chars_of(s);
    let pieces = split_chars(c.as_slice(), sep);
    let r = strings_of(&pieces);
    assert(string_views(r@).len() == r@.len());
    r
}

/// `str::lines`.
pub fn lines_of(s: &str) -> (r: Vec<String>)
    ensures
        string_views(r@) == lines(s@),
{
    let c = chars_of(s);
    let ls = lines_chars(c.as_slice());
    strings_of(&ls)
}


/// Whether `name` is one of the strings of `list`.
pub fn list_contains(list: &Vec<String>, name: &str) -> (r: bool)
    ensures
        r == string_views(list@).contains(name@),
{
    let n = name.to_owned();
    let mut i: usize = 0;
    while i < list.len()
        invariant
            i <= list@.len(),
            n@ == name@,
            forall|j: int| 0 <= j < i ==> list@[j]@ != name@,
        decreases list@.len() - i,
    {
        if list[i] == n {
            assert(string_views(list@)[i as int] == name@);
            return true;
        }
        i = i + 1;
    }
    assert forall|j: int| 0 <= j < string_views(list@).len() implies string_views(list@)[j] != name@ by {
        assert(string_views(list@)[j] == list@[j]@);
    }
    false
}


/// A match somewhere means that `find` reports one.
pub proof fn lemma_match_found<A>(h: Seq<A>, n: Seq<A>, k: int)
    requires
        matches_at(h, n, k),
    ensures
        contains(h, n),
        find(h, n) matches Some(j) && j <= k,
{
    lemma_find_from(h, n, 0);
}

/// `sep` does not occur in `s`.
pub open spec fn free_of<A>(s: Seq<A>, sep: A) -> bool {
    forall|i: int| 0 <= i < s.len() ==> s[i] != sep
}

/// Appending text without separators extends the last piece.
pub proof fn lemma_split_append<A>(x: Seq<A>, t: Seq<A>, sep: A)
    requires
        free_of(t, sep),
    ensures
        split(x + t, sep) == split(x, sep).update(
            split(x, sep).len() - 1,
            split(x, sep).last() + t,
        ),
    decreases t.len(),
{
    lemma_split_len(x, sep);
    if t.len() == 0 {
        assert(x + t =~= x);
        assert(split(x, sep).last() + t =~= split(x, sep).last());
        assert(split(x, sep).update(split(x, sep).len() - 1, split(x, sep).last()) =~= split(x, sep));
    } else {
        let t0 = t.drop_last();
        lemma_split_append(x, t0, sep);
        assert((x + t).drop_last() =~= x + t0);
        assert((x + t).last() == t.last());
        assert(t.last() != sep);
        lemma_split_len(x + t0, sep);
        assert((split(x, sep).last() + t0).push(t.last()) =~= split(x, sep).last() + t);
    }
}

/// Appending a separator starts a new, empty piece.
pub proof fn lemma_split_push_sep<A>(x: Seq<A>, sep: A)
    ensures
        split(x.push(sep), sep) == split(x, sep).push(Seq::empty()),
{
    assert(x.push(sep).drop_last() =~= x);
}

/// A text without separators is a single piece.
pub proof fn lemma_split_single<A>(t: Seq<A>, sep: A)
    requires
        free_of(t, sep),
    ensures
        split(t, sep) == seq![t],
{
    lemma_split_append(Seq::empty(), t, sep);
    assert(Seq::<A>::empty() + t =~= t);
    assert(seq![Seq::<A>::empty()].update(0, Seq::<A>::empty() + t) =~= seq![t]);
}

/// Replacing a text that does not occur leaves a string as it was.
pub proof fn law_replace_absent(s: Seq<char>, from: Seq<char>, to: Seq<char>)
    requires
        from.len() > 0,
        !contains(s, from),
    ensures
        replace(s, from, to) == s,
    decreases s.len(),
{
    if s.len() > 0 {
        if matches_at(s, from, 0) {
            lemma_match_found(s, from, 0);
        }
        let r = s.drop_first();
        if contains(r, from) {
            let k = find(r, from)->0;
            lemma_find_from(r, from, 0);
            assert(s.subrange(k + 1, k + 1 + from.len()) =~= r.subrange(k, k + from.len()));
            lemma_match_found(s, from, k + 1);
        }
        law_replace_absent(r, from, to);
        assert(seq![s[0]] + r =~= s);
    }
}

/// Every space in `s` is escaped by a backslash just before it, and `s`
/// does not start with a space.
pub open spec fn spaces_escaped(s: Seq<char>) -> bool {
    &&& (s.len() > 0 ==> s[0] != ' ')
    &&& forall|i: int| 0 < i < s.len() && #[trigger] s[i] == ' ' ==> s[i - 1] == '\\'
}

/// Escaping the spaces of a path leaves no space unescaped, so that the
/// shell takes the path as one word.
pub proof fn law_escaped_spaces(path: Seq<char>)
    ensures
        spaces_escaped(replace(path, " "@, "\\ "@)),
    decreases path.len(),
{
    reveal_strlit(" ");
    reveal_strlit("\\ ");
    if path.len() > 0 {
        if matches_at(path, " "@, 0) {
            let rest = replace(path.skip(1), " "@, "\\ "@);
            law_escaped_spaces(path.skip(1));
            let r = "\\ "@ + rest;
            assert(r == replace(path, " "@, "\\ "@));
            assert forall|i: int| 0 < i < r.len() && #[trigger] r[i] == ' ' implies r[i - 1] == '\\' by {
                if i >= 3 {
                    assert(r[i] == rest[i - 2]);
                    assert(r[i - 1] == rest[i - 3]);
                } else if i == 2 {
                    assert(r[i] == rest[0]);
                }
            }
        } else {
            assert(path.subrange(0, 1) =~= seq![path[0]]);
            assert(" "@ =~= seq![' ']);
            assert(path[0] != ' ');
            let rest = replace(path.drop_first(), " "@, "\\ "@);
            law_escaped_spaces(path.drop_first());
            let r = seq![path[0]] + rest;
            assert forall|i: int| 0 < i < r.len() && #[trigger] r[i] == ' ' implies r[i - 1] == '\\' by {
                assert(r[i] == rest[i - 1]);
                if i >= 2 {
                    assert(r[i - 1] == rest[i - 2]);
                }
            }
        }
    }
}


/// `s` with each backslash that stands right before a space taken out:
/// what a shell makes of a word whose spaces are escaped.
pub open spec fn unescaped(s: Seq<char>) -> Seq<char>
    decreases s.len(),
{
    if s.len() == 0 {
        s
    } else if s.len() >= 2 && s[0] == '\\' && s[1] == ' ' {
        seq![' '] + unescaped(s.skip(2))
    } else {
        seq![s[0]] + unescaped(s.drop_first())
    }
}

/// Escaping every space loses nothing: taking the escapes out again gives
/// the text back.
pub proof fn law_unescape_escaped(path: Seq<char>)
    ensures
        unescaped(replace(path, " "@, "\\ "@)) == path,
    decreases path.len(),
{
    reveal_strlit(" ");
    reveal_strlit("\\ ");
    if path.len() > 0 {
        if matches_at(path, " "@, 0) {
            let rest = replace(path.skip(1), " "@, "\\ "@);
            law_unescape_escaped(path.skip(1));
            let r = "\\ "@ + rest;
            assert(r.skip(2) =~= rest);
            assert(" "@ =~= seq![' ']);
            assert(path.subrange(0, 1) == " "@);
            assert(path.subrange(0, 1)[0] == path[0]);
            assert(path[0] == ' ');
            assert(path =~= seq![' '] + path.skip(1));
        } else {
            let rest = replace(path.drop_first(), " "@, "\\ "@);
            law_unescape_escaped(path.drop_first());
            law_escaped_spaces(path.drop_first());
            let r = seq![path[0]] + rest;
            assert(r.drop_first() =~= rest);
            assert(path =~= seq![path[0]] + path.drop_first());
        }
    }
}

/// The characters that a registry name never keeps: apostrophes, `'™'` and colons.
pub open spec fn is_mark(c: char) -> bool {
    c == '\'' || c == '™' || c == ':'
}

/// `s` without apostrophes, `'™'` and colons.
pub open spec fn marks_removed(s: Seq<char>) -> Seq<char>
    decreases s.len(),
{
    if s.len() == 0 {
        s
    } else if is_mark(s.last()) {
        marks_removed(s.drop_last())
    } else {
        marks_removed(s.drop_last()).push(s.last())
    }
}

/// `s` with each dash and each white-space character turned into `'_'`.
pub open spec fn white_underscored(s: Seq<char>) -> Seq<char> {
    s.map_values(|c: char| if c == '-' || is_space(c) { '_' } else { c })
}

/// What is left after removing marks holds no mark.
pub proof fn lemma_marks_removed(s: Seq<char>)
    ensures
        forall|i: int| 0 <= i < marks_removed(s).len() ==> !is_mark(#[trigger] marks_removed(s)[i]),
    decreases s.len(),
{
    if s.len() > 0 {
        lemma_marks_removed(s.drop_last());
        let r = marks_removed(s.drop_last());
        assert forall|i: int| 0 <= i < marks_removed(s).len() implies !is_mark(
            #[trigger] marks_removed(s)[i],
        ) by {
            if !is_mark(s.last()) && i < r.len() {
                assert(marks_removed(s)[i] == r[i]);
            }
        }
    }
}

/// A text without marks is left as it is by removing marks.
pub proof fn lemma_marks_removed_id(s: Seq<char>)
    requires
        forall|i: int| 0 <= i < s.len() ==> !is_mark(#[trigger] s[i]),
    ensures
        marks_removed(s) == s,
    decreases s.len(),
{
    if s.len() > 0 {
        lemma_marks_removed_id(s.drop_last());
        assert(s.drop_last().push(s.last()) =~= s);
    }
}

/// Removing marks keeps every other character, in order.
pub proof fn lemma_marks_removed_chars(s: Seq<char>)
    ensures
        forall|i: int|
            0 <= i < marks_removed(s).len() ==> exists|j: int|
                0 <= j < s.len() && s[j] == #[trigger] marks_removed(s)[i],
    decreases s.len(),
{
    if s.len() > 0 {
        lemma_marks_removed_chars(s.drop_last());
        let r = marks_removed(s.drop_last());
        assert forall|i: int| 0 <= i < marks_removed(s).len() implies exists|j: int|
            0 <= j < s.len() && s[j] == #[trigger] marks_removed(s)[i] by {
            if i < r.len() {
                assert(marks_removed(s)[i] == r[i]);
                let j = choose|j: int| 0 <= j < s.drop_last().len() && s.drop_last()[j] == r[i];
                assert(s[j] == s.drop_last()[j]);
            } else {
                assert(s[s.len() - 1] == marks_removed(s)[i]);
            }
        }
    }
}

proof fn lemma_trim_start_sub(s: Seq<char>)
    ensures
        exists|a: int| 0 <= a <= s.len() && trim_start(s) == s.subrange(a, s.len() as int),
    decreases s.len(),
{
    if s.len() > 0 && is_space(s[0]) {
        let t = s.drop_first();
        lemma_trim_start_sub(t);
        let a = choose|a: int| 0 <= a <= t.len() && trim_start(t) == t.subrange(a, t.len() as int);
        assert(t.subrange(a, t.len() as int) =~= s.subrange(a + 1, s.len() as int));
    } else {
        assert(s.subrange(0, s.len() as int) =~= s);
    }
}

proof fn lemma_trim_end_sub(s: Seq<char>)
    ensures
        exists|b: int| 0 <= b <= s.len() && trim_end(s) == s.subrange(0, b),
    decreases s.len(),
{
    if s.len() > 0 && is_space(s.last()) {
        let t = s.drop_last();
        lemma_trim_end_sub(t);
        let b = choose|b: int| 0 <= b <= t.len() && trim_end(t) == t.subrange(0, b);
        assert(t.subrange(0, b) =~= s.subrange(0, b));
    } else {
        assert(s.subrange(0, s.len() as int) =~= s);
    }
}

/// Trimming keeps characters of the text only.
pub proof fn lemma_trim_chars(s: Seq<char>)
    ensures
        forall|i: int|
            0 <= i < trim(s).len() ==> exists|j: int| 0 <= j < s.len() && s[j] == #[trigger] trim(s)[i],
{
    lemma_trim_start_sub(s);
    let a = choose|a: int| 0 <= a <= s.len() && trim_start(s) == s.subrange(a, s.len() as int);
    let m = trim_start(s);
    lemma_trim_end_sub(m);
    let b = choose|b: int| 0 <= b <= m.len() && trim_end(m) == m.subrange(0, b);
    assert forall|i: int| 0 <= i < trim(s).len() implies exists|j: int|
        0 <= j < s.len() && s[j] == #[trigger] trim(s)[i] by {
        assert(trim(s)[i] == m[i]);
        assert(m[i] == s[a + i]);
    }
}

/// A text that neither starts nor ends with white space is its own trim.
pub proof fn lemma_trim_id(s: Seq<char>)
    requires
        forall|i: int| 0 <= i < s.len() ==> !is_space(#[trigger] s[i]),
    ensures
        trim(s) == s,
{
    if s.len() > 0 {
        assert(!is_space(s[0]));
        assert(!is_space(s[s.len() - 1]));
    }
}


/// A text in which the first character of `n` never occurs does not hold `n`.
pub proof fn lemma_absent_first_char(h: Seq<char>, n: Seq<char>)
    requires
        n.len() > 0,
        forall|i: int| 0 <= i < h.len() ==> #[trigger] h[i] != n[0],
    ensures
        !contains(h, n),
{
    if contains(h, n) {
        let k = find(h, n)->0;
        lemma_find_from(h, n, 0);
        assert(h.subrange(k, k + n.len())[0] == n[0]);
        assert(h[k] == n[0]);
    }
}

} // verus!
