//! The text formats of the font caches: the resolved font file per family
//! (`family=path` lines) and the list of emoji font files (a header line,
//! then one path per line). Reading and writing the files is the caller's;
//! these functions read and produce their contents.
use crate::color::{trim, trim_end, trim_start};
use crate::text::{chars_of, is_white_space, push_char, string_of_chars, white_space};
use vstd::prelude::*;
use vstd::string::StringExecFns;

verus! {

/// The index of the first `c` in `s`, or the length of `s` when there is none.
pub open spec fn index_of(s: Seq<char>, c: char) -> int
    decreases s.len(),
{
    if s.len() == 0 {
        0
    } else if s[0] == c {
        0
    } else {
        1 + index_of(s.drop_first(), c)
    }
}

pub(crate) proof fn lemma_index_of(s: Seq<char>, c: char, j: int)
    requires
        0 <= j <= s.len(),
        forall|k: int| 0 <= k < j ==> s[k] != c,
        j == s.len() || s[j] == c,
    ensures
        index_of(s, c) == j,
    decreases s.len(),
{
    if s.len() > 0 && j > 0 {
        lemma_index_of(s.drop_first(), c, j - 1);
    }
}

/// Where `index_of` points: at an occurrence, or past the end when there is
/// none, and no occurrence before it.
pub proof fn lemma_index_of_bounds(s: Seq<char>, c: char)
    ensures
        0 <= index_of(s, c) <= s.len(),
        index_of(s, c) < s.len() ==> s[index_of(s, c)] == c,
        forall|k: int| 0 <= k < index_of(s, c) ==> s[k] != c,
    decreases s.len(),
{
    if s.len() > 0 && s[0] != c {
        lemma_index_of_bounds(s.drop_first(), c);
        assert forall|k: int| 0 <= k < index_of(s, c) implies s[k] != c by {
            if k > 0 {
                assert(s[k] == s.drop_first()[k - 1]);
            }
        }
    }
}

/// A line without the carriage return of a CR LF ending.
pub open spec fn strip_cr(l: Seq<char>) -> Seq<char> {
    if l.len() > 0 && l.last() == '\r' {
        l.drop_last()
    } else {
        l
    }
}

/// The lines of a text, as `str::lines` yields them: split at LF or CR LF,
/// without the terminators, and without an empty line after a final one.
pub open spec fn lines_of(s: Seq<char>) -> Seq<Seq<char>>
    decreases s.len(),
{
    if s.len() == 0 {
        seq![]
    } else {
        let i = index_of(s, '\n');
        if i >= s.len() {
            seq![s]
        } else {
            proof {
                lemma_index_of_bounds(s, '\n');
            }
            seq![strip_cr(s.subrange(0, i))] + lines_of(s.subrange(i + 1, s.len() as int))
        }
    }
}

/// The lines, each followed by a newline.
pub open spec fn joined_lines(ls: Seq<Seq<char>>) -> Seq<char>
    decreases ls.len(),
{
    if ls.len() == 0 {
        seq![]
    } else {
        ls[0] + seq!['\n'] + joined_lines(ls.drop_first())
    }
}

pub(crate) proof fn lemma_joined_push(ls: Seq<Seq<char>>, l: Seq<char>)
    ensures
        joined_lines(ls.push(l)) == joined_lines(ls) + l + seq!['\n'],
    decreases ls.len(),
{
    if ls.len() > 0 {
        assert(ls.push(l).drop_first() =~= ls.drop_first().push(l));
        lemma_joined_push(ls.drop_first(), l);
        assert(joined_lines(ls.push(l)) =~= joined_lines(ls) + l + seq!['\n']);
    } else {
        let one = ls.push(l);
        assert(one.drop_first() =~= Seq::<Seq<char>>::empty());
        assert(one[0] == l);
        assert(joined_lines(one.drop_first()) == Seq::<char>::empty());
        assert(joined_lines(ls) == Seq::<char>::empty());
        assert(joined_lines(one) =~= joined_lines(ls) + l + seq!['\n']);
    }
}

/// A line followed by a newline reads as that line and then what follows.
proof fn lemma_lines_of_line(l: Seq<char>, rest: Seq<char>)
    requires
        forall|k: int| 0 <= k < l.len() ==> l[k] != '\n',
    ensures
        lines_of(l + seq!['\n'] + rest) == seq![strip_cr(l)] + lines_of(rest),
{
    let s = l + seq!['\n'] + rest;
    lemma_index_of(s, '\n', l.len() as int);
    assert(s.subrange(0, l.len() as int) =~= l);
    assert(s.subrange(l.len() as int + 1, s.len() as int) =~= rest);
}

/// Lines without newlines, joined, read back as the lines (CR endings aside).
pub(crate) proof fn lemma_lines_of_joined(ls: Seq<Seq<char>>)
    requires
        forall|i: int, k: int| 0 <= i < ls.len() && 0 <= k < ls[i].len() ==> ls[i][k] != '\n',
    ensures
        lines_of(joined_lines(ls)) == ls.map_values(|l: Seq<char>| strip_cr(l)),
    decreases ls.len(),
{
    if ls.len() > 0 {
        let rest = ls.drop_first();
        assert forall|i: int, k: int| 0 <= i < rest.len() && 0 <= k < rest[i].len() implies rest[i][k]
            != '\n' by {
            assert(rest[i] == ls[i + 1]);
        }
        lemma_lines_of_joined(rest);
        assert forall|k: int| 0 <= k < ls[0].len() implies ls[0][k] != '\n' by {}
        lemma_lines_of_line(ls[0], joined_lines(rest));
        assert(ls.map_values(|l: Seq<char>| strip_cr(l)) =~= seq![strip_cr(ls[0])]
            + rest.map_values(|l: Seq<char>| strip_cr(l)));
    } else {
        assert(ls.map_values(|l: Seq<char>| strip_cr(l)) =~= Seq::<Seq<char>>::empty());
    }
}

/// No line of a text holds a newline.
pub(crate) proof fn lemma_lines_have_no_newline(s: Seq<char>)
    ensures
        forall|i: int, k: int|
            0 <= i < lines_of(s).len() && 0 <= k < lines_of(s)[i].len() ==> lines_of(s)[i][k]
                != '\n',
    decreases s.len(),
{
    if s.len() > 0 {
        let j = index_of(s, '\n');
        lemma_index_of_bounds(s, '\n');
        if j < s.len() {
            lemma_lines_have_no_newline(s.subrange(j + 1, s.len() as int));
            let first = strip_cr(s.subrange(0, j));
            assert forall|i: int, k: int|
                0 <= i < lines_of(s).len() && 0 <= k < lines_of(s)[i].len() implies lines_of(s)[i][k]
                != '\n' by {
                if i == 0 {
                    assert(lines_of(s)[0] == first);
                    assert(first[k] == s[k]);
                } else {
                    assert(lines_of(s)[i] == lines_of(s.subrange(j + 1, s.len() as int))[i - 1]);
                }
            }
        }
    }
}

/// Splits a text into its lines.
pub fn split_lines(text: &str) -> (out: Vec<String>)
    ensures
        out@.map_values(|l: String| l@) == lines_of(text@),
{
    let v = chars_of(text);
    let n = v.len();
    let mut out: Vec<String> = Vec::new();
    let mut start: usize = 0;
    let mut i: usize = 0;
    assert(v@.subrange(0, n as int) =~= v@);
    while i < n
        invariant
            start <= i <= n == v@.len(),
            v@ == text@,
            lines_of(v@) == out@.map_values(|l: String| l@) + lines_of(v@.subrange(start as int, n as int)),
            forall|k: int| start <= k < i ==> v@[k] != '\n',
        decreases n - i,
    {
        if v[i] == '\n' {
            let ghost rest = v@.subrange(start as int, n as int);
            proof {
                lemma_index_of(rest, '\n', i - start);
                assert(rest.subrange(0, i - start) =~= v@.subrange(start as int, i as int));
                assert(rest.subrange(i - start + 1, rest.len() as int) =~= v@.subrange(i + 1, n as int));
            }
            let end = if i > start && v[i - 1] == '\r' {
                i - 1
            } else {
                i
            };
            let line = string_of_chars(&v, start, end);
            let ghost before = out@;
            out.push(line);
            proof {
                assert(line@ == strip_cr(v@.subrange(start as int, i as int))) by {
                    if i > start && v@[i - 1] == '\r' {
                        assert(v@.subrange(start as int, i as int).drop_last() =~= v@.subrange(
                            start as int,
                            end as int,
                        ));
                    }
                }
                assert(out@.map_values(|l: String| l@) =~= before.map_values(|l: String| l@).push(
                    line@,
                ));
                assert(lines_of(v@) =~= out@.map_values(|l: String| l@) + lines_of(
                    v@.subrange(i + 1, n as int),
                ));
            }
            start = i + 1;
        }
        i = i + 1;
    }
    if start < n {
        let ghost rest = v@.subrange(start as int, n as int);
        proof {
            lemma_index_of(rest, '\n', rest.len() as int);
        }
        let line = string_of_chars(&v, start, n);
        let ghost before = out@;
        out.push(line);
        assert(out@.map_values(|l: String| l@) =~= before.map_values(|l: String| l@).push(line@));
    }
    assert(lines_of(v@) =~= out@.map_values(|l: String| l@));
    out
}

/// The family of a `family=path` line: what precedes its first `=`.
pub open spec fn line_key(l: Seq<char>) -> Option<Seq<char>> {
    let j = index_of(l, '=');
    if j < l.len() {
        Some(l.subrange(0, j))
    } else {
        None
    }
}

/// The path of a `family=path` line: what follows its first `=`.
pub open spec fn line_value(l: Seq<char>) -> Seq<char> {
    l.subrange(index_of(l, '=') + 1, l.len() as int)
}

/// The path cached for a family: that of the first line for the family.
pub open spec fn font_path_lookup(ls: Seq<Seq<char>>, family: Seq<char>) -> Option<Seq<char>>
    decreases ls.len(),
{
    if ls.len() == 0 {
        None
    } else if line_key(ls[0]) == Some(family) {
        Some(line_value(ls[0]))
    } else {
        font_path_lookup(ls.drop_first(), family)
    }
}

/// The lines that are not for `family`.
pub open spec fn lines_not_for(ls: Seq<Seq<char>>, family: Seq<char>) -> Seq<Seq<char>>
    decreases ls.len(),
{
    if ls.len() == 0 {
        seq![]
    } else {
        let kept = lines_not_for(ls.drop_last(), family);
        if line_key(ls.last()) == Some(family) {
            kept
        } else {
            kept.push(ls.last())
        }
    }
}

/// The cache contents after caching `path` for `family`: the other lines as
/// they were, then `family=path`, each line ended by a newline.
pub open spec fn font_path_cache_text(existing: Seq<char>, family: Seq<char>, path: Seq<char>) -> Seq<
    char,
> {
    joined_lines(lines_not_for(lines_of(existing), family).push(family + seq!['='] + path))
}

/// The key of a line, computed: the text before its first `=`.
fn key_of(l: &Vec<char>) -> (r: Option<usize>)
    ensures
        match r {
            Some(j) => j < l.len() && j == index_of(l@, '=') && line_key(l@) == Some(
                l@.subrange(0, j as int),
            ),
            None => line_key(l@) is None,
        },
{
    proof {
        lemma_index_of_bounds(l@, '=');
    }
    let mut j: usize = 0;
    while j < l.len()
        invariant
            j <= l@.len(),
            forall|k: int| 0 <= k < j ==> l@[k] != '=',
        decreases l@.len() - j,
    {
        if l[j] == '=' {
            proof {
                lemma_index_of(l@, '=', j as int);
            }
            return Some(j);
        }
        j = j + 1;
    }
    proof {
        lemma_index_of(l@, '=', l@.len() as int);
    }
    None
}

/// Whether `v[0..len]` is `w`.
pub(crate) fn prefix_is(v: &Vec<char>, len: usize, w: &Vec<char>) -> (b: bool)
    requires
        len <= v@.len(),
    ensures
        b == (v@.subrange(0, len as int) == w@),
{
    if len != w.len() {
        assert(v@.subrange(0, len as int).len() != w@.len());
        return false;
    }
    let mut k: usize = 0;
    while k < len
        invariant
            k <= len <= v@.len(),
            len == w@.len(),
            forall|q: int| 0 <= q < k ==> v@[q] == w@[q],
        decreases len - k,
    {
        if v[k] != w[k] {
            assert(v@.subrange(0, len as int)[k as int] != w@[k as int]);
            return false;
        }
        k = k + 1;
    }
    assert(v@.subrange(0, len as int) =~= w@);
    true
}

/// The path cached for a family in the contents of the font path cache.
pub fn cached_font_path(content: &str, family: &str) -> (r: Option<String>)
    ensures
        match r {
            Some(p) => font_path_lookup(lines_of(content@), family@) == Some(p@),
            None => font_path_lookup(lines_of(content@), family@) is None,
        },
{
    let lines = split_lines(content);
    let ghost ls = lines@.map_values(|l: String| l@);
    let fam = chars_of(family);
    let mut i: usize = 0;
    assert(ls.subrange(0, ls.len() as int) =~= ls);
    while i < lines.len()
        invariant
            i <= lines@.len(),
            ls == lines@.map_values(|l: String| l@),
            ls == lines_of(content@),
            fam@ == family@,
            font_path_lookup(ls, family@) == font_path_lookup(
                ls.subrange(i as int, ls.len() as int),
                family@,
            ),
        decreases lines@.len() - i,
    {
        let ghost rest = ls.subrange(i as int, ls.len() as int);
        assert(rest.drop_first() =~= ls.subrange(i + 1, ls.len() as int));
        let v = chars_of(lines[i].as_str());
        assert(v@ == rest[0]);
        match key_of(&v) {
            Some(j) => {
                if prefix_is(&v, j, &fam) {
                    return Some(string_of_chars(&v, j + 1, v.len()));
                }
            },
            None => {},
        }
        i = i + 1;
    }
    None
}

/// The contents of the font path cache after caching `path` for `family`.
pub fn font_path_cache_content(existing: &str, family: &str, path: &str) -> (r: String)
    ensures
        r@ == font_path_cache_text(existing@, family@, path@),
{
    let lines = split_lines(existing);
    let ghost ls = lines@.map_values(|l: String| l@);
    let fam = chars_of(family);
    let mut out = String::new();
    let mut i: usize = 0;
    while i < lines.len()
        invariant
            i <= lines@.len(),
            ls == lines@.map_values(|l: String| l@),
            ls == lines_of(existing@),
            fam@ == family@,
            out@ == joined_lines(lines_not_for(ls.subrange(0, i as int), family@)),
        decreases lines@.len() - i,
    {
        let v = chars_of(lines[i].as_str());
        let ghost prefix = ls.subrange(0, i as int);
        assert(ls.subrange(0, i + 1).drop_last() =~= prefix);
        assert(ls.subrange(0, i + 1).last() == v@);
        let for_family = match key_of(&v) {
            Some(j) => prefix_is(&v, j, &fam),
            None => false,
        };
        if !for_family {
            proof {
                lemma_joined_push(lines_not_for(prefix, family@), v@);
            }
            out.append(lines[i].as_str());
            push_char(&mut out, '\n');
        }
        i = i + 1;
    }
    assert(ls.subrange(0, ls.len() as int) =~= ls);
    let ghost kept = lines_not_for(ls, family@);
    let mut entry = String::from_str(family);
    push_char(&mut entry, '=');
    entry.append(path);
    proof {
        lemma_joined_push(kept, entry@);
    }
    out.append(entry.as_str());
    push_char(&mut out, '\n');
    assert(entry@ =~= family@ + seq!['='] + path@);
    out
}

proof fn lemma_key_strip_cr(l: Seq<char>)
    ensures
        line_key(strip_cr(l)) == line_key(l),
{
    lemma_index_of_bounds(l, '=');
    if l.len() > 0 && l.last() == '\r' {
        let m = l.drop_last();
        let j = index_of(l, '=');
        if j < l.len() {
            assert(j < m.len());
            assert forall|k: int| 0 <= k < j implies m[k] != '=' by {}
            lemma_index_of(m, '=', j);
            assert(m.subrange(0, j) =~= l.subrange(0, j));
        } else {
            assert forall|k: int| 0 <= k < m.len() implies m[k] != '=' by {}
            lemma_index_of(m, '=', m.len() as int);
        }
    }
}

proof fn lemma_lookup_skips(a: Seq<Seq<char>>, b: Seq<Seq<char>>, family: Seq<char>)
    requires
        forall|i: int| 0 <= i < a.len() ==> line_key(#[trigger] a[i]) != Some(family),
    ensures
        font_path_lookup(a + b, family) == font_path_lookup(b, family),
    decreases a.len(),
{
    if a.len() > 0 {
        assert((a + b).drop_first() =~= a.drop_first() + b);
        assert((a + b)[0] == a[0]);
        lemma_lookup_skips(a.drop_first(), b, family);
    } else {
        assert(a + b =~= b);
    }
}

proof fn lemma_lines_not_for_props(ls: Seq<Seq<char>>, family: Seq<char>)
    requires
        forall|i: int, k: int| 0 <= i < ls.len() && 0 <= k < ls[i].len() ==> ls[i][k] != '\n',
    ensures
        forall|i: int| 0 <= i < lines_not_for(ls, family).len() ==> line_key(
            #[trigger] lines_not_for(ls, family)[i],
        ) != Some(family),
        forall|i: int, k: int|
            0 <= i < lines_not_for(ls, family).len() && 0 <= k < lines_not_for(ls, family)[i].len()
                ==> lines_not_for(ls, family)[i][k] != '\n',
    decreases ls.len(),
{
    if ls.len() > 0 {
        let front = ls.drop_last();
        assert forall|i: int, k: int| 0 <= i < front.len() && 0 <= k < front[i].len() implies front[i][k]
            != '\n' by {
            assert(front[i] == ls[i]);
        }
        lemma_lines_not_for_props(front, family);
        assert forall|k: int| 0 <= k < ls.last().len() implies ls.last()[k] != '\n' by {
            assert(ls.last() == ls[ls.len() - 1]);
        }
    }
}

/// Caching a path for a family and reading the cache back gives that path,
/// whatever the cache held before (for a family without `=` or line breaks
/// and a path without line breaks that does not end in a carriage return).
pub proof fn lemma_font_path_cache_roundtrip(existing: Seq<char>, family: Seq<char>, path: Seq<char>)
    requires
        forall|k: int| 0 <= k < family.len() ==> family[k] != '=' && family[k] != '\n',
        forall|k: int| 0 <= k < path.len() ==> path[k] != '\n',
        path.len() > 0 ==> path.last() != '\r',
    ensures
        font_path_lookup(lines_of(font_path_cache_text(existing, family, path)), family) == Some(path),
{
    let kept = lines_not_for(lines_of(existing), family);
    let entry = family + seq!['='] + path;
    let ls = kept.push(entry);
    lemma_lines_have_no_newline(existing);
    lemma_lines_not_for_props(lines_of(existing), family);
    assert forall|i: int, k: int| 0 <= i < ls.len() && 0 <= k < ls[i].len() implies ls[i][k] != '\n' by {
        if i < kept.len() {
            assert(ls[i] == kept[i]);
        } else {
            assert(ls[i] == entry);
            if k < family.len() {
                assert(entry[k] == family[k]);
            } else if k > family.len() {
                assert(entry[k] == path[k - family.len() - 1]);
            }
        }
    }
    lemma_lines_of_joined(ls);
    let mapped = ls.map_values(|l: Seq<char>| strip_cr(l));
    let kept_mapped = kept.map_values(|l: Seq<char>| strip_cr(l));
    assert(mapped =~= kept_mapped + seq![strip_cr(entry)]);
    assert forall|i: int| 0 <= i < kept_mapped.len() implies line_key(#[trigger] kept_mapped[i]) != Some(
        family,
    ) by {
        lemma_key_strip_cr(kept[i]);
        assert(line_key(kept[i]) != Some(family));
    }
    lemma_lookup_skips(kept_mapped, seq![strip_cr(entry)], family);
    assert(strip_cr(entry) == entry) by {
        if path.len() > 0 {
            assert(entry.last() == path.last());
        } else {
            assert(entry.last() == '=');
        }
    }
    assert forall|k: int| 0 <= k < family.len() implies entry[k] != '=' by {
        assert(entry[k] == family[k]);
    }
    lemma_index_of(entry, '=', family.len() as int);
    assert(entry.subrange(0, family.len() as int) =~= family);
    assert(line_value(entry) =~= path);
    assert(seq![strip_cr(entry)].drop_first() =~= Seq::<Seq<char>>::empty());
}

/// The first line of the emoji font cache.
pub open spec fn emoji_cache_header() -> Seq<char> {
    "emoji_fonts_v1"@
}

/// The cached paths of lines: each line trimmed, empty ones skipped.
pub open spec fn listed_paths(ls: Seq<Seq<char>>) -> Seq<Seq<char>>
    decreases ls.len(),
{
    if ls.len() == 0 {
        seq![]
    } else {
        let front = listed_paths(ls.drop_last());
        if trim(ls.last()).len() == 0 {
            front
        } else {
            front.push(trim(ls.last()))
        }
    }
}

/// What the emoji font cache lists: the paths after its header line; `None`
/// when the header is missing or unknown. (Whether the files still exist is
/// checked by the caller.)
pub open spec fn parse_emoji_cache(content: Seq<char>) -> Option<Seq<Seq<char>>> {
    let ls = lines_of(content);
    if ls.len() == 0 || ls[0] != emoji_cache_header() {
        None
    } else {
        Some(listed_paths(ls.drop_first()))
    }
}

/// The bounds of `v[from..to]` without leading or trailing white space.
pub(crate) fn trimmed_bounds(v: &Vec<char>, from: usize, to: usize) -> (r: (usize, usize))
    requires
        from <= to <= v@.len(),
    ensures
        from <= r.0 <= r.1 <= to,
        v@.subrange(r.0 as int, r.1 as int) == trim(v@.subrange(from as int, to as int)),
{
    let mut i = from;
    assert(v@.subrange(from as int, to as int) =~= v@.subrange(from as int, to as int));
    while i < to && white_space(v[i])
        invariant
            from <= i <= to <= v@.len(),
            trim_start(v@.subrange(i as int, to as int)) == trim_start(v@.subrange(from as int, to as int)),
        decreases to - i,
    {
        assert(v@.subrange(i as int, to as int).drop_first() =~= v@.subrange(i + 1, to as int));
        i = i + 1;
    }
    assert(trim_start(v@.subrange(from as int, to as int)) == v@.subrange(i as int, to as int));
    let mut j = to;
    while j > i && white_space(v[j - 1])
        invariant
            from <= i <= j <= to <= v@.len(),
            trim_end(v@.subrange(i as int, j as int)) == trim(v@.subrange(from as int, to as int)),
        decreases j - i,
    {
        assert(v@.subrange(i as int, j as int).drop_last() =~= v@.subrange(i as int, j - 1));
        j = j - 1;
    }
    (i, j)
}

/// The paths listed in the contents of the emoji font cache.
pub fn parse_emoji_font_cache(content: &str) -> (r: Option<Vec<String>>)
    ensures
        match r {
            Some(paths) => parse_emoji_cache(content@) == Some(paths@.map_values(|p: String| p@)),
            None => parse_emoji_cache(content@) is None,
        },
{
    proof {
        reveal_strlit("emoji_fonts_v1");
    }
    let lines = split_lines(content);
    let ghost ls = lines@.map_values(|l: String| l@);
    if lines.len() == 0 {
        return None;
    }
    let header = chars_of("emoji_fonts_v1");
    let first = chars_of(lines[0].as_str());
    if !prefix_is(&first, first.len(), &header) {
        assert(first@.subrange(0, first@.len() as int) =~= first@);
        return None;
    }
    assert(first@.subrange(0, first@.len() as int) =~= first@);
    let ghost rest = ls.drop_first();
    let mut paths: Vec<String> = Vec::new();
    let mut i: usize = 1;
    while i < lines.len()
        invariant
            1 <= i <= lines@.len(),
            ls == lines@.map_values(|l: String| l@),
            rest == ls.drop_first(),
            paths@.map_values(|p: String| p@) == listed_paths(rest.subrange(0, i - 1)),
        decreases lines@.len() - i,
    {
        let v = chars_of(lines[i].as_str());
        let ghost prefix = rest.subrange(0, i - 1);
        assert(rest.subrange(0, i as int).drop_last() =~= prefix);
        assert(rest.subrange(0, i as int).last() == v@);
        let (a, b) = trimmed_bounds(&v, 0, v.len());
        assert(v@.subrange(0, v@.len() as int) =~= v@);
        if a < b {
            let ghost before = paths@;
            paths.push(string_of_chars(&v, a, b));
            assert(paths@.map_values(|p: String| p@) =~= before.map_values(|p: String| p@).push(
                trim(v@),
            ));
        }
        i = i + 1;
    }
    assert(rest.subrange(0, rest.len() as int) =~= rest);
    Some(paths)
}

/// The contents of the emoji font cache listing `paths`.
pub fn emoji_font_cache_content(paths: &[String]) -> (r: String)
    ensures
        r@ == joined_lines(seq![emoji_cache_header()] + paths@.map_values(|p: String| p@)),
{
    proof {
        reveal_strlit("emoji_fonts_v1");
    }
    let mut out = String::from_str("emoji_fonts_v1");
    push_char(&mut out, '\n');
    let ghost head = seq![emoji_cache_header()];
    proof {
        lemma_joined_push(Seq::<Seq<char>>::empty(), emoji_cache_header());
        assert(Seq::<Seq<char>>::empty().push(emoji_cache_header()) =~= head);
    }
    let mut i: usize = 0;
    while i < paths.len()
        invariant
            i <= paths@.len(),
            head == seq![emoji_cache_header()],
            out@ == joined_lines(head + paths@.subrange(0, i as int).map_values(|p: String| p@)),
        decreases paths@.len() - i,
    {
        proof {
            let before = head + paths@.subrange(0, i as int).map_values(|p: String| p@);
            lemma_joined_push(before, paths@[i as int]@);
            assert(head + paths@.subrange(0, i + 1).map_values(|p: String| p@) =~= before.push(
                paths@[i as int]@,
            ));
        }
        out.append(paths[i].as_str());
        push_char(&mut out, '\n');
        i = i + 1;
    }
    assert(paths@.subrange(0, paths@.len() as int) =~= paths@);
    out
}

proof fn lemma_listed_paths_of_trimmed(ps: Seq<Seq<char>>)
    requires
        forall|i: int| 0 <= i < ps.len() ==> #[trigger] trim(ps[i]) == ps[i] && ps[i].len() > 0,
    ensures
        listed_paths(ps) == ps,
    decreases ps.len(),
{
    if ps.len() > 0 {
        let front = ps.drop_last();
        assert forall|i: int| 0 <= i < front.len() implies #[trigger] trim(front[i]) == front[i]
            && front[i].len() > 0 by {
            assert(front[i] == ps[i]);
        }
        lemma_listed_paths_of_trimmed(front);
        assert(trim(ps.last()) == ps.last());
        assert(front.push(ps.last()) =~= ps);
    }
}

proof fn lemma_trimmed_not_cr(p: Seq<char>)
    requires
        trim(p) == p,
        p.len() > 0,
    ensures
        strip_cr(p) == p,
{
    if p.last() == '\r' {
        assert(is_white_space(trim_start(p).last()));
        assert(trim_end(trim_start(p)) != p) by {
            assert(trim_end(trim_start(p)) == trim_end(trim_start(p).drop_last()));
            lemma_trim_end_shorter(trim_start(p).drop_last());
            lemma_trim_start_shorter(p);
        }
    }
}

proof fn lemma_trim_end_shorter(s: Seq<char>)
    ensures
        trim_end(s).len() <= s.len(),
    decreases s.len(),
{
    if s.len() > 0 && is_white_space(s.last()) {
        lemma_trim_end_shorter(s.drop_last());
    }
}

proof fn lemma_trim_start_shorter(s: Seq<char>)
    ensures
        trim_start(s).len() <= s.len(),
    decreases s.len(),
{
    if s.len() > 0 && is_white_space(s[0]) {
        lemma_trim_start_shorter(s.drop_first());
    }
}

/// Writing the emoji font cache and reading it back gives the same paths,
/// for non-empty paths without surrounding white space or line breaks.
pub proof fn lemma_emoji_cache_roundtrip(paths: Seq<Seq<char>>)
    requires
        forall|i: int| 0 <= i < paths.len() ==> #[trigger] trim(paths[i]) == paths[i] && paths[i].len() > 0,
        forall|i: int, k: int| 0 <= i < paths.len() && 0 <= k < paths[i].len() ==> paths[i][k] != '\n',
    ensures
        parse_emoji_cache(joined_lines(seq![emoji_cache_header()] + paths)) == Some(paths),
{
    reveal_strlit("emoji_fonts_v1");
    let ls = seq![emoji_cache_header()] + paths;
    assert forall|i: int, k: int| 0 <= i < ls.len() && 0 <= k < ls[i].len() implies ls[i][k] != '\n' by {
        if i > 0 {
            assert(ls[i] == paths[i - 1]);
        }
    }
    lemma_lines_of_joined(ls);
    let mapped = ls.map_values(|l: Seq<char>| strip_cr(l));
    assert forall|i: int| 0 <= i < paths.len() implies #[trigger] strip_cr(paths[i]) == paths[i] by {
        lemma_trimmed_not_cr(paths[i]);
    }
    assert(mapped.drop_first() =~= paths);
    assert(mapped[0] == emoji_cache_header());
    lemma_listed_paths_of_trimmed(paths);
}

} // verus!
