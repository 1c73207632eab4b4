//! The text formats of the caches of measured font metrics. The font metrics
//! cache holds one tab-separated line per family, size and DPI:
//! `family size dpi cell_width cell_height baseline font_path`. The cell
//! width cache holds `path size dpi signature width` lines, the signature
//! fingerprinting the font file. The size is the caller's, already written
//! with two decimals; reading and writing the files is the caller's too.
use crate::color::trim_end;
use crate::font::FontBootstrapMetrics;
use crate::font_cache::{
    index_of, joined_lines, lemma_index_of, lemma_index_of_bounds, lemma_joined_push,
    lemma_lines_have_no_newline, lemma_lines_of_joined, lines_of, prefix_is, split_lines,
    strip_cr,
};
use crate::input::{decimal, push_decimal};
use crate::numerals::{
    is_digit, lemma_decimal_digits, lemma_parse_decimal, parse_usize, parse_usize_str,
    push_decimal_usize,
};
use crate::text::{chars_of, is_white_space, push_char, string_of_chars, white_space};
use vstd::prelude::*;
use vstd::string::StringExecFns;

verus! {

/// The tab-separated fields of a line, as `str::split('\t')` yields them.
pub open spec fn tab_fields(s: Seq<char>) -> Seq<Seq<char>>
    decreases s.len(),
{
    let i = index_of(s, '\t');
    if i >= s.len() {
        seq![s]
    } else {
        proof {
            lemma_index_of_bounds(s, '\t');
        }
        seq![s.subrange(0, i)] + tab_fields(s.subrange(i + 1, s.len() as int))
    }
}

/// Splits a line into its tab-separated fields.
fn split_fields(line: &str) -> (out: Vec<String>)
    ensures
        out@.map_values(|f: String| f@) == tab_fields(line@),
{
    let v = chars_of(line);
    let n = v.len();
    let mut out: Vec<String> = Vec::new();
    let mut start: usize = 0;
    let mut i: usize = 0;
    assert(v@.subrange(0, n as int) =~= v@);
    while i < n
        invariant
            start <= i <= n == v@.len(),
            v@ == line@,
            tab_fields(v@) == out@.map_values(|f: String| f@) + tab_fields(
                v@.subrange(start as int, n as int),
            ),
            forall|k: int| start <= k < i ==> v@[k] != '\t',
        decreases n - i,
    {
        if v[i] == '\t' {
            let ghost rest = v@.subrange(start as int, n as int);
            proof {
                lemma_index_of(rest, '\t', i - start);
                assert(rest.subrange(0, i - start) =~= v@.subrange(start as int, i as int));
                assert(rest.subrange(i - start + 1, rest.len() as int) =~= v@.subrange(
                    i + 1,
                    n as int,
                ));
            }
            let field = string_of_chars(&v, start, i);
            let ghost before = out@;
            out.push(field);
            proof {
                assert(out@.map_values(|f: String| f@) =~= before.map_values(|f: String| f@).push(
                    field@,
                ));
                assert(tab_fields(v@) =~= out@.map_values(|f: String| f@) + tab_fields(
                    v@.subrange(i + 1, n as int),
                ));
            }
            start = i + 1;
        }
        i = i + 1;
    }
    let ghost rest = v@.subrange(start as int, n as int);
    proof {
        lemma_index_of(rest, '\t', rest.len() as int);
    }
    let field = string_of_chars(&v, start, n);
    let ghost before = out@;
    out.push(field);
    assert(out@.map_values(|f: String| f@) =~= before.map_values(|f: String| f@).push(field@));
    assert(tab_fields(v@) =~= out@.map_values(|f: String| f@));
    out
}

/// `n`, or one when it is zero.
pub open spec fn at_least_one(n: usize) -> usize {
    if n == 0 {
        1
    } else {
        n
    }
}

/// The metrics a font metrics cache line holds for a family, size and DPI:
/// cell width and height (each at least one), baseline and font path. A line
/// with fewer fields, another key, or a number that does not parse holds none.
pub open spec fn metrics_in_line(l: Seq<char>, family: Seq<char>, size_key: Seq<char>, dpi_key: Seq<char>) -> Option<
    (usize, usize, usize, Seq<char>),
> {
    let f = tab_fields(l);
    if f.len() >= 7 && f[0] == family && f[1] == size_key && f[2] == dpi_key {
        match (parse_usize(f[3]), parse_usize(f[4]), parse_usize(f[5])) {
            (Some(w), Some(h), Some(b)) => Some((at_least_one(w), at_least_one(h), b, f[6])),
            _ => None,
        }
    } else {
        None
    }
}

/// The metrics of the first line that holds some for the key.
pub open spec fn metrics_lookup(ls: Seq<Seq<char>>, family: Seq<char>, size_key: Seq<char>, dpi_key: Seq<char>) -> Option<
    (usize, usize, usize, Seq<char>),
>
    decreases ls.len(),
{
    if ls.len() == 0 {
        None
    } else {
        match metrics_in_line(ls[0], family, size_key, dpi_key) {
            Some(m) => Some(m),
            None => metrics_lookup(ls.drop_first(), family, size_key, dpi_key),
        }
    }
}

/// The metrics cached for `family` at a size (written with two decimals) and
/// DPI, read from the contents of the font metrics cache.
pub fn cached_font_metrics(content: &str, family: &str, size_key: &str, dpi: u32) -> (r: Option<
    FontBootstrapMetrics,
>)
    ensures
        match r {
            Some(m) => metrics_lookup(lines_of(content@), family@, size_key@, decimal(dpi as nat))
                == Some((m.cell_width, m.cell_height, m.baseline, m.font_path@)),
            None => metrics_lookup(lines_of(content@), family@, size_key@, decimal(dpi as nat)) is None,
        },
{
    let lines = split_lines(content);
    let ghost ls = lines@.map_values(|l: String| l@);
    let fam = family.to_owned();
    let size = size_key.to_owned();
    let mut dpi_key = String::new();
    push_decimal(&mut dpi_key, dpi);
    assert(dpi_key@ =~= decimal(dpi as nat));
    let ghost dk = decimal(dpi as nat);
    let mut i: usize = 0;
    assert(ls.subrange(0, ls.len() as int) =~= ls);
    while i < lines.len()
        invariant
            i <= lines@.len(),
            ls == lines@.map_values(|l: String| l@),
            ls == lines_of(content@),
            fam@ == family@,
            size@ == size_key@,
            dpi_key@ == dk,
            dk == decimal(dpi as nat),
            metrics_lookup(ls, family@, size_key@, dk) == metrics_lookup(
                ls.subrange(i as int, ls.len() as int),
                family@,
                size_key@,
                dk,
            ),
        decreases lines@.len() - i,
    {
        let ghost rest = ls.subrange(i as int, ls.len() as int);
        assert(rest.drop_first() =~= ls.subrange(i + 1, ls.len() as int));
        assert(rest[0] == lines@[i as int]@);
        let fields = split_fields(lines[i].as_str());
        let ghost f = fields@.map_values(|x: String| x@);
        assert(f == tab_fields(rest[0]));
        if fields.len() >= 7 && fields[0] == fam && fields[1] == size && fields[2] == dpi_key {
            assert(f[0] == fields@[0]@ && f[1] == fields@[1]@ && f[2] == fields@[2]@);
            assert(f[3] == fields@[3]@ && f[4] == fields@[4]@ && f[5] == fields@[5]@ && f[6] == fields@[6]@);
            let w = parse_usize_str(fields[3].as_str());
            let h = parse_usize_str(fields[4].as_str());
            let b = parse_usize_str(fields[5].as_str());
            match (w, h, b) {
                (Some(w), Some(h), Some(b)) => {
                    return Some(
                        FontBootstrapMetrics {
                            font_path: fields[6].clone(),
                            cell_width: if w == 0 {
                                1
                            } else {
                                w
                            },
                            cell_height: if h == 0 {
                                1
                            } else {
                                h
                            },
                            baseline: b,
                        },
                    );
                },
                _ => {},
            }
        } else {
            proof {
                if f.len() >= 7 {
                    assert(f[0] == fields@[0]@ && f[1] == fields@[1]@ && f[2] == fields@[2]@);
                }
            }
        }
        i = i + 1;
    }
    None
}

/// Whether a font metrics cache line is for a family, size and DPI.
pub open spec fn same_metrics_key(l: Seq<char>, family: Seq<char>, size_key: Seq<char>, dpi_key: Seq<char>) -> bool {
    let f = tab_fields(l);
    f.len() >= 3 && f[0] == family && f[1] == size_key && f[2] == dpi_key
}

/// The lines that are not for a family, size and DPI.
pub open spec fn lines_without_metrics(
    ls: Seq<Seq<char>>,
    family: Seq<char>,
    size_key: Seq<char>,
    dpi_key: Seq<char>,
) -> Seq<Seq<char>>
    decreases ls.len(),
{
    if ls.len() == 0 {
        seq![]
    } else {
        let kept = lines_without_metrics(ls.drop_last(), family, size_key, dpi_key);
        if same_metrics_key(ls.last(), family, size_key, dpi_key) {
            kept
        } else {
            kept.push(ls.last())
        }
    }
}

/// The line caching metrics: the fields joined by tabs, trailing white space
/// dropped.
pub open spec fn metrics_entry_line(
    family: Seq<char>,
    size_key: Seq<char>,
    dpi_key: Seq<char>,
    cell_width: usize,
    cell_height: usize,
    baseline: usize,
    font_path: Seq<char>,
) -> Seq<char> {
    trim_end(
        family + seq!['\t'] + size_key + seq!['\t'] + dpi_key + seq!['\t'] + decimal(
            cell_width as nat,
        ) + seq!['\t'] + decimal(cell_height as nat) + seq!['\t'] + decimal(baseline as nat) + seq![
            '\t',
        ] + font_path + seq!['\n'],
    )
}

/// The cache contents after caching metrics: the lines for other keys as
/// they were, then the new line, each line ended by a newline.
pub open spec fn font_metrics_cache_text(
    existing: Seq<char>,
    family: Seq<char>,
    size_key: Seq<char>,
    dpi: u32,
    cell_width: usize,
    cell_height: usize,
    baseline: usize,
    font_path: Seq<char>,
) -> Seq<char> {
    let dk = decimal(dpi as nat);
    joined_lines(
        lines_without_metrics(lines_of(existing), family, size_key, dk).push(
            metrics_entry_line(family, size_key, dk, cell_width, cell_height, baseline, font_path),
        ),
    )
}

/// A string without its trailing white space.
fn without_trailing_white_space(s: &String) -> (r: String)
    ensures
        r@ == trim_end(s@),
{
    let v = chars_of(s.as_str());
    let mut j: usize = v.len();
    assert(v@.subrange(0, j as int) =~= v@);
    while j > 0 && white_space(v[j - 1])
        invariant
            j <= v@.len(),
            v@ == s@,
            trim_end(s@) == trim_end(v@.subrange(0, j as int)),
        decreases j,
    {
        let ghost cur = v@.subrange(0, j as int);
        assert(cur.drop_last() =~= v@.subrange(0, j - 1));
        j = j - 1;
    }
    let r = string_of_chars(&v, 0, j);
    proof {
        if j > 0 {
            assert(v@.subrange(0, j as int).last() == v@[j - 1]);
        }
    }
    r
}

/// The contents of the font metrics cache after caching `metrics` for
/// `family` at a size (written with two decimals) and DPI.
pub fn font_metrics_cache_content(
    existing: &str,
    family: &str,
    size_key: &str,
    dpi: u32,
    metrics: &FontBootstrapMetrics,
) -> (r: String)
    ensures
        r@ == font_metrics_cache_text(
            existing@,
            family@,
            size_key@,
            dpi,
            metrics.cell_width,
            metrics.cell_height,
            metrics.baseline,
            metrics.font_path@,
        ),
{
    let lines = split_lines(existing);
    let ghost ls = lines@.map_values(|l: String| l@);
    let fam = family.to_owned();
    let size = size_key.to_owned();
    let mut dpi_key = String::new();
    push_decimal(&mut dpi_key, dpi);
    assert(dpi_key@ =~= decimal(dpi as nat));
    let ghost dk = decimal(dpi as nat);
    let mut out = String::new();
    let mut i: usize = 0;
    while i < lines.len()
        invariant
            i <= lines@.len(),
            ls == lines@.map_values(|l: String| l@),
            ls == lines_of(existing@),
            fam@ == family@,
            size@ == size_key@,
            dpi_key@ == dk,
            out@ == joined_lines(lines_without_metrics(ls.subrange(0, i as int), family@, size_key@, dk)),
        decreases lines@.len() - i,
    {
        let ghost prefix = ls.subrange(0, i as int);
        assert(ls.subrange(0, i + 1).drop_last() =~= prefix);
        assert(ls.subrange(0, i + 1).last() == lines@[i as int]@);
        let fields = split_fields(lines[i].as_str());
        let ghost f = fields@.map_values(|x: String| x@);
        let same = fields.len() >= 3 && fields[0] == fam && fields[1] == size && fields[2]
            == dpi_key;
        proof {
            if f.len() >= 3 {
                assert(f[0] == fields@[0]@ && f[1] == fields@[1]@ && f[2] == fields@[2]@);
            }
            assert(same == same_metrics_key(lines@[i as int]@, family@, size_key@, dk));
        }
        if !same {
            proof {
                lemma_joined_push(
                    lines_without_metrics(prefix, family@, size_key@, dk),
                    lines@[i as int]@,
                );
            }
            out.append(lines[i].as_str());
            push_char(&mut out, '\n');
        }
        i = i + 1;
    }
    assert(ls.subrange(0, ls.len() as int) =~= ls);
    let ghost kept = lines_without_metrics(ls, family@, size_key@, dk);
    let mut entry = String::new();
    entry.append(family);
    push_char(&mut entry, '\t');
    entry.append(size_key);
    push_char(&mut entry, '\t');
    entry.append(dpi_key.as_str());
    push_char(&mut entry, '\t');
    push_decimal_usize(&mut entry, metrics.cell_width);
    push_char(&mut entry, '\t');
    push_decimal_usize(&mut entry, metrics.cell_height);
    push_char(&mut entry, '\t');
    push_decimal_usize(&mut entry, metrics.baseline);
    push_char(&mut entry, '\t');
    entry.append(metrics.font_path.as_str());
    push_char(&mut entry, '\n');
    let line = without_trailing_white_space(&entry);
    assert(entry@ =~= family@ + seq!['\t'] + size_key@ + seq!['\t'] + dk + seq!['\t'] + decimal(
        metrics.cell_width as nat,
    ) + seq!['\t'] + decimal(metrics.cell_height as nat) + seq!['\t'] + decimal(
        metrics.baseline as nat,
    ) + seq!['\t'] + metrics.font_path@ + seq!['\n']);
    proof {
        lemma_joined_push(kept, line@);
    }
    out.append(line.as_str());
    push_char(&mut out, '\n');
    out
}

/// The position of the last tab of a line, or -1 when it has none.
pub open spec fn last_tab(s: Seq<char>) -> int
    decreases s.len(),
{
    if s.len() == 0 {
        -1
    } else if s.last() == '\t' {
        s.len() - 1
    } else {
        last_tab(s.drop_last())
    }
}

proof fn lemma_last_tab_bounds(s: Seq<char>)
    ensures
        -1 <= last_tab(s) < s.len(),
        last_tab(s) >= 0 ==> s[last_tab(s)] == '\t',
        forall|k: int| last_tab(s) < k < s.len() ==> s[k] != '\t',
    decreases s.len(),
{
    if s.len() > 0 && s.last() != '\t' {
        lemma_last_tab_bounds(s.drop_last());
        assert forall|k: int| last_tab(s) < k < s.len() implies s[k] != '\t' by {
            if k < s.len() - 1 {
                assert(s[k] == s.drop_last()[k]);
            }
        }
    }
}

proof fn lemma_last_tab_at(s: Seq<char>, i: int)
    requires
        -1 <= i < s.len(),
        i >= 0 ==> s[i] == '\t',
        forall|k: int| i < k < s.len() ==> s[k] != '\t',
    ensures
        last_tab(s) == i,
    decreases s.len(),
{
    if s.len() > 0 && i < s.len() - 1 {
        let front = s.drop_last();
        assert forall|k: int| i < k < front.len() implies front[k] != '\t' by {
            assert(front[k] == s[k]);
        }
        lemma_last_tab_at(front, i);
    }
}

/// What precedes the last tab of a cell width cache line: its key (the whole
/// line when it has no tab).
pub open spec fn entry_key(l: Seq<char>) -> Seq<char> {
    let i = last_tab(l);
    if i >= 0 {
        l.subrange(0, i)
    } else {
        l
    }
}

/// The width a cell width cache line holds for `key`: what follows its last
/// tab, read as a number and made at least one.
pub open spec fn width_in_line(l: Seq<char>, key: Seq<char>) -> Option<usize> {
    let i = last_tab(l);
    if i >= 0 && l.subrange(0, i) == key {
        match parse_usize(l.subrange(i + 1, l.len() as int)) {
            Some(w) => Some(at_least_one(w)),
            None => None,
        }
    } else {
        None
    }
}

/// The width of the first line that holds one for `key`.
pub open spec fn width_lookup(ls: Seq<Seq<char>>, key: Seq<char>) -> Option<usize>
    decreases ls.len(),
{
    if ls.len() == 0 {
        None
    } else {
        match width_in_line(ls[0], key) {
            Some(w) => Some(w),
            None => width_lookup(ls.drop_first(), key),
        }
    }
}

/// The fields of a cell width cache key before the font file signature.
pub open spec fn width_key_prefix(path: Seq<char>, size_key: Seq<char>, dpi: u32) -> Seq<char> {
    path + seq!['\t'] + size_key + seq!['\t'] + decimal(dpi as nat) + seq!['\t']
}

/// The key of a cell width measurement: font path, size, DPI and signature.
pub open spec fn width_key(path: Seq<char>, size_key: Seq<char>, dpi: u32, signature: Seq<char>) -> Seq<char> {
    width_key_prefix(path, size_key, dpi) + signature
}

/// The key identifying one cell width measurement of a font file at a size
/// (written with two decimals) and DPI; the signature tells the file's
/// versions apart.
pub fn cell_width_cache_key(path: &str, size_key: &str, dpi: u32, signature: &str) -> (r: String)
    ensures
        r@ == width_key(path@, size_key@, dpi, signature@),
{
    let mut key = String::from_str(path);
    push_char(&mut key, '\t');
    key.append(size_key);
    push_char(&mut key, '\t');
    push_decimal(&mut key, dpi);
    push_char(&mut key, '\t');
    key.append(signature);
    assert(key@ =~= width_key(path@, size_key@, dpi, signature@));
    key
}

/// The position of the last tab, computed.
fn last_tab_of(v: &Vec<char>) -> (r: Option<usize>)
    ensures
        match r {
            Some(i) => i < v@.len() && last_tab(v@) == i,
            None => last_tab(v@) == -1,
        },
{
    let mut j: usize = v.len();
    while j > 0
        invariant
            j <= v@.len(),
            forall|k: int| j <= k < v@.len() ==> v@[k] != '\t',
        decreases j,
    {
        if v[j - 1] == '\t' {
            proof {
                lemma_last_tab_at(v@, j - 1);
            }
            return Some(j - 1);
        }
        j = j - 1;
    }
    proof {
        lemma_last_tab_at(v@, -1);
    }
    None
}

/// The cell width cached under `key` in the contents of the cell width cache.
pub fn cached_cell_width(content: &str, key: &str) -> (r: Option<usize>)
    ensures
        r == width_lookup(lines_of(content@), key@),
{
    let lines = split_lines(content);
    let ghost ls = lines@.map_values(|l: String| l@);
    let k = chars_of(key);
    let mut i: usize = 0;
    assert(ls.subrange(0, ls.len() as int) =~= ls);
    while i < lines.len()
        invariant
            i <= lines@.len(),
            ls == lines@.map_values(|l: String| l@),
            ls == lines_of(content@),
            k@ == key@,
            width_lookup(ls, key@) == width_lookup(ls.subrange(i as int, ls.len() as int), key@),
        decreases lines@.len() - i,
    {
        let ghost rest = ls.subrange(i as int, ls.len() as int);
        assert(rest.drop_first() =~= ls.subrange(i + 1, ls.len() as int));
        let v = chars_of(lines[i].as_str());
        assert(v@ == rest[0]);
        let n = v.len();
        match last_tab_of(&v) {
            Some(t) => {
                assert(t < n);
                if prefix_is(&v, t, &k) {
                    let value = string_of_chars(&v, t + 1, v.len());
                    match parse_usize_str(value.as_str()) {
                        Some(w) => {
                            return Some(
                                if w == 0 {
                                    1
                                } else {
                                    w
                                },
                            );
                        },
                        None => {},
                    }
                }
            },
            None => {},
        }
        i = i + 1;
    }
    None
}

/// Whether a cell width cache line is kept when caching under `key`: its key
/// is neither `key` nor one of the same font path, size and DPI (an older
/// signature of the file).
pub open spec fn keeps_width_line(l: Seq<char>, key: Seq<char>, prefix: Seq<char>) -> bool {
    let e = entry_key(l);
    e != key && !(prefix.len() <= e.len() && e.subrange(0, prefix.len() as int) == prefix)
}

/// The lines that are kept when caching under `key`.
pub open spec fn kept_width_lines(ls: Seq<Seq<char>>, key: Seq<char>, prefix: Seq<char>) -> Seq<
    Seq<char>,
>
    decreases ls.len(),
{
    if ls.len() == 0 {
        seq![]
    } else {
        let kept = kept_width_lines(ls.drop_last(), key, prefix);
        if keeps_width_line(ls.last(), key, prefix) {
            kept.push(ls.last())
        } else {
            kept
        }
    }
}

/// The cache contents after caching `width`: the kept lines as they were,
/// then the key and the width, each line ended by a newline.
pub open spec fn cell_width_cache_text(
    existing: Seq<char>,
    path: Seq<char>,
    size_key: Seq<char>,
    dpi: u32,
    signature: Seq<char>,
    width: usize,
) -> Seq<char> {
    let key = width_key(path, size_key, dpi, signature);
    joined_lines(
        kept_width_lines(lines_of(existing), key, width_key_prefix(path, size_key, dpi)).push(
            key + seq!['\t'] + decimal(width as nat),
        ),
    )
}

/// The contents of the cell width cache after caching the width measured for
/// a font file at a size (written with two decimals) and DPI; entries for
/// older signatures of the same file, size and DPI are dropped.
pub fn cell_width_cache_content(
    existing: &str,
    path: &str,
    size_key: &str,
    dpi: u32,
    signature: &str,
    width: usize,
) -> (r: String)
    ensures
        r@ == cell_width_cache_text(existing@, path@, size_key@, dpi, signature@, width),
{
    let key = cell_width_cache_key(path, size_key, dpi, signature);
    let mut prefix = String::from_str(path);
    push_char(&mut prefix, '\t');
    prefix.append(size_key);
    push_char(&mut prefix, '\t');
    push_decimal(&mut prefix, dpi);
    push_char(&mut prefix, '\t');
    assert(prefix@ =~= width_key_prefix(path@, size_key@, dpi));
    let kv = chars_of(key.as_str());
    let pv = chars_of(prefix.as_str());
    let lines = split_lines(existing);
    let ghost ls = lines@.map_values(|l: String| l@);
    let mut out = String::new();
    let mut i: usize = 0;
    while i < lines.len()
        invariant
            i <= lines@.len(),
            ls == lines@.map_values(|l: String| l@),
            ls == lines_of(existing@),
            kv@ == width_key(path@, size_key@, dpi, signature@),
            pv@ == width_key_prefix(path@, size_key@, dpi),
            out@ == joined_lines(kept_width_lines(ls.subrange(0, i as int), kv@, pv@)),
        decreases lines@.len() - i,
    {
        let ghost prefix_lines = ls.subrange(0, i as int);
        assert(ls.subrange(0, i + 1).drop_last() =~= prefix_lines);
        assert(ls.subrange(0, i + 1).last() == lines@[i as int]@);
        let v = chars_of(lines[i].as_str());
        let key_len = match last_tab_of(&v) {
            Some(t) => t,
            None => v.len(),
        };
        assert(v@.subrange(0, key_len as int) == entry_key(v@)) by {
            if last_tab(v@) < 0 {
                assert(v@.subrange(0, key_len as int) =~= v@);
            }
        }
        let is_key = prefix_is(&v, key_len, &kv);
        let is_stale = pv.len() <= key_len && prefix_is(&v, pv.len(), &pv);
        proof {
            if pv@.len() <= key_len {
                assert(entry_key(v@).subrange(0, pv@.len() as int) =~= v@.subrange(
                    0,
                    pv@.len() as int,
                ));
            }
        }
        if !is_key && !is_stale {
            proof {
                lemma_joined_push(kept_width_lines(prefix_lines, kv@, pv@), lines@[i as int]@);
            }
            out.append(lines[i].as_str());
            push_char(&mut out, '\n');
        }
        i = i + 1;
    }
    assert(ls.subrange(0, ls.len() as int) =~= ls);
    let mut line = key.clone();
    push_char(&mut line, '\t');
    push_decimal_usize(&mut line, width);
    assert(line@ =~= width_key(path@, size_key@, dpi, signature@) + seq!['\t'] + decimal(width as nat));
    proof {
        lemma_joined_push(kept_width_lines(ls, kv@, pv@), line@);
    }
    out.append(line.as_str());
    push_char(&mut out, '\n');
    out
}

proof fn lemma_tab_fields_cons(a: Seq<char>, r: Seq<char>)
    requires
        forall|k: int| 0 <= k < a.len() ==> a[k] != '\t',
    ensures
        tab_fields(a + seq!['\t'] + r) == seq![a] + tab_fields(r),
{
    let s = a + seq!['\t'] + r;
    lemma_index_of(s, '\t', a.len() as int);
    assert(s.subrange(0, a.len() as int) =~= a);
    assert(s.subrange(a.len() as int + 1, s.len() as int) =~= r);
}

proof fn lemma_tab_fields_single(a: Seq<char>)
    requires
        forall|k: int| 0 <= k < a.len() ==> a[k] != '\t',
    ensures
        tab_fields(a) == seq![a],
{
    lemma_index_of(a, '\t', a.len() as int);
}

/// Dropping a last character that is not a tab changes only the last field.
proof fn lemma_tab_fields_drop_last(s: Seq<char>)
    requires
        s.len() > 0,
        s.last() != '\t',
    ensures
        tab_fields(s.drop_last()).len() == tab_fields(s).len(),
        forall|i: int| 0 <= i < tab_fields(s).len() - 1 ==> tab_fields(s.drop_last())[i] == tab_fields(s)[i],
    decreases s.len(),
{
    let t = s.drop_last();
    let i = index_of(s, '\t');
    lemma_index_of_bounds(s, '\t');
    if i >= s.len() {
        assert forall|k: int| 0 <= k < t.len() implies t[k] != '\t' by {
            assert(t[k] == s[k]);
        }
        lemma_index_of(t, '\t', t.len() as int);
    } else {
        assert(i < t.len());
        assert forall|k: int| 0 <= k < i implies t[k] != '\t' by {
            assert(t[k] == s[k]);
        }
        lemma_index_of(t, '\t', i);
        let r = s.subrange(i + 1, s.len() as int);
        assert(t.subrange(i + 1, t.len() as int) =~= r.drop_last());
        assert(t.subrange(0, i) =~= s.subrange(0, i));
        assert(r.last() == s.last());
        lemma_tab_fields_drop_last(r);
    }
}

/// The lines kept when caching metrics have no line breaks and are for
/// another key.
proof fn lemma_lines_without_metrics_props(
    ls: Seq<Seq<char>>,
    family: Seq<char>,
    size_key: Seq<char>,
    dpi_key: Seq<char>,
)
    requires
        forall|i: int, k: int| 0 <= i < ls.len() && 0 <= k < ls[i].len() ==> ls[i][k] != '\n',
    ensures
        forall|i: int|
            0 <= i < lines_without_metrics(ls, family, size_key, dpi_key).len() ==> !same_metrics_key(
                #[trigger] lines_without_metrics(ls, family, size_key, dpi_key)[i],
                family,
                size_key,
                dpi_key,
            ),
        forall|i: int, k: int|
            0 <= i < lines_without_metrics(ls, family, size_key, dpi_key).len() && 0 <= k
                < lines_without_metrics(ls, family, size_key, dpi_key)[i].len()
                ==> lines_without_metrics(ls, family, size_key, dpi_key)[i][k] != '\n',
    decreases ls.len(),
{
    if ls.len() > 0 {
        let front = ls.drop_last();
        assert forall|i: int, k: int| 0 <= i < front.len() && 0 <= k < front[i].len() implies front[i][k]
            != '\n' by {
            assert(front[i] == ls[i]);
        }
        lemma_lines_without_metrics_props(front, family, size_key, dpi_key);
        assert forall|k: int| 0 <= k < ls.last().len() implies ls.last()[k] != '\n' by {
            assert(ls.last() == ls[ls.len() - 1]);
        }
        let kept = lines_without_metrics(front, family, size_key, dpi_key);
        let res = lines_without_metrics(ls, family, size_key, dpi_key);
        if !same_metrics_key(ls.last(), family, size_key, dpi_key) {
            assert(res == kept.push(ls.last()));
            assert forall|i: int| 0 <= i < res.len() implies !same_metrics_key(
                #[trigger] res[i],
                family,
                size_key,
                dpi_key,
            ) by {
                if i < kept.len() {
                    assert(res[i] == kept[i]);
                }
            }
            assert forall|i: int, k: int| 0 <= i < res.len() && 0 <= k < res[i].len() implies res[i][k]
                != '\n' by {
                if i < kept.len() {
                    assert(res[i] == kept[i]);
                }
            }
        }
    }
}

/// A line for another key holds no metrics for the key, also once a final
/// carriage return is dropped from it.
proof fn lemma_other_key_strip_cr(l: Seq<char>, family: Seq<char>, size_key: Seq<char>, dpi_key: Seq<char>)
    requires
        !same_metrics_key(l, family, size_key, dpi_key),
    ensures
        metrics_in_line(strip_cr(l), family, size_key, dpi_key) is None,
{
    if l.len() > 0 && l.last() == '\r' {
        lemma_tab_fields_drop_last(l);
    }
}

proof fn lemma_metrics_lookup_skips(
    a: Seq<Seq<char>>,
    b: Seq<Seq<char>>,
    family: Seq<char>,
    size_key: Seq<char>,
    dpi_key: Seq<char>,
)
    requires
        forall|i: int| 0 <= i < a.len() ==> metrics_in_line(#[trigger] a[i], family, size_key, dpi_key) is None,
    ensures
        metrics_lookup(a + b, family, size_key, dpi_key) == metrics_lookup(b, family, size_key, dpi_key),
    decreases a.len(),
{
    if a.len() > 0 {
        assert((a + b).drop_first() =~= a.drop_first() + b);
        assert((a + b)[0] == a[0]);
        lemma_metrics_lookup_skips(a.drop_first(), b, family, size_key, dpi_key);
    } else {
        assert(a + b =~= b);
    }
}

/// Whether `s` holds no `c`.
pub open spec fn free_of(s: Seq<char>, c: char) -> bool {
    forall|k: int| 0 <= k < s.len() ==> s[k] != c
}

proof fn lemma_free_of_concat(a: Seq<char>, b: Seq<char>, c: char)
    requires
        free_of(a, c),
        free_of(b, c),
    ensures
        free_of(a + b, c),
{
    assert forall|k: int| 0 <= k < (a + b).len() implies (a + b)[k] != c by {
        if k < a.len() {
            assert((a + b)[k] == a[k]);
        } else {
            assert((a + b)[k] == b[k - a.len()]);
        }
    }
}

proof fn lemma_decimal_free(n: nat)
    ensures
        free_of(decimal(n), '\t'),
        free_of(decimal(n), '\n'),
        free_of(decimal(n), '\r'),
        decimal(n).len() > 0,
        decimal(n).last() != '\r',
{
    lemma_decimal_digits(n);
    assert(is_digit(decimal(n)[decimal(n).len() - 1]));
}

/// The line caching metrics, when its parts hold no tabs or line breaks and
/// the path ends in a character other than white space: the fields joined
/// by tabs, holding the metrics.
proof fn lemma_metrics_entry(
    family: Seq<char>,
    size_key: Seq<char>,
    dpi: u32,
    cell_width: usize,
    cell_height: usize,
    baseline: usize,
    font_path: Seq<char>,
)
    requires
        free_of(family, '\t') && free_of(family, '\n'),
        free_of(size_key, '\t') && free_of(size_key, '\n'),
        free_of(font_path, '\t') && free_of(font_path, '\n'),
        font_path.len() > 0,
        !is_white_space(font_path.last()),
    ensures
        ({
            let e = metrics_entry_line(
                family,
                size_key,
                decimal(dpi as nat),
                cell_width,
                cell_height,
                baseline,
                font_path,
            );
            &&& free_of(e, '\n')
            &&& strip_cr(e) == e
            &&& metrics_in_line(e, family, size_key, decimal(dpi as nat)) == Some(
                (at_least_one(cell_width), at_least_one(cell_height), baseline, font_path),
            )
        }),
{
    let dk = decimal(dpi as nat);
    let wd = decimal(cell_width as nat);
    let hd = decimal(cell_height as nat);
    let bd = decimal(baseline as nat);
    lemma_decimal_free(dpi as nat);
    lemma_decimal_free(cell_width as nat);
    lemma_decimal_free(cell_height as nat);
    lemma_decimal_free(baseline as nat);
    lemma_parse_decimal(cell_width);
    lemma_parse_decimal(cell_height);
    lemma_parse_decimal(baseline);
    let tab = seq!['\t'];
    let p6 = font_path;
    let p5 = bd + tab + p6;
    let p4 = hd + tab + p5;
    let p3 = wd + tab + p4;
    let p2 = dk + tab + p3;
    let p1 = size_key + tab + p2;
    let e = family + tab + p1;
    let raw = family + tab + size_key + tab + dk + tab + wd + tab + hd + tab + bd + tab + font_path
        + seq!['\n'];
    assert(raw.drop_last() =~= e);
    assert(e.last() == font_path.last());
    assert(trim_end(raw) == trim_end(e));
    assert(trim_end(e) == e);
    assert(metrics_entry_line(family, size_key, dk, cell_width, cell_height, baseline, font_path)
        == e);
    assert(free_of(tab, '\n'));
    lemma_free_of_concat(bd, tab, '\n');
    lemma_free_of_concat(bd + tab, p6, '\n');
    lemma_free_of_concat(hd, tab, '\n');
    lemma_free_of_concat(hd + tab, p5, '\n');
    lemma_free_of_concat(wd, tab, '\n');
    lemma_free_of_concat(wd + tab, p4, '\n');
    lemma_free_of_concat(dk, tab, '\n');
    lemma_free_of_concat(dk + tab, p3, '\n');
    lemma_free_of_concat(size_key, tab, '\n');
    lemma_free_of_concat(size_key + tab, p2, '\n');
    lemma_free_of_concat(family, tab, '\n');
    lemma_free_of_concat(family + tab, p1, '\n');
    assert(strip_cr(e) == e);
    lemma_tab_fields_single(p6);
    lemma_tab_fields_cons(bd, p6);
    lemma_tab_fields_cons(hd, p5);
    lemma_tab_fields_cons(wd, p4);
    lemma_tab_fields_cons(dk, p3);
    lemma_tab_fields_cons(size_key, p2);
    lemma_tab_fields_cons(family, p1);
    assert(tab_fields(e) =~= seq![family, size_key, dk, wd, hd, bd, font_path]);
}

/// Caching metrics and reading the cache back gives those metrics (cell
/// width and height made at least one), whatever the cache held before: for
/// a family and size without tabs or line breaks and a font path without
/// them that ends in a character other than white space.
pub proof fn lemma_font_metrics_cache_roundtrip(
    existing: Seq<char>,
    family: Seq<char>,
    size_key: Seq<char>,
    dpi: u32,
    cell_width: usize,
    cell_height: usize,
    baseline: usize,
    font_path: Seq<char>,
)
    requires
        forall|k: int| 0 <= k < family.len() ==> family[k] != '\t' && family[k] != '\n',
        forall|k: int| 0 <= k < size_key.len() ==> size_key[k] != '\t' && size_key[k] != '\n',
        forall|k: int| 0 <= k < font_path.len() ==> font_path[k] != '\t' && font_path[k] != '\n',
        font_path.len() > 0,
        !is_white_space(font_path.last()),
    ensures
        metrics_lookup(
            lines_of(
                font_metrics_cache_text(
                    existing,
                    family,
                    size_key,
                    dpi,
                    cell_width,
                    cell_height,
                    baseline,
                    font_path,
                ),
            ),
            family,
            size_key,
            decimal(dpi as nat),
        ) == Some((at_least_one(cell_width), at_least_one(cell_height), baseline, font_path)),
{
    let dk = decimal(dpi as nat);
    lemma_metrics_entry(family, size_key, dpi, cell_width, cell_height, baseline, font_path);
    let e = metrics_entry_line(family, size_key, dk, cell_width, cell_height, baseline, font_path);
    let kept = lines_without_metrics(lines_of(existing), family, size_key, dk);
    let ls = kept.push(e);
    lemma_lines_have_no_newline(existing);
    lemma_lines_without_metrics_props(lines_of(existing), family, size_key, dk);
    assert forall|i: int, k: int| 0 <= i < ls.len() && 0 <= k < ls[i].len() implies ls[i][k] != '\n' by {
        if i < kept.len() {
            assert(ls[i] == kept[i]);
        } else {
            assert(ls[i] == e);
        }
    }
    lemma_lines_of_joined(ls);
    let mapped = ls.map_values(|l: Seq<char>| strip_cr(l));
    let kept_mapped = kept.map_values(|l: Seq<char>| strip_cr(l));
    assert(mapped =~= kept_mapped + seq![e]);
    assert forall|i: int| 0 <= i < kept_mapped.len() implies metrics_in_line(
        #[trigger] kept_mapped[i],
        family,
        size_key,
        dk,
    ) is None by {
        lemma_other_key_strip_cr(kept[i], family, size_key, dk);
    }
    lemma_metrics_lookup_skips(kept_mapped, seq![e], family, size_key, dk);
    assert(seq![e].drop_first() =~= Seq::<Seq<char>>::empty());
}

/// The lines kept when caching a cell width have no line breaks and keys
/// other than the new one.
proof fn lemma_kept_width_lines_props(ls: Seq<Seq<char>>, key: Seq<char>, prefix: Seq<char>)
    requires
        forall|i: int, k: int| 0 <= i < ls.len() && 0 <= k < ls[i].len() ==> ls[i][k] != '\n',
    ensures
        forall|i: int|
            0 <= i < kept_width_lines(ls, key, prefix).len() ==> keeps_width_line(
                #[trigger] kept_width_lines(ls, key, prefix)[i],
                key,
                prefix,
            ),
        forall|i: int, k: int|
            0 <= i < kept_width_lines(ls, key, prefix).len() && 0 <= k < kept_width_lines(
                ls,
                key,
                prefix,
            )[i].len() ==> kept_width_lines(ls, key, prefix)[i][k] != '\n',
    decreases ls.len(),
{
    if ls.len() > 0 {
        let front = ls.drop_last();
        assert forall|i: int, k: int| 0 <= i < front.len() && 0 <= k < front[i].len() implies front[i][k]
            != '\n' by {
            assert(front[i] == ls[i]);
        }
        lemma_kept_width_lines_props(front, key, prefix);
        assert forall|k: int| 0 <= k < ls.last().len() implies ls.last()[k] != '\n' by {
            assert(ls.last() == ls[ls.len() - 1]);
        }
        let kept = kept_width_lines(front, key, prefix);
        let res = kept_width_lines(ls, key, prefix);
        if keeps_width_line(ls.last(), key, prefix) {
            assert(res == kept.push(ls.last()));
            assert forall|i: int| 0 <= i < res.len() implies keeps_width_line(
                #[trigger] res[i],
                key,
                prefix,
            ) by {
                if i < kept.len() {
                    assert(res[i] == kept[i]);
                }
            }
            assert forall|i: int, k: int| 0 <= i < res.len() && 0 <= k < res[i].len() implies res[i][k]
                != '\n' by {
                if i < kept.len() {
                    assert(res[i] == kept[i]);
                }
            }
        }
    }
}

/// A line whose key is not `key` holds no width for it, also once a final
/// carriage return is dropped from it.
proof fn lemma_other_width_key_strip_cr(l: Seq<char>, key: Seq<char>)
    requires
        entry_key(l) != key,
    ensures
        width_in_line(strip_cr(l), key) is None,
{
    if l.len() > 0 && l.last() == '\r' {
        let t = l.drop_last();
        assert(last_tab(l) == last_tab(t));
        lemma_last_tab_bounds(t);
        if last_tab(t) >= 0 {
            assert(t.subrange(0, last_tab(t)) =~= l.subrange(0, last_tab(l)));
        }
    }
}

proof fn lemma_width_lookup_skips(a: Seq<Seq<char>>, b: Seq<Seq<char>>, key: Seq<char>)
    requires
        forall|i: int| 0 <= i < a.len() ==> width_in_line(#[trigger] a[i], key) is None,
    ensures
        width_lookup(a + b, key) == width_lookup(b, key),
    decreases a.len(),
{
    if a.len() > 0 {
        assert((a + b).drop_first() =~= a.drop_first() + b);
        assert((a + b)[0] == a[0]);
        lemma_width_lookup_skips(a.drop_first(), b, key);
    } else {
        assert(a + b =~= b);
    }
}

/// Caching a cell width and reading the cache back under the same key gives
/// that width (made at least one), whatever the cache held before: for a
/// font path, size and signature without line breaks.
pub proof fn lemma_cell_width_cache_roundtrip(
    existing: Seq<char>,
    path: Seq<char>,
    size_key: Seq<char>,
    dpi: u32,
    signature: Seq<char>,
    width: usize,
)
    requires
        forall|k: int| 0 <= k < path.len() ==> path[k] != '\n',
        forall|k: int| 0 <= k < size_key.len() ==> size_key[k] != '\n',
        forall|k: int| 0 <= k < signature.len() ==> signature[k] != '\n',
    ensures
        width_lookup(
            lines_of(cell_width_cache_text(existing, path, size_key, dpi, signature, width)),
            width_key(path, size_key, dpi, signature),
        ) == Some(at_least_one(width)),
{
    let key = width_key(path, size_key, dpi, signature);
    let prefix = width_key_prefix(path, size_key, dpi);
    let wd = decimal(width as nat);
    let tab = seq!['\t'];
    let line = key + tab + wd;
    lemma_decimal_free(dpi as nat);
    lemma_decimal_free(width as nat);
    lemma_parse_decimal(width);
    // The key holds no line break, nor does the new line.
    assert(free_of(tab, '\n'));
    lemma_free_of_concat(path, tab, '\n');
    lemma_free_of_concat(path + tab, size_key, '\n');
    lemma_free_of_concat(path + tab + size_key, tab, '\n');
    lemma_free_of_concat(path + tab + size_key + tab, decimal(dpi as nat), '\n');
    lemma_free_of_concat(path + tab + size_key + tab + decimal(dpi as nat), tab, '\n');
    assert(prefix =~= path + tab + size_key + tab + decimal(dpi as nat) + tab);
    lemma_free_of_concat(prefix, signature, '\n');
    lemma_free_of_concat(key, tab, '\n');
    lemma_free_of_concat(key + tab, wd, '\n');
    // The new line reads as the key and the width.
    assert forall|k: int| key.len() < k < line.len() implies line[k] != '\t' by {
        assert(line[k] == wd[k - key.len() - 1]);
    }
    lemma_last_tab_at(line, key.len() as int);
    assert(line.subrange(0, key.len() as int) =~= key);
    assert(line.subrange(key.len() as int + 1, line.len() as int) =~= wd);
    assert(line.last() == wd.last());
    assert(strip_cr(line) == line);
    assert(width_in_line(line, key) == Some(at_least_one(width)));
    // The lines of the new contents.
    let kept = kept_width_lines(lines_of(existing), key, prefix);
    let ls = kept.push(line);
    lemma_lines_have_no_newline(existing);
    lemma_kept_width_lines_props(lines_of(existing), key, prefix);
    assert forall|i: int, k: int| 0 <= i < ls.len() && 0 <= k < ls[i].len() implies ls[i][k] != '\n' by {
        if i < kept.len() {
            assert(ls[i] == kept[i]);
        } else {
            assert(ls[i] == line);
        }
    }
    lemma_lines_of_joined(ls);
    let mapped = ls.map_values(|l: Seq<char>| strip_cr(l));
    let kept_mapped = kept.map_values(|l: Seq<char>| strip_cr(l));
    assert(mapped =~= kept_mapped + seq![line]);
    assert forall|i: int| 0 <= i < kept_mapped.len() implies width_in_line(
        #[trigger] kept_mapped[i],
        key,
    ) is None by {
        assert(keeps_width_line(kept[i], key, prefix));
        lemma_other_width_key_strip_cr(kept[i], key);
    }
    lemma_width_lookup_skips(kept_mapped, seq![line], key);
    assert(seq![line].drop_first() =~= Seq::<Seq<char>>::empty());
}

} // verus!
