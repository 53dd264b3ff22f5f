//! Document-level stylesheet lookup: the `css:` key of a document's YAML
//! front matter.
//!
//! Deliberately not a YAML parser. Only the outermost `key: value` lines of a
//! metadata block that opens on the very first line of the document, and that
//! pulldown-cmark takes as a YAML-style metadata block, are considered; a
//! `css:` nested under another key is ignored, as is anything after a `#`
//! comment, and surrounding single or double quotes are stripped.
use vstd::prelude::*;
use crate::paths::{
    home_dir, home_or_cwd, lemma_join_ends_with_rel, path_join, path_join_of, path_parent,
    path_parent_of,
};
use crate::text::{
    ascii_lower, lemma_ends_with_lower_concat, lemma_lower_concat, ends_with, lower,
    range_ends_with_lower, is_ws, lemma_trim_clean, starts_with, chars_of, find_char, find_char_in, lemma_find_char_facts, range_eq, range_starts_with,
    string_from_range, strip_prefix, trim, trim_end, trim_end_at, trim_start_at,
};

verus! {

// ---------------------------------------------------------------------------
// Specification
// ---------------------------------------------------------------------------

/// Drops one trailing carriage return.
pub open spec fn strip_cr(l: Seq<char>) -> Seq<char> {
    if l.len() > 0 && l.last() == '\r' {
        l.drop_last()
    } else {
        l
    }
}

/// `str::lines`: split at `\n`, drop a `\r` before each `\n`, and yield no
/// empty line after a final line ending.
pub open spec fn lines(s: Seq<char>) -> Seq<Seq<char>>
    decreases s.len(),
{
    if s.len() == 0 {
        seq![]
    } else {
        match find_char(s, '\n') {
            Some(i) => {
                proof {
                    lemma_find_char_facts(s, '\n');
                }
                seq![strip_cr(s.subrange(0, i))] + lines(s.subrange(i + 1, s.len() as int))
            },
            None => seq![s],
        }
    }
}

pub open spec fn fence() -> Seq<char> {
    seq!['-', '-', '-']
}

pub open spec fn end_marker() -> Seq<char> {
    seq!['.', '.', '.']
}

pub open spec fn css_key() -> Seq<char> {
    seq!['c', 's', 's', ':']
}

/// Spaces, then the end of the line (its end, or a carriage return).
pub open spec fn spaces_then_eol(s: Seq<char>) -> bool
    decreases s.len(),
{
    s.len() == 0 || s[0] == '\r' || (s[0] == ' ' && spaces_then_eol(s.drop_first()))
}

/// A line that closes the metadata block: exactly `---` or `...` at the
/// start of the line, then nothing but spaces (pulldown-cmark's rule).
pub open spec fn closes_block(line: Seq<char>) -> bool {
    &&& starts_with(line, fence()) || starts_with(line, end_marker())
    &&& spaces_then_eol(line.subrange(3, line.len() as int))
}

/// `u8::is_ascii_whitespace` on a character.
pub open spec fn is_ascii_ws(c: char) -> bool {
    c == ' ' || c == '\t' || c == '\n' || c == '\u{c}' || c == '\r'
}

/// Whitespace other than a line ending, as pulldown-cmark scans it.
pub open spec fn is_ws_no_nl(c: char) -> bool {
    c == ' ' || c == '\t' || c == '\u{b}' || c == '\u{c}'
}

/// A blank line, as pulldown-cmark scans it.
pub open spec fn blank_line(line: Seq<char>) -> bool
    decreases line.len(),
{
    line.len() == 0 || line[0] == '\r' || (is_ws_no_nl(line[0]) && blank_line(line.drop_first()))
}

/// Some line closes the block.
pub open spec fn has_closing(ls: Seq<Seq<char>>) -> bool
    decreases ls.len(),
{
    ls.len() > 0 && (closes_block(ls[0]) || has_closing(ls.drop_first()))
}

/// The lines after the opening `---` make a metadata block: its first line
/// is neither blank nor the closing line, and a later line closes it.
pub open spec fn metadata_lines(ls: Seq<Seq<char>>) -> bool {
    &&& ls.len() > 0
    &&& !closes_block(ls[0])
    &&& !blank_line(ls[0])
    &&& has_closing(ls.drop_first())
}

/// A line nested under some other key.
pub open spec fn is_indented(line: Seq<char>) -> bool {
    line.len() > 0 && (line[0] == ' ' || line[0] == '\t')
}

pub open spec fn is_quote(c: char) -> bool {
    c == '"' || c == '\''
}

/// Cuts a trailing `# comment` off an unquoted value.
pub open spec fn uncomment(v: Seq<char>) -> Seq<char> {
    if v.len() > 0 && is_quote(v[0]) {
        v
    } else {
        match find_char(v, '#') {
            Some(h) => trim_end(v.subrange(0, h)),
            None => v,
        }
    }
}

/// Strips one pair of matching surrounding quotes.
pub open spec fn unquote(v: Seq<char>) -> Seq<char> {
    if v.len() >= 2 && ((v[0] == '"' && v.last() == '"') || (v[0] == '\'' && v.last() == '\'')) {
        v.subrange(1, v.len() - 1)
    } else {
        v
    }
}

/// The value written after `css:` on a line.
pub open spec fn css_value(rest: Seq<char>) -> Seq<char> {
    trim(unquote(uncomment(trim(rest))))
}

/// Reads the metadata lines in order until the block closes.
pub open spec fn scan_css(ls: Seq<Seq<char>>) -> Option<Seq<char>>
    decreases ls.len(),
{
    if ls.len() == 0 {
        None
    } else {
        let line = ls[0];
        if closes_block(line) {
            None
        } else if is_indented(line) {
            scan_css(ls.drop_first())
        } else {
            match strip_prefix(line, css_key()) {
                None => scan_css(ls.drop_first()),
                Some(rest) => {
                    let v = css_value(rest);
                    if v.len() == 0 {
                        None
                    } else {
                        Some(v)
                    }
                },
            }
        }
    }
}

/// What follows the opening line of the document, when that line is `---`
/// followed by nothing but ASCII whitespace and a line feed.
pub open spec fn front_matter_body(md: Seq<char>) -> Option<Seq<char>> {
    if starts_with(md, fence()) {
        match find_char(md.subrange(3, md.len() as int), '\n') {
            Some(e) => if forall|j: int| 3 <= j < 3 + e ==> is_ascii_ws(#[trigger] md[j]) {
                Some(md.subrange(4 + e, md.len() as int))
            } else {
                None
            },
            None => None,
        }
    } else {
        None
    }
}

/// The document opens with a block that pulldown-cmark reads as YAML-style
/// metadata.
pub open spec fn opens_with_metadata(md: Seq<char>) -> bool {
    front_matter_body(md) matches Some(b) && metadata_lines(lines(b))
}

/// The `css:` value of a document's front matter.
pub open spec fn front_matter_css_of(md: Seq<char>) -> Option<Seq<char>> {
    match front_matter_body(md) {
        Some(b) => if metadata_lines(lines(b)) {
            scan_css(lines(b))
        } else {
            None
        },
        None => None,
    }
}

// ---------------------------------------------------------------------------
// Lemmas
// ---------------------------------------------------------------------------

/// One step of `lines` on `v[pos..n]`, for a line ending at `e` (a `\n`) or at `n`.
proof fn lemma_lines_step(v: Seq<char>, pos: int, n: int, e: int, found: bool)
    requires
        0 <= pos < n <= v.len(),
        found ==> pos <= e < n && find_char(v.subrange(pos, n), '\n') == Some(e - pos),
        !found ==> e == n && find_char(v.subrange(pos, n), '\n') is None,
    ensures
        lines(v.subrange(pos, n)) == seq![
            if found {
                strip_cr(v.subrange(pos, e))
            } else {
                v.subrange(pos, e)
            },
        ] + lines(v.subrange(if found { e + 1 } else { n }, n)),
{
    let s = v.subrange(pos, n);
    if found {
        assert(s.subrange(0, e - pos) == v.subrange(pos, e));
        assert(s.subrange(e - pos + 1, s.len() as int) == v.subrange(e + 1, n));
    } else {
        assert(s == v.subrange(pos, e));
        assert(lines(v.subrange(n, n)) == Seq::<Seq<char>>::empty());
        assert(seq![s] + Seq::<Seq<char>>::empty() == seq![s]);
    }
}

// ---------------------------------------------------------------------------
// Laws
// ---------------------------------------------------------------------------

/// A stylesheet is read only from a block that opens the document with a
/// `---` line and that pulldown-cmark takes as metadata: a lone `---` with no
/// closing fence is a thematic break, and names no stylesheet.
pub proof fn law_stylesheet_only_from_metadata_block(md: Seq<char>)
    ensures
        front_matter_css_of(md) is Some ==> starts_with(md, fence()) && opens_with_metadata(md),
{
}

/// A metadata block that no line closes names no stylesheet.
pub proof fn law_unclosed_block_names_nothing(md: Seq<char>)
    requires
        front_matter_body(md) matches Some(b) && !has_closing(lines(b)),
    ensures
        front_matter_css_of(md) is None,
{
}

/// A stylesheet value is never empty and never begins or ends with whitespace.
pub proof fn law_css_value_is_trimmed(md: Seq<char>)
    ensures
        front_matter_css_of(md) matches Some(v) ==> v.len() > 0 && !is_ws(v[0]) && !is_ws(
            v.last(),
        ),
{
    if let Some(b) = front_matter_body(md) {
        lemma_scan_trimmed(lines(b));
    }
}

proof fn lemma_scan_trimmed(ls: Seq<Seq<char>>)
    ensures
        scan_css(ls) matches Some(v) ==> v.len() > 0 && !is_ws(v[0]) && !is_ws(v.last()),
    decreases ls.len(),
{
    if ls.len() > 0 {
        lemma_scan_trimmed(ls.drop_first());
        if let Some(rest) = strip_prefix(ls[0], css_key()) {
            lemma_trim_clean(unquote(uncomment(trim(rest))));
        }
    }
}

/// Nothing after the line that closes the metadata block is read.
pub proof fn law_nothing_after_closing_fence(
    before: Seq<Seq<char>>,
    close: Seq<char>,
    after: Seq<Seq<char>>,
)
    requires
        closes_block(close),
    ensures
        scan_css(before + seq![close] + after) == scan_css(before + seq![close]),
    decreases before.len(),
{
    let l1 = before + seq![close] + after;
    let l2 = before + seq![close];
    if before.len() == 0 {
        assert(l1[0] == close);
        assert(l2[0] == close);
    } else {
        assert(l1[0] == before[0]);
        assert(l2[0] == before[0]);
        assert(l1.drop_first() == before.drop_first() + seq![close] + after);
        assert(l2.drop_first() == before.drop_first() + seq![close]);
        law_nothing_after_closing_fence(before.drop_first(), close, after);
    }
}

/// A `css:` key nested under another key (an indented line) is ignored.
pub proof fn law_nested_key_ignored(line: Seq<char>, after: Seq<Seq<char>>)
    requires
        is_indented(line),
    ensures
        scan_css(seq![line] + after) == scan_css(after),
{
    let ls = seq![line] + after;
    assert(ls[0] == line);
    assert(ls.drop_first() == after);
    assert(!closes_block(line)) by {
        if starts_with(line, fence()) || starts_with(line, end_marker()) {
            assert(line.subrange(0, 3)[0] == line[0]);
        }
    }
}

// ---------------------------------------------------------------------------
// Executable code
// ---------------------------------------------------------------------------

/// The bounds of `css_value(v[lo..hi])`.
fn css_value_at(v: &Vec<char>, lo: usize, hi: usize) -> (r: (usize, usize))
    requires
        lo <= hi <= v@.len(),
    ensures
        lo <= r.0 <= r.1 <= hi,
        v@.subrange(r.0 as int, r.1 as int) == css_value(v@.subrange(lo as int, hi as int)),
{
    let ghost rest = v@.subrange(lo as int, hi as int);
    let a = trim_start_at(v, lo, hi);
    let mut b = trim_end_at(v, a, hi);
    assert(v@.subrange(a as int, b as int) == trim(rest));
    let ghost t = v@.subrange(a as int, b as int);
    if !(a < b && (v[a] == '"' || v[a] == '\'')) {
        match find_char_in(v, a, b, '#') {
            Some(h) => {
                assert(t.subrange(0, h - a) == v@.subrange(a as int, h as int));
                b = trim_end_at(v, a, h);
            },
            None => {},
        }
    }
    assert(v@.subrange(a as int, b as int) == uncomment(t));
    let ghost u = v@.subrange(a as int, b as int);
    let mut a2 = a;
    let mut b2 = b;
    if b - a >= 2 && ((v[a] == '"' && v[b - 1] == '"') || (v[a] == '\'' && v[b - 1] == '\'')) {
        a2 = a + 1;
        b2 = b - 1;
        assert(u.subrange(1, u.len() - 1) == v@.subrange(a2 as int, b2 as int));
    }
    assert(v@.subrange(a2 as int, b2 as int) == unquote(u));
    let c = trim_start_at(v, a2, b2);
    let d = trim_end_at(v, c, b2);
    (c, d)
}

/// The bounds of the first line of `v[pos..n]` and the start of the next.
fn next_line(v: &Vec<char>, pos: usize, n: usize) -> (r: (usize, usize))
    requires
        pos < n <= v@.len(),
    ensures
        pos <= r.0 <= n,
        pos < r.1 <= n,
        lines(v@.subrange(pos as int, n as int)) == seq![v@.subrange(pos as int, r.0 as int)]
            + lines(v@.subrange(r.1 as int, n as int)),
{
    let found = find_char_in(v, pos, n, '\n');
    let (e, next) = match found {
        Some(e) => (e, e + 1),
        None => (n, n),
    };
    proof {
        lemma_lines_step(v@, pos as int, n as int, e as int, found is Some);
    }
    // a final line without a line ending keeps its carriage return
    let line_hi = if found.is_some() && e > pos && v[e - 1] == '\r' {
        e - 1
    } else {
        e
    };
    assert(v@.subrange(pos as int, line_hi as int) == if found is Some {
        strip_cr(v@.subrange(pos as int, e as int))
    } else {
        v@.subrange(pos as int, e as int)
    });
    (line_hi, next)
}

/// Whether `v[lo..hi]` closes the metadata block.
fn closes_block_at(v: &Vec<char>, lo: usize, hi: usize) -> (r: bool)
    requires
        lo <= hi <= v@.len(),
    ensures
        r == closes_block(v@.subrange(lo as int, hi as int)),
{
    let ghost line = v@.subrange(lo as int, hi as int);
    if !(range_starts_with(v, lo, hi, &['-', '-', '-']) || range_starts_with(
        v,
        lo,
        hi,
        &['.', '.', '.'],
    )) {
        return false;
    }
    let mut k = lo + 3;
    assert(line.subrange(3, line.len() as int) == v@.subrange(lo + 3, hi as int));
    while k < hi && v[k] == ' '
        invariant
            lo + 3 <= k <= hi <= v@.len(),
            line == v@.subrange(lo as int, hi as int),
            spaces_then_eol(line.subrange(3, line.len() as int)) == spaces_then_eol(
                v@.subrange(k as int, hi as int),
            ),
        decreases hi - k,
    {
        assert(v@.subrange(k as int, hi as int).drop_first() == v@.subrange(k + 1, hi as int));
        k = k + 1;
    }
    assert(line.subrange(3, line.len() as int) == v@.subrange(lo + 3, hi as int));
    k == hi || v[k] == '\r'
}

/// Whether `v[lo..hi]` is a blank line.
fn blank_line_at(v: &Vec<char>, lo: usize, hi: usize) -> (r: bool)
    requires
        lo <= hi <= v@.len(),
    ensures
        r == blank_line(v@.subrange(lo as int, hi as int)),
{
    let mut k = lo;
    while k < hi && (v[k] == ' ' || v[k] == '\t' || v[k] == '\u{b}' || v[k] == '\u{c}')
        invariant
            lo <= k <= hi <= v@.len(),
            blank_line(v@.subrange(lo as int, hi as int)) == blank_line(
                v@.subrange(k as int, hi as int),
            ),
        decreases hi - k,
    {
        assert(v@.subrange(k as int, hi as int).drop_first() == v@.subrange(k + 1, hi as int));
        k = k + 1;
    }
    k == hi || v[k] == '\r'
}

/// Whether some line of `v[pos..n]` closes the metadata block.
fn has_closing_from(v: &Vec<char>, pos: usize, n: usize) -> (r: bool)
    requires
        pos <= n <= v@.len(),
    ensures
        r == has_closing(lines(v@.subrange(pos as int, n as int))),
{
    let mut p = pos;
    while p < n
        invariant
            pos <= p <= n <= v@.len(),
            has_closing(lines(v@.subrange(pos as int, n as int))) == has_closing(
                lines(v@.subrange(p as int, n as int)),
            ),
        decreases n - p,
    {
        let (hi, next) = next_line(v, p, n);
        let ghost ls = lines(v@.subrange(p as int, n as int));
        assert(ls[0] == v@.subrange(p as int, hi as int));
        assert(ls.drop_first() == lines(v@.subrange(next as int, n as int)));
        if closes_block_at(v, p, hi) {
            return true;
        }
        p = next;
    }
    assert(v@.subrange(p as int, n as int) == Seq::<char>::empty());
    false
}

/// The `css:` value from a document's YAML front matter, if it has one.
///
/// The block counts only when pulldown-cmark reads it as a YAML-style
/// metadata block opening the document: a first line of `---` (trailing
/// whitespace allowed), a first block line that is neither blank nor the
/// closing line, and a later line of `---` or `...` that closes it. An empty
/// value is no value.
pub fn front_matter_css(md: &str) -> (r: Option<String>)
    ensures
        r.deep_view() == front_matter_css_of(md@),
{
    let v = chars_of(md);
    let n = v.len();
    assert(v@.subrange(0, n as int) == v@);
    if !range_starts_with(&v, 0, n, &['-', '-', '-']) {
        return None;
    }
    let e = match find_char_in(&v, 3, n, '\n') {
        Some(e) => e,
        None => {
            return None;
        },
    };
    let mut k: usize = 3;
    while k < e
        invariant
            3 <= k <= e < n == v@.len(),
            v@ == md@,
            starts_with(v@, fence()),
            find_char(v@.subrange(3, n as int), '\n') == Some(e - 3),
            forall|j: int| 3 <= j < k ==> is_ascii_ws(#[trigger] v@[j]),
        decreases e - k,
    {
        let c = v[k];
        if !(c == ' ' || c == '\t' || c == '\n' || c == '\u{c}' || c == '\r') {
            assert(!is_ascii_ws(v@[k as int]));
            return None;
        }
        k = k + 1;
    }
    let start = e + 1;
    let ghost body = v@.subrange(start as int, n as int);
    assert(front_matter_body(md@) == Some(body));
    // the block must be one pulldown-cmark reads as metadata
    if start >= n {
        assert(body == Seq::<char>::empty());
        return None;
    }
    let (first_hi, second) = next_line(&v, start, n);
    let ghost ls = lines(body);
    assert(ls[0] == v@.subrange(start as int, first_hi as int));
    assert(ls.drop_first() == lines(v@.subrange(second as int, n as int)));
    if closes_block_at(&v, start, first_hi) || blank_line_at(&v, start, first_hi)
        || !has_closing_from(&v, second, n) {
        return None;
    }
    assert(metadata_lines(ls));
    let mut pos = start;
    while pos < n
        invariant
            start <= pos <= n == v@.len(),
            v@ == md@,
            front_matter_css_of(md@) == scan_css(lines(v@.subrange(pos as int, n as int))),
        decreases n - pos,
    {
        let (line_hi, next) = next_line(&v, pos, n);
        let ghost line = v@.subrange(pos as int, line_hi as int);
        let ghost lsp = lines(v@.subrange(pos as int, n as int));
        assert(lsp[0] == line);
        assert(lsp.drop_first() == lines(v@.subrange(next as int, n as int)));
        if closes_block_at(&v, pos, line_hi) {
            return None;
        }
        let indented = line_hi > pos && (v[pos] == ' ' || v[pos] == '\t');
        if !indented && range_starts_with(&v, pos, line_hi, &['c', 's', 's', ':']) {
            assert(line.subrange(4, line.len() as int) == v@.subrange(pos + 4, line_hi as int));
            let (c, d) = css_value_at(&v, pos + 4, line_hi);
            if c == d {
                return None;
            }
            return Some(string_from_range(&v, c, d));
        }
        pos = next;
    }
    assert(v@.subrange(pos as int, n as int) == Seq::<char>::empty());
    None
}

pub open spec fn dot_css() -> Seq<char> {
    seq!['.', 'c', 's', 's']
}

pub open spec fn home_prefix() -> Seq<char> {
    seq!['~', '/']
}

/// Where a document's `css:` value points, for the document at `doc` and the
/// home directory `home`: `None` for anything not ending in `.css`
/// (case-insensitive); `~/` expands to the home directory; an absolute path is
/// taken as it is; any other value resolves against the directory holding the
/// document, never the working directory.
pub open spec fn resolve_doc_css_of(
    doc: Seq<char>,
    value: Seq<char>,
    home: Option<Seq<char>>,
) -> Option<Seq<char>> {
    if !ends_with(lower(value), dot_css()) {
        None
    } else if starts_with(value, home_prefix()) {
        Some(path_join_of(home_or_cwd(home), value.subrange(2, value.len() as int)))
    } else if starts_with(value, seq!['/']) {
        Some(value)
    } else {
        Some(path_join_of(doc_dir_of(path_parent_of(doc)), value))
    }
}

/// The directory holding a document, from its parent path; the current
/// directory when it has none.
pub open spec fn doc_dir_of(parent: Option<Seq<char>>) -> Seq<char> {
    match parent {
        Some(d) => d,
        None => seq!['.'],
    }
}

/// The stylesheet a document names in its front matter, resolved for the
/// document at `doc` and the home directory `home`.
pub open spec fn doc_css_path_of(
    doc: Seq<char>,
    md: Seq<char>,
    home: Option<Seq<char>>,
) -> Option<Seq<char>> {
    match front_matter_css_of(md) {
        Some(value) => resolve_doc_css_of(doc, value, home),
        None => None,
    }
}

/// A resolved stylesheet path always names a `.css` file (ignoring case), so
/// a document cannot pull an unrelated file into the page.
pub proof fn law_resolved_stylesheet_is_css(
    doc: Seq<char>,
    value: Seq<char>,
    home: Option<Seq<char>>,
)
    ensures
        resolve_doc_css_of(doc, value, home) matches Some(p) ==> ends_with(lower(p), dot_css()),
{
    if ends_with(lower(value), dot_css()) {
        if starts_with(value, home_prefix()) {
            let rest = value.subrange(2, value.len() as int);
            let lv = lower(value);
            // "~/" and ".css" cannot overlap, so the value is at least six long
            assert(lv[1] == ascii_lower(value[1]));
            assert(value.subrange(0, 2)[1] == value[1]);
            if value.len() < 6 {
                assert(lv.subrange(lv.len() - 4, lv.len() as int)[1 - (lv.len() - 4)] == lv[1]);
            }
            assert(value == value.subrange(0, 2) + rest);
            lemma_lower_concat(value.subrange(0, 2), rest);
            let lr = lower(rest);
            assert(lr.subrange(lr.len() - 4, lr.len() as int) =~= lv.subrange(
                lv.len() - 4,
                lv.len() as int,
            ));
            lemma_join_ends_with_rel(home_or_cwd(home), rest);
            let p = choose|p: Seq<char>| path_join_of(home_or_cwd(home), rest) == p + rest;
            lemma_ends_with_lower_concat(p, rest, dot_css());
        } else if !starts_with(value, seq!['/']) {
            let dir = doc_dir_of(path_parent_of(doc));
            lemma_join_ends_with_rel(dir, value);
            let p = choose|p: Seq<char>| path_join_of(dir, value) == p + value;
            lemma_ends_with_lower_concat(p, value, dot_css());
        }
    }
}

/// The stylesheet a document names resolves only to a `.css` file.
pub proof fn law_doc_css_path_is_css(doc: Seq<char>, md: Seq<char>, home: Option<Seq<char>>)
    ensures
        doc_css_path_of(doc, md, home) matches Some(p) ==> ends_with(lower(p), dot_css()),
{
    if let Some(value) = front_matter_css_of(md) {
        law_resolved_stylesheet_is_css(doc, value, home);
    }
}

/// A `~/` stylesheet lies under the home directory: with an absolute home
/// directory it resolves to an absolute path.
pub proof fn law_home_value_follows_home(doc: Seq<char>, value: Seq<char>, home: Seq<char>)
    requires
        starts_with(value, home_prefix()),
        ends_with(lower(value), dot_css()),
        starts_with(home, seq!['/']),
    ensures
        resolve_doc_css_of(doc, value, Some(home)) matches Some(p) && starts_with(p, seq!['/']),
{
    let rest = value.subrange(2, value.len() as int);
    let p = path_join_of(home, rest);
    assert(home.subrange(0, 1)[0] == home[0]);
    if rest.len() > 0 && rest[0] == '/' {
        assert(p.subrange(0, 1) =~= seq!['/']);
    } else {
        assert(p[0] == home[0]);
        assert(p.subrange(0, 1) =~= seq!['/']);
    }
}

/// `resolve_doc_css` for a given home directory.
#[verifier::rlimit(40)]
pub fn resolve_doc_css_for(doc_path: &str, value: &str, home: Option<&str>) -> (r: Option<String>)
    ensures
        r.deep_view() == resolve_doc_css_of(
            doc_path@,
            value@,
            match home {
                Some(h) => Some(h@),
                None => None,
            },
        ),
{
    let v = chars_of(value);
    let n = v.len();
    assert(v@.subrange(0, n as int) == v@);
    if !range_ends_with_lower(&v, 0, n, &['.', 'c', 's', 's']) {
        return None;
    }
    if range_starts_with(&v, 0, n, &['~', '/']) {
        let rest = string_from_range(&v, 2, n);
        let joined = match home {
            Some(h) => path_join(h, rest.as_str()),
            None => path_join(".", rest.as_str()),
        };
        proof {
            reveal_strlit(".");
            assert(seq!['.'] =~= "."@);
        }
        return Some(joined);
    }
    if n > 0 && v[0] == '/' {
        assert(v@.subrange(0, 1) =~= seq!['/']);
        return Some(string_from_range(&v, 0, n));
    }
    assert(!starts_with(v@, seq!['/'])) by {
        if starts_with(v@, seq!['/']) {
            assert(v@.subrange(0, 1)[0] == v@[0]);
        }
    }
    let parent = path_parent(doc_path);
    let r = match &parent {
        Some(d) => join_with_doc_dir(Some(d.as_str()), value),
        None => join_with_doc_dir(None, value),
    };
    Some(r)
}

/// A relative stylesheet path joined to the directory holding the document,
/// given the document's parent path (`None`: the current directory).
pub fn join_with_doc_dir(parent: Option<&str>, value: &str) -> (r: String)
    ensures
        r@ == path_join_of(
            doc_dir_of(
                match parent {
                    Some(d) => Some(d@),
                    None => None,
                },
            ),
            value@,
        ),
{
    match parent {
        Some(d) => path_join(d, value),
        None => {
            proof {
                reveal_strlit(".");
                assert(seq!['.'] =~= "."@);
            }
            path_join(".", value)
        },
    }
}

/// Turns a document's `css:` value into a path on disk (see
/// `resolve_doc_css_of`); the home directory is looked up only for a `~/` value.
///
/// Returning `None` for anything but a stylesheet keeps a document from
/// slurping an unrelated file into the page.
pub fn resolve_doc_css(doc_path: &str, value: &str) -> (r: Option<String>)
    ensures
        r is None <==> !ends_with(lower(value@), dot_css()),
        !starts_with(value@, home_prefix()) ==> r.deep_view() == resolve_doc_css_of(
            doc_path@,
            value@,
            None,
        ),
        exists|home: Option<Seq<char>>|
            (home matches Some(h) ==> h.len() > 0) && r.deep_view() == resolve_doc_css_of(
                doc_path@,
                value@,
                home,
            ),
        r matches Some(p) ==> ends_with(lower(p@), dot_css()),
{
    let v = chars_of(value);
    let n = v.len();
    assert(v@.subrange(0, n as int) == v@);
    if range_starts_with(&v, 0, n, &['~', '/']) {
        let home = home_dir();
        let r = match &home {
            Some(h) => resolve_doc_css_for(doc_path, value, Some(h.as_str())),
            None => resolve_doc_css_for(doc_path, value, None),
        };
        proof {
            let hv: Option<Seq<char>> = match home {
                Some(h) => Some(h@),
                None => None,
            };
            assert(r.deep_view() == resolve_doc_css_of(doc_path@, value@, hv));
            law_resolved_stylesheet_is_css(doc_path@, value@, hv);
        }
        r
    } else {
        let r = resolve_doc_css_for(doc_path, value, None);
        proof {
            law_resolved_stylesheet_is_css(doc_path@, value@, None);
        }
        r
    }
}

/// The path of the stylesheet a document asks for in its front matter: the
/// `css:` value, resolved. Whether that file exists is not this function's
/// concern: a missing stylesheet degrades to stock styling.
pub fn doc_css_path(doc_path: &str, md: &str) -> (r: Option<String>)
    ensures
        exists|home: Option<Seq<char>>|
            (home matches Some(h) ==> h.len() > 0) && r.deep_view() == doc_css_path_of(
                doc_path@,
                md@,
                home,
            ),
        front_matter_css_of(md@) matches Some(value) && !starts_with(value, home_prefix())
            ==> r.deep_view() == doc_css_path_of(doc_path@, md@, None),
        front_matter_css_of(md@) is None ==> r is None,
        r matches Some(p) ==> ends_with(lower(p@), dot_css()),
{
    match front_matter_css(md) {
        None => {
            assert(doc_css_path_of(doc_path@, md@, None) is None);
            None
        },
        Some(value) => resolve_doc_css(doc_path, value.as_str()),
    }
}

} // verus!
