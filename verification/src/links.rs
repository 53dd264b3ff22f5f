//! Cross-document links of exported pages: relative links to markdown
//! documents are pointed at the rendered PDFs, and directory paths are made
//! safe for `file://` URLs.
use vstd::prelude::*;
use crate::text::{
    lemma_lower_concat, lemma_find_char, chars_of, contains, ends_with, find_char, find_char_in, find_pat, lemma_find_char_facts,
    lemma_find_pat, lower, occurs_at, push_char, push_range, range_contains, range_ends_with_lower,
    range_eq, range_starts_with, starts_with, string_from_range,
};

verus! {

// ---------------------------------------------------------------------------
// Specification
// ---------------------------------------------------------------------------

/// The percent-escape written for `c`, or `c` itself.
pub open spec fn encode_char(c: char) -> Seq<char> {
    if c == ' ' {
        seq!['%', '2', '0']
    } else if c == '#' {
        seq!['%', '2', '3']
    } else if c == '?' {
        seq!['%', '3', 'F']
    } else if c == '%' {
        seq!['%', '2', '5']
    } else {
        seq![c]
    }
}

/// Minimal percent-encoding of a directory path for a `file://` URL.
pub open spec fn encode_path(s: Seq<char>) -> Seq<char>
    decreases s.len(),
{
    if s.len() == 0 {
        seq![]
    } else {
        encode_char(s[0]) + encode_path(s.drop_first())
    }
}

/// The character that an escape `%ab` of this encoding stands for.
pub open spec fn escape_of(a: char, b: char) -> Option<char> {
    if a == '2' && b == '0' {
        Some(' ')
    } else if a == '2' && b == '3' {
        Some('#')
    } else if a == '3' && b == 'F' {
        Some('?')
    } else if a == '2' && b == '5' {
        Some('%')
    } else {
        None
    }
}

/// Reads the escapes of `encode_path` back.
pub open spec fn decode_path(s: Seq<char>) -> Seq<char>
    decreases s.len(),
{
    if s.len() == 0 {
        seq![]
    } else if s.len() >= 3 && s[0] == '%' && escape_of(s[1], s[2]) is Some {
        seq![escape_of(s[1], s[2])->0] + decode_path(s.subrange(3, s.len() as int))
    } else {
        seq![s[0]] + decode_path(s.drop_first())
    }
}

/// A link split at its first `#`: the path and the fragment (with its `#`).
pub open spec fn split_fragment(v: Seq<char>) -> (Seq<char>, Seq<char>) {
    match find_char(v, '#') {
        Some(p) => (v.subrange(0, p), v.subrange(p, v.len() as int)),
        None => (v, seq![]),
    }
}

pub open spec fn scheme_sep() -> Seq<char> {
    seq![':', '/', '/']
}

pub open spec fn mailto() -> Seq<char> {
    seq!['m', 'a', 'i', 'l', 't', 'o', ':']
}

pub open spec fn tel() -> Seq<char> {
    seq!['t', 'e', 'l', ':']
}

pub open spec fn dot_md() -> Seq<char> {
    seq!['.', 'm', 'd']
}

pub open spec fn dot_markdown() -> Seq<char> {
    seq!['.', 'm', 'a', 'r', 'k', 'd', 'o', 'w', 'n']
}

pub open spec fn dot_pdf() -> Seq<char> {
    seq!['.', 'p', 'd', 'f']
}

pub open spec fn file_scheme() -> Seq<char> {
    seq!['f', 'i', 'l', 'e', ':', '/', '/']
}

/// Targets that are never rewritten: pure `#anchors`, URLs with a scheme,
/// `mailto:` / `tel:`, and root-absolute paths.
pub open spec fn is_external(path: Seq<char>) -> bool {
    ||| path.len() == 0
    ||| contains(path, scheme_sep())
    ||| starts_with(path, mailto())
    ||| starts_with(path, tel())
    ||| starts_with(path, seq!['/'])
}

/// A link to a markdown document (case-insensitive extension).
pub open spec fn is_md_doc(path: Seq<char>) -> bool {
    ends_with(lower(path), dot_md()) || ends_with(lower(path), dot_markdown())
}

/// A link already written to a rendered document.
pub open spec fn is_pdf_doc(path: Seq<char>) -> bool {
    ends_with(lower(path), dot_md() + dot_pdf()) || ends_with(lower(path), dot_markdown() + dot_pdf())
}

/// The rendered-PDF target a link refers to, if it is a markdown doc link.
pub open spec fn pdf_target(path: Seq<char>) -> Option<Seq<char>> {
    if is_md_doc(path) {
        Some(path + dot_pdf())
    } else if is_pdf_doc(path) {
        Some(path)
    } else {
        None
    }
}

/// Position of the last `/` in `s`.
pub open spec fn last_slash(s: Seq<char>) -> Option<int>
    decreases s.len(),
{
    if s.len() == 0 {
        None
    } else if s.last() == '/' {
        Some(s.len() - 1)
    } else {
        last_slash(s.drop_last())
    }
}

/// The last `/`-separated segment of `s` (`rsplit('/').next()`).
pub open spec fn file_name_part(s: Seq<char>) -> Seq<char> {
    match last_slash(s) {
        Some(k) => s.subrange(k + 1, s.len() as int),
        None => s,
    }
}

/// The link that `val` becomes in an exported page; `dir` is the directory
/// the PDFs are written to, when they are not beside their sources.
pub open spec fn rewrite_one_of(val: Seq<char>, dir: Option<Seq<char>>) -> Seq<char> {
    let (path, frag) = split_fragment(val);
    if is_external(path) {
        val
    } else {
        match pdf_target(path) {
            None => val,
            Some(t) => match dir {
                None => t + frag,
                Some(d) => file_scheme() + encode_path(d) + seq!['/'] + file_name_part(t) + frag,
            },
        }
    }
}

pub open spec fn href_needle() -> Seq<char> {
    seq!['h', 'r', 'e', 'f', '=', '"']
}

/// Every `href="..."` value of `h` rewritten; all other text kept. An
/// attribute with no closing quote ends the rewriting and is kept verbatim.
pub open spec fn rewrite_links_of(h: Seq<char>, dir: Option<Seq<char>>) -> Seq<char>
    decreases h.len(),
{
    match find_pat(h, href_needle()) {
        None => h,
        Some(i) => {
            proof {
                lemma_find_pat_facts(h, href_needle());
            }
            let rest = h.subrange(i + 6, h.len() as int);
            match find_char(rest, '"') {
                None => h,
                Some(e) => {
                    proof {
                        lemma_find_char_facts(rest, '"');
                    }
                    h.subrange(0, i + 6) + rewrite_one_of(rest.subrange(0, e), dir) + seq!['"']
                        + rewrite_links_of(rest.subrange(e + 1, rest.len() as int), dir)
                },
            }
        },
    }
}

/// The view of an optional string argument.
pub open spec fn opt_view(o: Option<&str>) -> Option<Seq<char>> {
    match o {
        Some(s) => Some(s@),
        None => None,
    }
}

// ---------------------------------------------------------------------------
// Lemmas
// ---------------------------------------------------------------------------

pub proof fn lemma_find_pat_facts(s: Seq<char>, p: Seq<char>)
    ensures
        find_pat(s, p) matches Some(i) ==> occurs_at(s, p, i) && p.len() > 0,
    decreases s.len(),
{
    if s.len() >= p.len() && p.len() > 0 && s.subrange(0, p.len() as int) != p {
        lemma_find_pat_facts(s.drop_first(), p);
        if let Some(i) = find_pat(s.drop_first(), p) {
            assert(s.drop_first().subrange(i, i + p.len()) == s.subrange(i + 1, i + 1 + p.len()));
        }
    }
}

/// `find_pat` finds the first occurrence.
proof fn lemma_find_pat_first(s: Seq<char>, p: Seq<char>)
    ensures
        find_pat(s, p) matches Some(i) ==> forall|j: int| 0 <= j < i ==> !occurs_at(s, p, j),
    decreases s.len(),
{
    if s.len() >= p.len() && p.len() > 0 && s.subrange(0, p.len() as int) != p {
        lemma_find_pat_first(s.drop_first(), p);
        if let Some(i) = find_pat(s.drop_first(), p) {
            assert forall|j: int| 0 <= j < i + 1 implies !occurs_at(s, p, j) by {
                if j > 0 && occurs_at(s, p, j) {
                    assert(s.drop_first().subrange(j - 1, j - 1 + p.len()) =~= s.subrange(
                        j,
                        j + p.len(),
                    ));
                    assert(occurs_at(s.drop_first(), p, j - 1));
                }
            }
        }
    }
}

/// Encoding brings in no character that is neither in the input nor part of
/// an escape.
proof fn lemma_encode_no_char(s: Seq<char>, c: char)
    requires
        forall|j: int| 0 <= j < s.len() ==> s[j] != c,
        c != '%' && c != '0' && c != '2' && c != '3' && c != '5' && c != 'F',
    ensures
        forall|i: int| 0 <= i < encode_path(s).len() ==> encode_path(s)[i] != c,
    decreases s.len(),
{
    if s.len() > 0 {
        lemma_encode_no_char(s.drop_first(), c);
        let e = encode_path(s);
        let h = encode_char(s[0]);
        assert forall|i: int| 0 <= i < e.len() implies e[i] != c by {
            if i >= h.len() {
                assert(e[i] == encode_path(s.drop_first())[i - h.len()]);
            } else {
                assert(e[i] == h[i]);
            }
        }
    }
}

proof fn lemma_encode_concat(a: Seq<char>, b: Seq<char>)
    ensures
        encode_path(a + b) == encode_path(a) + encode_path(b),
    decreases a.len(),
{
    if a.len() > 0 {
        assert((a + b).drop_first() == a.drop_first() + b);
        lemma_encode_concat(a.drop_first(), b);
        assert(encode_path(a + b) == encode_char(a[0]) + encode_path(a.drop_first() + b));
    } else {
        assert(a + b == b);
    }
}

proof fn lemma_last_slash(s: Seq<char>, k: int)
    requires
        -1 <= k < s.len(),
        forall|j: int| k < j < s.len() ==> s[j] != '/',
        k >= 0 ==> s[k] == '/',
    ensures
        last_slash(s) == (if k < 0 { None::<int> } else { Some(k) }),
    decreases s.len(),
{
    if s.len() > 0 && k < s.len() - 1 {
        lemma_last_slash(s.drop_last(), k);
    }
}

proof fn lemma_last_slash_facts(s: Seq<char>)
    ensures
        match last_slash(s) {
            Some(k) => 0 <= k < s.len() && s[k] == '/' && forall|j: int| k < j < s.len() ==> s[j]
                != '/',
            None => forall|j: int| 0 <= j < s.len() ==> s[j] != '/',
        },
    decreases s.len(),
{
    if s.len() > 0 && s.last() != '/' {
        let d = s.drop_last();
        lemma_last_slash_facts(d);
        assert forall|j: int| 0 <= j < d.len() implies s[j] == d[j] by {}
    }
}

/// Appending a tail without `/` keeps the segment boundary.
proof fn lemma_file_name_append(s: Seq<char>, t: Seq<char>)
    requires
        forall|j: int| 0 <= j < t.len() ==> t[j] != '/',
    ensures
        file_name_part(s + t) == file_name_part(s) + t,
    decreases t.len(),
{
    if t.len() == 0 {
        assert(s + t =~= s);
    } else {
        let u = s + t;
        let t1 = t.drop_last();
        let u1 = s + t1;
        assert(u.last() == t.last());
        assert(u.drop_last() =~= u1);
        lemma_file_name_append(s, t1);
        assert(last_slash(u) == last_slash(u1));
        assert(t =~= t1.push(t.last()));
        lemma_last_slash_facts(u1);
        assert((file_name_part(s) + t1).push(t.last()) =~= file_name_part(s) + t);
        match last_slash(u1) {
            Some(k) => {
                assert(u.subrange(k + 1, u.len() as int) =~= u1.subrange(k + 1, u1.len() as int).push(
                    t.last(),
                ));
            },
            None => {
                assert(u =~= u1.push(t.last()));
            },
        }
    }
}

/// One step of `rewrite_links_of`: an attribute found at `i`, closed at `i + 6 + e`.
proof fn lemma_rewrite_links_step(h: Seq<char>, i: int, e: int, d: Option<Seq<char>>)
    requires
        find_pat(h, href_needle()) == Some(i),
        find_char(h.subrange(i + 6, h.len() as int), '"') == Some(e),
    ensures
        0 <= i && i + 6 + e < h.len(),
        rewrite_links_of(h, d) == h.subrange(0, i + 6) + rewrite_one_of(
            h.subrange(i + 6, i + 6 + e),
            d,
        ) + seq!['"'] + rewrite_links_of(h.subrange(i + 7 + e, h.len() as int), d),
{
    lemma_find_pat_facts(h, href_needle());
    let rest = h.subrange(i + 6, h.len() as int);
    lemma_find_char_facts(rest, '"');
    assert(rest.subrange(0, e) == h.subrange(i + 6, i + 6 + e));
    assert(rest.subrange(e + 1, rest.len() as int) == h.subrange(i + 7 + e, h.len() as int));
}

// ---------------------------------------------------------------------------
// Laws
// ---------------------------------------------------------------------------

/// What `split_fragment` returns: a path without `#`, and a fragment that is
/// empty or starts at the first `#`.
proof fn lemma_split_facts(v: Seq<char>)
    ensures
        split_fragment(v).0 + split_fragment(v).1 == v,
        forall|j: int| 0 <= j < split_fragment(v).0.len() ==> split_fragment(v).0[j] != '#',
        split_fragment(v).1.len() == 0 || split_fragment(v).1[0] == '#',
{
    lemma_find_char_facts(v, '#');
    match find_char(v, '#') {
        Some(p) => {
            assert(v.subrange(0, p) + v.subrange(p, v.len() as int) =~= v);
        },
        None => {
            assert(v + Seq::<char>::empty() =~= v);
        },
    }
}

/// Splitting a path without `#` joined to a fragment gives both back.
proof fn lemma_split_join(t: Seq<char>, f: Seq<char>)
    requires
        forall|j: int| 0 <= j < t.len() ==> t[j] != '#',
        f.len() == 0 || f[0] == '#',
    ensures
        split_fragment(t + f) == (t, f),
{
    let v = t + f;
    if f.len() == 0 {
        lemma_find_char(v, '#', v.len() as int);
        assert(v =~= t);
    } else {
        lemma_find_char(v, '#', t.len() as int);
        assert(v.subrange(0, t.len() as int) =~= t);
        assert(v.subrange(t.len() as int, v.len() as int) =~= f);
    }
}

/// `path.pdf` of a relative markdown link is itself a link to the same
/// rendered document.
proof fn lemma_pdf_of_md_link(path: Seq<char>)
    requires
        !is_external(path),
        is_md_doc(path),
    ensures
        !is_external(path + dot_pdf()),
        pdf_target(path + dot_pdf()) == Some(path + dot_pdf()),
        forall|j: int| 0 <= j < dot_pdf().len() ==> dot_pdf()[j] != '/' && dot_pdf()[j] != '#',
{
    let t = path + dot_pdf();
    let lp = lower(path);
    let lt = lower(t);
    lemma_lower_concat(path, dot_pdf());
    assert(lower(dot_pdf()) =~= dot_pdf());
    assert(lp.len() == path.len());
    assert(path.len() >= 3);
    // no "://" straddles the end of a path ending in a letter
    assert forall|i: int| !occurs_at(t, scheme_sep(), i) by {
        if occurs_at(t, scheme_sep(), i) {
            if i + 3 <= path.len() {
                assert(t.subrange(i, i + 3) =~= path.subrange(i, i + 3));
                assert(occurs_at(path, scheme_sep(), i));
            } else {
                assert(t.subrange(i, i + 3)[2] == t[i + 2]);
                assert(t[i + 2] == dot_pdf()[i + 2 - path.len()]);
            }
        }
    }
    assert(!starts_with(t, mailto())) by {
        if starts_with(t, mailto()) {
            if path.len() >= 7 {
                assert(path.subrange(0, 7) =~= t.subrange(0, 7));
            } else {
                assert(t.subrange(0, 7)[path.len() as int] == t[path.len() as int]);
            }
        }
    }
    assert(!starts_with(t, tel())) by {
        if starts_with(t, tel()) {
            if path.len() >= 4 {
                assert(path.subrange(0, 4) =~= t.subrange(0, 4));
            } else {
                assert(t.subrange(0, 4)[path.len() as int] == t[path.len() as int]);
            }
        }
    }
    assert(!starts_with(t, seq!['/'])) by {
        if starts_with(t, seq!['/']) {
            assert(t.subrange(0, 1)[0] == t[0]);
            assert(path.subrange(0, 1) =~= t.subrange(0, 1));
        }
    }
    // the lower-cased target ends in "f", so it is not a markdown link
    assert(!ends_with(lt, dot_md())) by {
        if ends_with(lt, dot_md()) {
            assert(lt.subrange(lt.len() - 3, lt.len() as int)[2] == lt[lt.len() - 1]);
        }
    }
    assert(!ends_with(lt, dot_markdown())) by {
        if ends_with(lt, dot_markdown()) {
            assert(lt.subrange(lt.len() - 9, lt.len() as int)[8] == lt[lt.len() - 1]);
        }
    }
    if ends_with(lp, dot_md()) {
        assert(lt.subrange(lt.len() - 7, lt.len() as int) =~= lp.subrange(
            lp.len() - 3,
            lp.len() as int,
        ) + dot_pdf());
    } else {
        assert(lt.subrange(lt.len() - 13, lt.len() as int) =~= lp.subrange(
            lp.len() - 9,
            lp.len() as int,
        ) + dot_pdf());
    }
}

/// `file_name_part` keeps a suffix of its input.
proof fn lemma_file_name_is_suffix(s: Seq<char>)
    ensures
        file_name_part(s).len() <= s.len(),
        forall|j: int|
            0 <= j < file_name_part(s).len() ==> file_name_part(s)[j] == s[s.len()
                - file_name_part(s).len() + j],
{
    lemma_last_slash_facts(s);
}

/// `decode_path` undoes `encode_path`: no two directories share an encoding.
pub proof fn law_encode_path_round_trip(s: Seq<char>)
    ensures
        decode_path(encode_path(s)) == s,
    decreases s.len(),
{
    if s.len() > 0 {
        let e = encode_path(s);
        let rest = encode_path(s.drop_first());
        law_encode_path_round_trip(s.drop_first());
        let c = s[0];
        if c == ' ' || c == '#' || c == '?' || c == '%' {
            assert(e.subrange(3, e.len() as int) == rest);
            assert(escape_of(e[1], e[2]) == Some(c));
        } else {
            assert(e.drop_first() == rest);
            assert(e[0] == c);
        }
        assert(s == seq![c] + s.drop_first());
    }
}

/// An encoded path holds no space, `#` or `?`, which would end or split the URL.
pub proof fn law_encode_path_is_url_safe(s: Seq<char>)
    ensures
        forall|i: int|
            0 <= i < encode_path(s).len() ==> encode_path(s)[i] != ' ' && encode_path(s)[i]
                != '#' && encode_path(s)[i] != '?',
    decreases s.len(),
{
    if s.len() > 0 {
        law_encode_path_is_url_safe(s.drop_first());
        let e = encode_path(s);
        let h = encode_char(s[0]);
        assert forall|i: int| 0 <= i < e.len() implies e[i] != ' ' && e[i] != '#' && e[i] != '?' by {
            if i >= h.len() {
                assert(e[i] == encode_path(s.drop_first())[i - h.len()]);
            }
        }
    }
}

/// Rewriting a link twice changes nothing more: a rewritten link is already
/// a link to a rendered document, or an absolute `file://` URL.
pub proof fn law_rewrite_one_idempotent(val: Seq<char>, dir: Option<Seq<char>>)
    ensures
        rewrite_one_of(rewrite_one_of(val, dir), dir) == rewrite_one_of(val, dir),
{
    let (path, frag) = split_fragment(val);
    lemma_split_facts(val);
    if !is_external(path) {
        if let Some(t) = pdf_target(path) {
            let r = rewrite_one_of(val, dir);
            match dir {
                None => {
                    if is_md_doc(path) {
                        lemma_pdf_of_md_link(path);
                        assert forall|j: int| 0 <= j < t.len() implies t[j] != '#' by {
                            if j >= path.len() {
                                assert(t[j] == dot_pdf()[j - path.len()]);
                            }
                        }
                    }
                    lemma_split_join(t, frag);
                },
                Some(d) => {
                    let head = file_scheme() + encode_path(d) + seq!['/'];
                    let name = file_name_part(t);
                    law_encode_path_is_url_safe(d);
                    lemma_file_name_is_suffix(t);
                    if is_md_doc(path) {
                        lemma_pdf_of_md_link(path);
                    }
                    assert forall|j: int| 0 <= j < t.len() implies t[j] != '#' by {
                        if j >= path.len() {
                            assert(t[j] == dot_pdf()[j - path.len()]);
                        }
                    }
                    assert(r == head + name + frag);
                    let e = encode_path(d);
                    assert forall|j: int| 0 <= j < (head + name).len() implies (head + name)[j]
                        != '#' by {
                        if j < 7 {
                            assert((head + name)[j] == file_scheme()[j]);
                        } else if j < 7 + e.len() {
                            assert((head + name)[j] == e[j - 7]);
                        } else if j == 7 + e.len() {
                            assert((head + name)[j] == '/');
                        } else {
                            let k = j - head.len();
                            assert((head + name)[j] == name[k]);
                            assert(name[k] == t[t.len() - name.len() + k]);
                        }
                    }
                    lemma_split_join(head + name, frag);
                    assert((head + name).subrange(4, 7) =~= scheme_sep());
                    assert(occurs_at(head + name, scheme_sep(), 4));
                },
            }
        }
    }
}

/// A link already written as `foo.md.pdf` names the same target as `foo.md`.
pub proof fn law_pdf_link_is_same_target(
    path: Seq<char>,
    frag: Seq<char>,
    dir: Option<Seq<char>>,
)
    requires
        !is_external(path),
        is_md_doc(path),
        forall|j: int| 0 <= j < path.len() ==> path[j] != '#',
        frag.len() == 0 || frag[0] == '#',
    ensures
        rewrite_one_of(path + dot_pdf() + frag, dir) == rewrite_one_of(path + frag, dir),
{
    let t = path + dot_pdf();
    lemma_pdf_of_md_link(path);
    assert forall|j: int| 0 <= j < t.len() implies t[j] != '#' by {
        if j >= path.len() {
            assert(t[j] == dot_pdf()[j - path.len()]);
        }
    }
    lemma_split_join(t, frag);
    lemma_split_join(path, frag);
}

/// A relative link to a markdown document (any path that is not empty, not
/// root-led, holds no `://`, and does not start with `mailto:` or `tel:`;
/// `./` and `../` prefixes included) is pointed at the rendered PDF, with its
/// fragment kept: beside the source as `path.pdf`, or in the link directory
/// by file name.
pub proof fn law_md_link_becomes_pdf(path: Seq<char>, frag: Seq<char>, out: Seq<char>)
    requires
        path.len() > 0,
        path[0] != '/',
        forall|i: int|
            !(0 <= i && i + 3 <= path.len() && #[trigger] path.subrange(i, i + 3) == seq![
                ':',
                '/',
                '/',
            ]),
        !(path.len() >= 7 && path.subrange(0, 7) == seq!['m', 'a', 'i', 'l', 't', 'o', ':']),
        !(path.len() >= 4 && path.subrange(0, 4) == seq!['t', 'e', 'l', ':']),
        forall|j: int| 0 <= j < path.len() ==> path[j] != '#',
        frag.len() == 0 || frag[0] == '#',
        ends_with(lower(path), seq!['.', 'm', 'd']) || ends_with(
            lower(path),
            seq!['.', 'm', 'a', 'r', 'k', 'd', 'o', 'w', 'n'],
        ),
    ensures
        rewrite_one_of(path + frag, None) == path + seq!['.', 'p', 'd', 'f'] + frag,
        rewrite_one_of(path + frag, Some(out)) == seq!['f', 'i', 'l', 'e', ':', '/', '/']
            + encode_path(out) + seq!['/'] + file_name_part(path) + seq!['.', 'p', 'd', 'f']
            + frag,
{
    assert(!contains(path, scheme_sep())) by {
        if contains(path, scheme_sep()) {
            let i = choose|i: int| occurs_at(path, scheme_sep(), i);
            assert(path.subrange(i, i + 3) == seq![':', '/', '/']);
        }
    }
    assert(!starts_with(path, seq!['/'])) by {
        if starts_with(path, seq!['/']) {
            assert(path.subrange(0, 1)[0] == path[0]);
        }
    }
    assert(!is_external(path));
    assert(is_md_doc(path));
    lemma_split_join(path, frag);
    lemma_pdf_of_md_link(path);
    lemma_file_name_append(path, dot_pdf());
}

/// A suffix without `/` ends a path exactly when it ends the path's last segment.
proof fn lemma_ends_with_segment(dir: Seq<char>, name: Seq<char>, suf: Seq<char>)
    requires
        forall|j: int| 0 <= j < suf.len() ==> suf[j] != '/',
    ensures
        ends_with(lower(dir + seq!['/'] + name), suf) == ends_with(lower(name), suf),
{
    let full = dir + seq!['/'] + name;
    let lf = lower(full);
    let ln = lower(name);
    if name.len() >= suf.len() {
        assert(lf.subrange(lf.len() - suf.len(), lf.len() as int) =~= ln.subrange(
            ln.len() - suf.len(),
            ln.len() as int,
        ));
    } else if ends_with(lf, suf) {
        let k = suf.len() - name.len() - 1;
        assert(lf.subrange(lf.len() - suf.len(), lf.len() as int)[k] == lf[full.len() - name.len()
            - 1]);
        assert(full[full.len() - name.len() - 1] == '/');
    }
}

/// With a link directory only the file name of a link to a document counts:
/// the PDFs share one flat output directory.
pub proof fn law_link_dir_uses_file_name_only(
    dir: Seq<char>,
    name: Seq<char>,
    frag: Seq<char>,
    out: Seq<char>,
)
    requires
        !is_external(dir + seq!['/'] + name),
        !is_external(name),
        is_md_doc(name) || is_pdf_doc(name),
        forall|j: int| 0 <= j < name.len() ==> name[j] != '/',
        forall|j: int| 0 <= j < dir.len() ==> dir[j] != '#',
        forall|j: int| 0 <= j < name.len() ==> name[j] != '#',
        frag.len() == 0 || frag[0] == '#',
    ensures
        rewrite_one_of(dir + seq!['/'] + name + frag, Some(out)) == rewrite_one_of(
            name + frag,
            Some(out),
        ),
{
    let full = dir + seq!['/'] + name;
    assert forall|j: int| 0 <= j < full.len() implies full[j] != '#' by {
        if j < dir.len() {
            assert(full[j] == dir[j]);
        } else if j > dir.len() {
            assert(full[j] == name[j - dir.len() - 1]);
        }
    }
    lemma_split_join(full, frag);
    lemma_split_join(name, frag);
    lemma_ends_with_segment(dir, name, dot_md());
    lemma_ends_with_segment(dir, name, dot_markdown());
    lemma_ends_with_segment(dir, name, dot_md() + dot_pdf());
    lemma_ends_with_segment(dir, name, dot_markdown() + dot_pdf());
    // the last segment of the full path is the name
    lemma_last_slash(full, dir.len() as int);
    assert(file_name_part(full) =~= name);
    lemma_last_slash(name, -1);
    assert(file_name_part(name) == name);
    assert(is_md_doc(full) == is_md_doc(name));
    assert(is_pdf_doc(full) == is_pdf_doc(name));
    if is_md_doc(name) {
        lemma_file_name_append(full, dot_pdf());
        lemma_file_name_append(name, dot_pdf());
        assert(file_name_part(full + dot_pdf()) == file_name_part(name + dot_pdf()));
    }
}

/// A rewritten link holds no `"` when neither the link nor the directory does.
proof fn lemma_rewrite_one_no_quote(v: Seq<char>, dir: Option<Seq<char>>)
    requires
        forall|j: int| 0 <= j < v.len() ==> v[j] != '"',
        dir matches Some(x) ==> forall|j: int| 0 <= j < x.len() ==> x[j] != '"',
    ensures
        forall|i: int| 0 <= i < rewrite_one_of(v, dir).len() ==> rewrite_one_of(v, dir)[i] != '"',
{
    let (path, frag) = split_fragment(v);
    lemma_split_facts(v);
    assert forall|j: int| 0 <= j < path.len() implies path[j] != '"' by {
        assert(path[j] == v[j]);
    }
    assert forall|j: int| 0 <= j < frag.len() implies frag[j] != '"' by {
        assert(frag[j] == v[path.len() + j]);
    }
    if !is_external(path) {
        if let Some(t) = pdf_target(path) {
            assert forall|j: int| 0 <= j < t.len() implies t[j] != '"' by {
                if j >= path.len() {
                    assert(t[j] == dot_pdf()[j - path.len()]);
                }
            }
            let r = rewrite_one_of(v, dir);
            match dir {
                None => {
                    assert forall|i: int| 0 <= i < r.len() implies r[i] != '"' by {
                        if i < t.len() {
                            assert(r[i] == t[i]);
                        } else {
                            assert(r[i] == frag[i - t.len()]);
                        }
                    }
                },
                Some(x) => {
                    let e = encode_path(x);
                    let name = file_name_part(t);
                    lemma_encode_no_char(x, '"');
                    lemma_file_name_is_suffix(t);
                    let head = file_scheme() + e + seq!['/'];
                    assert(r == head + name + frag);
                    assert forall|i: int| 0 <= i < r.len() implies r[i] != '"' by {
                        if i < 7 {
                            assert(r[i] == file_scheme()[i]);
                        } else if i < 7 + e.len() {
                            assert(r[i] == e[i - 7]);
                        } else if i == 7 + e.len() {
                            assert(r[i] == '/');
                        } else if i < head.len() + name.len() {
                            let k = i - head.len();
                            assert(r[i] == name[k]);
                            assert(name[k] == t[t.len() - name.len() + k]);
                        } else {
                            assert(r[i] == frag[i - head.len() - name.len()]);
                        }
                    }
                },
            }
        }
    }
}

/// In a page, one `href="` value is rewritten with `rewrite_one` and the text
/// before it is kept: the first `href="` is the one after `before`, and the
/// value ends at the first `"`.
pub proof fn law_href_value_rewritten(
    before: Seq<char>,
    value: Seq<char>,
    after: Seq<char>,
    dir: Option<Seq<char>>,
)
    requires
        forall|i: int| !occurs_at(before, href_needle(), i),
        forall|j: int| 0 <= j < value.len() ==> value[j] != '"',
    ensures
        rewrite_links_of(before + href_needle() + value + seq!['"'] + after, dir) == before
            + href_needle() + rewrite_one_of(value, dir) + seq!['"'] + rewrite_links_of(after, dir),
{
    let n = href_needle();
    let h = before + n + value + seq!['"'] + after;
    let k = before.len() as int;
    assert(h.subrange(k, k + 6) =~= n);
    assert forall|j: int| 0 <= j < k implies !occurs_at(h, n, j) by {
        if occurs_at(h, n, j) {
            if j + 6 <= k {
                assert(h.subrange(j, j + 6) =~= before.subrange(j, j + 6));
                assert(occurs_at(before, n, j));
            } else {
                let m = k - j;
                assert(h[k] == 'h');
                assert(h.subrange(j, j + 6)[m] == h[j + m]);
                assert(m == 1 || m == 2 || m == 3 || m == 4 || m == 5);
            }
        }
    }
    lemma_find_pat(h, n, k);
    let rest = h.subrange(k + 6, h.len() as int);
    assert(rest =~= value + seq!['"'] + after);
    assert forall|j: int| 0 <= j < value.len() implies rest[j] != '"' by {
        assert(rest[j] == value[j]);
    }
    lemma_find_char(rest, '"', value.len() as int);
    lemma_rewrite_links_step(h, k, value.len() as int, dir);
    assert(h.subrange(0, k + 6) =~= before + n);
    assert(h.subrange(k + 6, k + 6 + value.len()) =~= value);
    assert(h.subrange(k + 7 + value.len(), h.len() as int) =~= after);
}

/// `s` holds no `href="`.
pub open spec fn no_href(s: Seq<char>) -> bool {
    forall|i: int| !occurs_at(s, href_needle(), i)
}

/// A page of text segments `ss` with `href="` values `vs` between them.
pub open spec fn page_of(ss: Seq<Seq<char>>, vs: Seq<Seq<char>>) -> Seq<char>
    decreases vs.len(),
{
    if ss.len() == 0 {
        seq![]
    } else if vs.len() == 0 {
        ss[0]
    } else {
        ss[0] + href_needle() + vs[0] + seq!['"'] + page_of(ss.drop_first(), vs.drop_first())
    }
}

/// Only attribute values change: a page `s0 href="v1" s1 ... href="vn" sn`,
/// whose segments hold no `href="` and whose values hold no `"`, becomes
/// `s0 href="rewrite_one(v1)" s1 ... href="rewrite_one(vn)" sn`.
pub proof fn law_only_href_values_change(
    ss: Seq<Seq<char>>,
    vs: Seq<Seq<char>>,
    dir: Option<Seq<char>>,
)
    requires
        ss.len() == vs.len() + 1,
        forall|k: int| 0 <= k < ss.len() ==> no_href(#[trigger] ss[k]),
        forall|k: int, j: int|
            0 <= k < vs.len() && 0 <= j < vs[k].len() ==> #[trigger] vs[k][j] != '"',
    ensures
        rewrite_links_of(page_of(ss, vs), dir) == page_of(
            ss,
            vs.map_values(|v: Seq<char>| rewrite_one_of(v, dir)),
        ),
    decreases vs.len(),
{
    let ws = vs.map_values(|v: Seq<char>| rewrite_one_of(v, dir));
    if vs.len() == 0 {
        assert(no_href(ss[0]));
        law_links_without_href_unchanged(ss[0], dir);
    } else {
        let rest = page_of(ss.drop_first(), vs.drop_first());
        assert(no_href(ss[0]));
        assert(forall|j: int| 0 <= j < vs[0].len() ==> vs[0][j] != '"');
        law_href_value_rewritten(ss[0], vs[0], rest, dir);
        assert forall|k: int| 0 <= k < ss.drop_first().len() implies no_href(
            #[trigger] ss.drop_first()[k],
        ) by {
            assert(ss.drop_first()[k] == ss[k + 1]);
        }
        assert forall|k: int, j: int|
            0 <= k < vs.drop_first().len() && 0 <= j < vs.drop_first()[k].len() implies #[trigger] vs.drop_first()[k][j]
            != '"' by {
            assert(vs.drop_first()[k] == vs[k + 1]);
        }
        law_only_href_values_change(ss.drop_first(), vs.drop_first(), dir);
        assert(ws.drop_first() =~= vs.drop_first().map_values(
            |v: Seq<char>| rewrite_one_of(v, dir),
        ));
    }
}

/// Rewriting a page twice changes nothing more, when the link directory
/// holds no `"`.
pub proof fn law_rewrite_md_links_idempotent(h: Seq<char>, dir: Option<Seq<char>>)
    requires
        dir matches Some(x) ==> forall|j: int| 0 <= j < x.len() ==> x[j] != '"',
    ensures
        rewrite_links_of(rewrite_links_of(h, dir), dir) == rewrite_links_of(h, dir),
    decreases h.len(),
{
    let n = href_needle();
    lemma_find_pat_facts(h, n);
    lemma_find_pat_first(h, n);
    if let Some(i) = find_pat(h, n) {
        let rest = h.subrange(i + 6, h.len() as int);
        lemma_find_char_facts(rest, '"');
        if let Some(e) = find_char(rest, '"') {
            let before = h.subrange(0, i);
            let v = rest.subrange(0, e);
            let rest2 = rest.subrange(e + 1, rest.len() as int);
            assert forall|j: int| !occurs_at(before, n, j) by {
                if occurs_at(before, n, j) {
                    assert(h.subrange(j, j + 6) =~= before.subrange(j, j + 6));
                    assert(occurs_at(h, n, j));
                }
            }
            lemma_rewrite_links_step(h, i, e, dir);
            assert(h.subrange(0, i + 6) =~= before + n);
            assert(h.subrange(i + 6, i + 6 + e) =~= v);
            assert(h.subrange(i + 7 + e, h.len() as int) =~= rest2);
            assert forall|j: int| 0 <= j < v.len() implies v[j] != '"' by {
                assert(v[j] == rest[j]);
            }
            let r = rewrite_one_of(v, dir);
            lemma_rewrite_one_no_quote(v, dir);
            law_href_value_rewritten(before, r, rewrite_links_of(rest2, dir), dir);
            law_rewrite_one_idempotent(v, dir);
            law_rewrite_md_links_idempotent(rest2, dir);
        }
    }
}

/// A page without `href="` passes through unchanged.
pub proof fn law_links_without_href_unchanged(h: Seq<char>, dir: Option<Seq<char>>)
    requires
        forall|i: int| !occurs_at(h, href_needle(), i),
    ensures
        rewrite_links_of(h, dir) == h,
{
    lemma_find_pat_facts(h, href_needle());
}

// ---------------------------------------------------------------------------
// Executable code
// ---------------------------------------------------------------------------

/// Appends the characters of `p` to `out`.
fn push_chars(out: &mut String, p: &[char])
    ensures
        final(out)@ == old(out)@ + p@,
{
    let mut k: usize = 0;
    while k < p.len()
        invariant
            0 <= k <= p@.len(),
            out@ == old(out)@ + p@.subrange(0, k as int),
        decreases p@.len() - k,
    {
        push_char(out, p[k]);
        assert(p@.subrange(0, k + 1) == p@.subrange(0, k as int).push(p@[k as int]));
        k = k + 1;
    }
    assert(p@.subrange(0, p@.len() as int) == p@);
}

/// Minimal percent-encoding for the characters that would otherwise break a
/// `file://` URL used in `<base href>`. Slashes are preserved.
pub fn encode_path_for_url(p: &str) -> (s: String)
    ensures
        s@ == encode_path(p@),
{
    let v = chars_of(p);
    let mut s = String::new();
    let mut i: usize = 0;
    while i < v.len()
        invariant
            0 <= i <= v@.len(),
            v@ == p@,
            s@ == encode_path(v@.subrange(0, i as int)),
        decreases v@.len() - i,
    {
        let c = v[i];
        if c == ' ' {
            push_chars(&mut s, &['%', '2', '0']);
        } else if c == '#' {
            push_chars(&mut s, &['%', '2', '3']);
        } else if c == '?' {
            push_chars(&mut s, &['%', '3', 'F']);
        } else if c == '%' {
            push_chars(&mut s, &['%', '2', '5']);
        } else {
            push_char(&mut s, c);
        }
        proof {
            let a = v@.subrange(0, i as int);
            lemma_encode_concat(a, seq![c]);
            assert(v@.subrange(0, i + 1) == a + seq![c]);
            assert(encode_path(seq![c]) == encode_char(c) + encode_path(seq![c].drop_first()));
            assert(seq![c].drop_first() == Seq::<char>::empty());
        }
        i = i + 1;
    }
    assert(v@.subrange(0, v@.len() as int) == v@);
    s
}

/// Position of the last `/` in `v[lo..hi]`, as an index into `v`.
fn last_slash_in(v: &Vec<char>, lo: usize, hi: usize) -> (r: Option<usize>)
    requires
        lo <= hi <= v@.len(),
    ensures
        match r {
            Some(k) => lo <= k < hi && last_slash(v@.subrange(lo as int, hi as int)) == Some(k - lo),
            None => last_slash(v@.subrange(lo as int, hi as int)) is None,
        },
{
    let ghost s = v@.subrange(lo as int, hi as int);
    let mut j = hi;
    while j > lo
        invariant
            lo <= j <= hi <= v@.len(),
            s == v@.subrange(lo as int, hi as int),
            forall|m: int| j - lo <= m < hi - lo ==> s[m] != '/',
        decreases j,
    {
        if v[j - 1] == '/' {
            proof {
                lemma_last_slash(s, j - 1 - lo);
            }
            return Some(j - 1);
        }
        j = j - 1;
    }
    proof {
        lemma_last_slash(s, -1);
    }
    None
}

/// Position of the first occurrence of `p` in `v[lo..hi]`, as an index into `v`.
fn find_pat_in(v: &Vec<char>, lo: usize, hi: usize, p: &[char]) -> (r: Option<usize>)
    requires
        lo <= hi <= v@.len(),
        p@.len() > 0,
    ensures
        match r {
            Some(i) => lo <= i && i + p@.len() <= hi && find_pat(
                v@.subrange(lo as int, hi as int),
                p@,
            ) == Some(i - lo),
            None => find_pat(v@.subrange(lo as int, hi as int), p@) is None,
        },
{
    let ghost s = v@.subrange(lo as int, hi as int);
    if hi - lo < p.len() {
        proof {
            lemma_find_pat(s, p@, 0);
        }
        return None;
    }
    let mut i = lo;
    while i <= hi - p.len()
        invariant
            lo <= i <= hi <= v@.len(),
            0 < p@.len() <= hi - lo,
            s == v@.subrange(lo as int, hi as int),
            forall|j: int| 0 <= j < i - lo ==> !occurs_at(s, p@, j),
        decreases hi - i,
    {
        assert(s.subrange(i - lo, i - lo + p@.len()) == v@.subrange(i as int, i + p@.len()));
        if range_eq(v, i, i + p.len(), p) {
            proof {
                lemma_find_pat(s, p@, i - lo);
            }
            return Some(i);
        }
        i = i + 1;
    }
    proof {
        lemma_find_pat(s, p@, i - lo);
    }
    None
}

/// `rewrite_one` on the link `v[lo..hi]`.
#[verifier::rlimit(60)]
fn rewrite_one_at(v: &Vec<char>, lo: usize, hi: usize, link_dir: Option<&str>) -> (r: String)
    requires
        lo <= hi <= v@.len(),
    ensures
        r@ == rewrite_one_of(v@.subrange(lo as int, hi as int), opt_view(link_dir)),
{
    let ghost val = v@.subrange(lo as int, hi as int);
    let p = match find_char_in(v, lo, hi, '#') {
        Some(i) => i,
        None => hi,
    };
    let ghost path = v@.subrange(lo as int, p as int);
    let ghost frag = v@.subrange(p as int, hi as int);
    assert(val.subrange(0, p - lo) == path);
    assert(val.subrange(p - lo, val.len() as int) == frag);
    assert(p == hi ==> val == path && frag == Seq::<char>::empty());
    assert(split_fragment(val) == (path, frag));
    if p == lo || range_contains(v, lo, p, &[':', '/', '/']) || range_starts_with(
        v,
        lo,
        p,
        &['m', 'a', 'i', 'l', 't', 'o', ':'],
    ) || range_starts_with(v, lo, p, &['t', 'e', 'l', ':']) || v[lo] == '/' {
        proof {
            if p > lo && v@[lo as int] == '/' {
                assert(path.subrange(0, 1) =~= seq!['/']);
            }
        }
        return string_from_range(v, lo, hi);
    }
    assert(!starts_with(path, seq!['/'])) by {
        assert(path[0] == v@[lo as int]);
        if starts_with(path, seq!['/']) {
            assert(path.subrange(0, 1)[0] == path[0]);
        }
    }
    let is_md = range_ends_with_lower(v, lo, p, &['.', 'm', 'd']) || range_ends_with_lower(
        v,
        lo,
        p,
        &['.', 'm', 'a', 'r', 'k', 'd', 'o', 'w', 'n'],
    );
    let is_pdf = range_ends_with_lower(v, lo, p, &['.', 'm', 'd', '.', 'p', 'd', 'f'])
        || range_ends_with_lower(
        v,
        lo,
        p,
        &['.', 'm', 'a', 'r', 'k', 'd', 'o', 'w', 'n', '.', 'p', 'd', 'f'],
    );
    assert(dot_md() + dot_pdf() =~= seq!['.', 'm', 'd', '.', 'p', 'd', 'f']);
    assert(dot_markdown() + dot_pdf() =~= seq![
        '.',
        'm',
        'a',
        'r',
        'k',
        'd',
        'o',
        'w',
        'n',
        '.',
        'p',
        'd',
        'f',
    ]);
    if !is_md && !is_pdf {
        return string_from_range(v, lo, hi);
    }
    let ghost t = if is_md {
        path + dot_pdf()
    } else {
        path
    };
    assert(pdf_target(path) == Some(t));
    let mut out = String::new();
    match link_dir {
        None => {
            push_range(&mut out, v, lo, p);
        },
        Some(dir) => {
            push_chars(&mut out, &['f', 'i', 'l', 'e', ':', '/', '/']);
            let enc = encode_path_for_url(dir);
            out.append(enc.as_str());
            push_char(&mut out, '/');
            let start = match last_slash_in(v, lo, p) {
                Some(k) => k + 1,
                None => lo,
            };
            proof {
                assert(file_name_part(path) == v@.subrange(start as int, p as int));
                if is_md {
                    lemma_file_name_append(path, dot_pdf());
                }
            }
            push_range(&mut out, v, start, p);
        },
    }
    if is_md {
        push_chars(&mut out, &['.', 'p', 'd', 'f']);
    }
    push_range(&mut out, v, p, hi);
    out
}

/// The link that `val` becomes in an exported page.
///
/// A relative `foo.md` / `foo.markdown` link becomes `foo.md.pdf`, a link
/// already written as `foo.md.pdf` is the same target, and the fragment is
/// kept. With `link_dir` the target becomes an absolute `file://` link into
/// that directory, by file name alone. Absolute URLs, `mailto:` / `tel:`,
/// root-absolute paths, pure `#anchors` and non-markdown targets are
/// returned unchanged.
pub fn rewrite_one(val: &str, link_dir: Option<&str>) -> (r: String)
    ensures
        r@ == rewrite_one_of(val@, opt_view(link_dir)),
{
    let v = chars_of(val);
    assert(v@.subrange(0, v@.len() as int) == v@);
    rewrite_one_at(&v, 0, v.len(), link_dir)
}

/// Rewrites every `href="..."` value of an HTML fragment with `rewrite_one`.
#[verifier::rlimit(60)]
pub fn rewrite_md_links(html: &str, link_dir: Option<&str>) -> (r: String)
    ensures
        r@ == rewrite_links_of(html@, opt_view(link_dir)),
{
    let v = chars_of(html);
    let n = v.len();
    let mut out = String::new();
    let mut pos: usize = 0;
    assert(v@.subrange(0, n as int) == v@);
    loop
        invariant
            0 <= pos <= n == v@.len(),
            v@ == html@,
            out@ + rewrite_links_of(v@.subrange(pos as int, n as int), opt_view(link_dir))
                == rewrite_links_of(html@, opt_view(link_dir)),
        decreases n - pos,
    {
        let ghost h = v@.subrange(pos as int, n as int);
        let ghost d = opt_view(link_dir);
        match find_pat_in(&v, pos, n, &['h', 'r', 'e', 'f', '=', '"']) {
            None => {
                push_range(&mut out, &v, pos, n);
                return out;
            },
            Some(i) => {
                let k = i + 6;
                let ghost rest = h.subrange(i - pos + 6, h.len() as int);
                assert(rest == v@.subrange(k as int, n as int));
                assert(h.subrange(0, i - pos + 6) == v@.subrange(pos as int, k as int));
                match find_char_in(&v, k, n, '"') {
                    None => {
                        push_range(&mut out, &v, pos, n);
                        return out;
                    },
                    Some(e) => {
                        proof {
                            lemma_rewrite_links_step(h, i - pos, e - k, d);
                            assert(h.subrange(i - pos + 6, e - pos) == v@.subrange(
                                k as int,
                                e as int,
                            ));
                            assert(h.subrange(e - pos + 1, h.len() as int) == v@.subrange(
                                e + 1,
                                n as int,
                            ));
                        }
                        push_range(&mut out, &v, pos, k);
                        let r = rewrite_one_at(&v, k, e, link_dir);
                        out.append(r.as_str());
                        push_char(&mut out, '"');
                        pos = e + 1;
                    },
                }
            },
        }
    }
}

} // verus!
