//! File-system paths, held as strings, and the user's stylesheet location.
//!
//! Paths follow Unix rules. Joining is written out and proved here; the
//! parent and file name of a path come from std and the home directory from
//! `dirs`, through the trusted items below, whose results are named.
use vstd::prelude::*;
use crate::text::{chars_of, ends_with, lower, push_char, starts_with};

verus! {

/// `Path::join` on Unix: a root-led `rel` replaces `base`; otherwise a `/`
/// separates the two unless `base` is empty or already ends in one.
pub open spec fn path_join_of(base: Seq<char>, rel: Seq<char>) -> Seq<char> {
    if rel.len() > 0 && rel[0] == '/' {
        rel
    } else if base.len() > 0 && base.last() != '/' {
        base + seq!['/'] + rel
    } else {
        base + rel
    }
}

/// What `Path::parent` returns for a path.
pub uninterp spec fn path_parent_of(p: Seq<char>) -> Option<Seq<char>>;

/// What `Path::file_name` returns for a path.
pub uninterp spec fn path_file_name_of(p: Seq<char>) -> Option<Seq<char>>;

/// `base` joined with `rel`, as `Path::join` does on Unix.
pub fn path_join(base: &str, rel: &str) -> (r: String)
    ensures
        r@ == path_join_of(base@, rel@),
{
    let rv = chars_of(rel);
    if rv.len() > 0 && rv[0] == '/' {
        return String::from_str(rel);
    }
    let bv = chars_of(base);
    let mut out = String::from_str(base);
    if bv.len() > 0 && bv[bv.len() - 1] != '/' {
        push_char(&mut out, '/');
    }
    out.append(rel);
    out
}

/// `std::path::Path::parent`, as a string.
///
/// Claims only that the result is a function of the path.
#[verifier::external_body]
pub(crate) fn path_parent(p: &str) -> (r: Option<String>)
    ensures
        r.deep_view() == path_parent_of(p@),
{
    match std::path::Path::new(p).parent() {
        Some(q) => Some(q.to_string_lossy().into_owned()),
        None => None,
    }
}

/// `std::path::Path::file_name`, as a string.
///
/// Claims only that the result is a function of the path.
#[verifier::external_body]
pub(crate) fn path_file_name(p: &str) -> (r: Option<String>)
    ensures
        r.deep_view() == path_file_name_of(p@),
{
    match std::path::Path::new(p).file_name() {
        Some(n) => Some(n.to_string_lossy().into_owned()),
        None => None,
    }
}

/// `dirs::home_dir`, as a string (converted lossily).
///
/// Paths are held as strings in this library: a home directory that is not
/// valid UTF-8 has its invalid bytes replaced, so it then names another
/// directory than `dirs` returned.
///
/// Claims only that a home directory, when there is one, is not empty: on
/// Unix `dirs` drops an empty `$HOME` and an empty user-database entry. Which
/// directory it is comes from the environment of the machine.
#[verifier::external_body]
pub(crate) fn home_dir() -> (r: Option<String>)
    ensures
        r matches Some(h) ==> h@.len() > 0,
{
    match dirs::home_dir() {
        Some(h) => Some(h.to_string_lossy().into_owned()),
        None => None,
    }
}

/// The directory that stands for a missing home directory.
pub open spec fn home_or_cwd(home: Option<Seq<char>>) -> Seq<char> {
    match home {
        Some(h) => h,
        None => seq!['.'],
    }
}

/// `<home>/.config/monocle/custom.css`, joined component by component.
pub open spec fn custom_css_path_in(home: Seq<char>) -> Seq<char> {
    path_join_of(path_join_of(path_join_of(home, ".config"@), "monocle"@), "custom.css"@)
}

/// Where the user's optional overlay stylesheet lives, for a given home
/// directory (`None`: the current directory stands in for it).
pub fn custom_css_path_for(home: Option<&str>) -> (r: String)
    ensures
        r@ == custom_css_path_in(
            home_or_cwd(
                match home {
                    Some(h) => Some(h@),
                    None => None,
                },
            ),
        ),
{
    let base = match home {
        Some(h) => path_join(h, ".config"),
        None => path_join(".", ".config"),
    };
    proof {
        reveal_strlit(".");
        if home is None {
            assert(seq!['.'] =~= "."@);
        }
    }
    let dir = path_join(base.as_str(), "monocle");
    path_join(dir.as_str(), "custom.css")
}

/// Where the user's optional overlay stylesheet lives: the same path for
/// the viewer and for the exporter.
pub fn custom_css_path() -> (r: String)
    ensures
        exists|home: Option<Seq<char>>|
            r@ == custom_css_path_in(home_or_cwd(home)) && (home matches Some(h) ==> h.len()
                > 0),
        ends_with(r@, custom_css_tail()),
{
    let home = home_dir();
    let r = match &home {
        Some(h) => custom_css_path_for(Some(h.as_str())),
        None => custom_css_path_for(None),
    };
    proof {
        let hv: Option<Seq<char>> = match home {
            Some(h) => Some(h@),
            None => None,
        };
        assert(r@ == custom_css_path_in(home_or_cwd(hv)));
        law_custom_css_path_suffix(home_or_cwd(hv));
    }
    r
}

/// `/.config/monocle/custom.css`.
pub open spec fn custom_css_tail() -> Seq<char> {
    seq!['/'] + ".config"@ + seq!['/'] + "monocle"@ + seq!['/'] + "custom.css"@
}

/// Adding a relative path keeps the whole of it at the end.
pub proof fn lemma_join_ends_with_rel(base: Seq<char>, rel: Seq<char>)
    ensures
        exists|p: Seq<char>| path_join_of(base, rel) == p + rel,
{
    if rel.len() > 0 && rel[0] == '/' {
        assert(path_join_of(base, rel) == Seq::<char>::empty() + rel);
    } else if base.len() > 0 && base.last() != '/' {
        assert(path_join_of(base, rel) == (base + seq!['/']) + rel);
    } else {
        assert(path_join_of(base, rel) == base + rel);
    }
}

/// The user's stylesheet for a non-empty home directory lies at
/// `.config/monocle/custom.css` directly inside it, and is absolute when the
/// home directory is.
pub proof fn law_custom_css_path_suffix(home: Seq<char>)
    requires
        home.len() > 0,
    ensures
        ends_with(custom_css_path_in(home), custom_css_tail()),
        starts_with(home, seq!['/']) ==> starts_with(custom_css_path_in(home), seq!['/']),
{
    reveal_strlit(".config");
    reveal_strlit("monocle");
    reveal_strlit("custom.css");
    let a = path_join_of(home, ".config"@);
    let b = path_join_of(a, "monocle"@);
    let c = path_join_of(b, "custom.css"@);
    assert(a.len() > 0 && a.last() == 'g');
    assert(b == a + seq!['/'] + "monocle"@);
    assert(c == b + seq!['/'] + "custom.css"@);
    if home.last() == '/' {
        assert(a == home + ".config"@);
        assert(c.subrange(c.len() - custom_css_tail().len(), c.len() as int) =~= custom_css_tail())
            by {
            assert(c =~= home.drop_last() + custom_css_tail());
        }
    } else {
        assert(a == home + seq!['/'] + ".config"@);
        assert(c =~= home + custom_css_tail());
        assert(c.subrange(c.len() - custom_css_tail().len(), c.len() as int) =~= custom_css_tail());
    }
    if starts_with(home, seq!['/']) {
        assert(home.subrange(0, 1)[0] == home[0]);
        assert(c[0] == home[0]);
        assert(c.subrange(0, 1) =~= seq!['/']);
    }
}

} // verus!
