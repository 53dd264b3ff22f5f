//! The headless exporter's page: its command line, the three stylesheet
//! layers, and the HTML document handed to the browser that prints the PDF.
//!
//! Stylesheets cascade least- to most-specific: the base sheet (built in, or
//! `--css FILE`), the user's overlay (`~/.config/monocle/custom.css`, or
//! `--custom-css FILE`), and the sheet the document names in its front matter.
use vstd::prelude::*;
use crate::links::{encode_path, encode_path_for_url, file_scheme, opt_view, rewrite_links_of, rewrite_md_links};
use crate::markdown::{markdown_html_of, render_body};
use crate::paths::{path_file_name, path_file_name_of, path_parent, path_parent_of};
use crate::text::{push_char, text_eq};

verus! {

// ---------------------------------------------------------------------------
// Command line
// ---------------------------------------------------------------------------

/// The exporter's command line: `<input.md> <output.html>` and its flags.
pub struct RenderArgs {
    pub md_path: String,
    pub out_path: String,
    /// `--link-dir DIR`: where the rendered PDFs live.
    pub link_dir: Option<String>,
    /// `--css FILE`: replaces the base stylesheet.
    pub css_path: Option<String>,
    /// `--custom-css FILE`: the user overlay, named.
    pub custom_css: Option<String>,
    /// `--no-custom-css`: no user overlay.
    pub no_custom_css: bool,
    /// `--no-doc-css`: ignore the document's own stylesheet.
    pub no_doc_css: bool,
}

/// A command line that the exporter refuses (its exit status is 2).
pub enum UsageError {
    /// Fewer than the two paths.
    TooFewArguments,
    /// A flag that takes a value ended the command line.
    MissingValue(String),
    /// An argument that is no flag of the exporter.
    UnknownArgument(String),
    /// `--custom-css` together with `--no-custom-css`.
    ConflictingCustomCss,
}

pub struct RenderArgsView {
    pub md_path: Seq<char>,
    pub out_path: Seq<char>,
    pub link_dir: Option<Seq<char>>,
    pub css_path: Option<Seq<char>>,
    pub custom_css: Option<Seq<char>>,
    pub no_custom_css: bool,
    pub no_doc_css: bool,
}

pub enum UsageErrorView {
    TooFewArguments,
    MissingValue(Seq<char>),
    UnknownArgument(Seq<char>),
    ConflictingCustomCss,
}

impl View for RenderArgs {
    type V = RenderArgsView;

    open spec fn view(&self) -> RenderArgsView {
        RenderArgsView {
            md_path: self.md_path@,
            out_path: self.out_path@,
            link_dir: self.link_dir.deep_view(),
            css_path: self.css_path.deep_view(),
            custom_css: self.custom_css.deep_view(),
            no_custom_css: self.no_custom_css,
            no_doc_css: self.no_doc_css,
        }
    }
}

impl View for UsageError {
    type V = UsageErrorView;

    open spec fn view(&self) -> UsageErrorView {
        match self {
            UsageError::TooFewArguments => UsageErrorView::TooFewArguments,
            UsageError::MissingValue(f) => UsageErrorView::MissingValue(f@),
            UsageError::UnknownArgument(a) => UsageErrorView::UnknownArgument(a@),
            UsageError::ConflictingCustomCss => UsageErrorView::ConflictingCustomCss,
        }
    }
}

/// The view of a parse result.
pub open spec fn parsed_view(r: Result<RenderArgs, UsageError>) -> Result<
    RenderArgsView,
    UsageErrorView,
> {
    match r {
        Ok(a) => Ok(a@),
        Err(e) => Err(e@),
    }
}

/// The flags from position `i` on, read into `acc`; the conflict between the
/// two user-overlay flags is judged once every flag has been read.
pub open spec fn parse_flags(args: Seq<Seq<char>>, i: int, acc: RenderArgsView) -> Result<
    RenderArgsView,
    UsageErrorView,
>
    decreases args.len() - i,
{
    if i < 0 || i >= args.len() {
        if acc.no_custom_css && acc.custom_css is Some {
            Err(UsageErrorView::ConflictingCustomCss)
        } else {
            Ok(acc)
        }
    } else {
        let a = args[i];
        if a == "--link-dir"@ || a == "--css"@ || a == "--custom-css"@ {
            if i + 1 < args.len() {
                let v = Some(args[i + 1]);
                let next = if a == "--link-dir"@ {
                    RenderArgsView { link_dir: v, ..acc }
                } else if a == "--css"@ {
                    RenderArgsView { css_path: v, ..acc }
                } else {
                    RenderArgsView { custom_css: v, ..acc }
                };
                parse_flags(args, i + 2, next)
            } else {
                Err(UsageErrorView::MissingValue(a))
            }
        } else if a == "--no-custom-css"@ {
            parse_flags(args, i + 1, RenderArgsView { no_custom_css: true, ..acc })
        } else if a == "--no-doc-css"@ {
            parse_flags(args, i + 1, RenderArgsView { no_doc_css: true, ..acc })
        } else {
            Err(UsageErrorView::UnknownArgument(a))
        }
    }
}

/// The exporter's command line (`args[0]` is the program).
pub open spec fn parse_render_args_of(args: Seq<Seq<char>>) -> Result<
    RenderArgsView,
    UsageErrorView,
> {
    if args.len() < 3 {
        Err(UsageErrorView::TooFewArguments)
    } else {
        parse_flags(
            args,
            3,
            RenderArgsView {
                md_path: args[1],
                out_path: args[2],
                link_dir: None,
                css_path: None,
                custom_css: None,
                no_custom_css: false,
                no_doc_css: false,
            },
        )
    }
}

/// Reads the exporter's command line; `args[0]` is the program name. A flag
/// given twice keeps its last value.
pub fn parse_render_args(args: &Vec<String>) -> (r: Result<RenderArgs, UsageError>)
    ensures
        parsed_view(r) == parse_render_args_of(args.deep_view()),
{
    let ghost sv = args.deep_view();
    if args.len() < 3 {
        return Err(UsageError::TooFewArguments);
    }
    let mut acc = RenderArgs {
        md_path: args[1].clone(),
        out_path: args[2].clone(),
        link_dir: None,
        css_path: None,
        custom_css: None,
        no_custom_css: false,
        no_doc_css: false,
    };
    let mut i: usize = 3;
    while i < args.len()
        invariant
            3 <= i <= args@.len() + 1,
            sv == args.deep_view(),
            sv.len() == args@.len(),
            parse_render_args_of(sv) == parse_flags(sv, i as int, acc@),
        decreases args@.len() + 1 - i,
    {
        let a = args[i].as_str();
        assert(sv[i as int] == a@);
        if text_eq(a, "--link-dir") || text_eq(a, "--css") || text_eq(a, "--custom-css") {
            if i + 1 < args.len() {
                let v = Some(args[i + 1].clone());
                assert(sv[i + 1] == args@[i + 1]@);
                if text_eq(a, "--link-dir") {
                    acc.link_dir = v;
                } else if text_eq(a, "--css") {
                    acc.css_path = v;
                } else {
                    acc.custom_css = v;
                }
                i = i + 2;
            } else {
                return Err(UsageError::MissingValue(args[i].clone()));
            }
        } else if text_eq(a, "--no-custom-css") {
            acc.no_custom_css = true;
            i = i + 1;
        } else if text_eq(a, "--no-doc-css") {
            acc.no_doc_css = true;
            i = i + 1;
        } else {
            return Err(UsageError::UnknownArgument(args[i].clone()));
        }
    }
    if acc.no_custom_css && acc.custom_css.is_some() {
        return Err(UsageError::ConflictingCustomCss);
    }
    Ok(acc)
}

// ---------------------------------------------------------------------------
// Stylesheet layers
// ---------------------------------------------------------------------------

/// Where the user overlay (the second layer) comes from.
pub enum UserCssSource {
    /// No overlay.
    Off,
    /// Exactly this file; unreadable is an error, since it was asked for by name.
    Named(String),
    /// `~/.config/monocle/custom.css` when it exists.
    Default,
}

/// The user overlay for a command line: `--no-custom-css` means never any
/// overlay, `--custom-css FILE` that file, and `--css FILE` no default
/// overlay, since it means "I am supplying the stylesheet".
pub fn user_css_source(args: &RenderArgs) -> (r: UserCssSource)
    ensures
        args.no_custom_css ==> r is Off,
        !args.no_custom_css && args.custom_css is Some ==> (r matches UserCssSource::Named(p)
            && p@ == args.custom_css->0@),
        !args.no_custom_css && args.custom_css is None && args.css_path is Some ==> r is Off,
        !args.no_custom_css && args.custom_css is None && args.css_path is None ==> r is Default,
{
    if args.no_custom_css {
        UserCssSource::Off
    } else {
        match &args.custom_css {
            Some(p) => UserCssSource::Named(p.clone()),
            None => {
                if args.css_path.is_some() {
                    UserCssSource::Off
                } else {
                    UserCssSource::Default
                }
            },
        }
    }
}

/// Whether the document's own stylesheet (the third layer) is looked up.
/// Only `--no-doc-css` drops it: it ships with the document, so a render
/// that honours it stays reproducible anywhere.
pub fn wants_doc_css(args: &RenderArgs) -> (r: bool)
    ensures
        r == !args.no_doc_css,
{
    !args.no_doc_css
}

// ---------------------------------------------------------------------------
// The page
// ---------------------------------------------------------------------------

/// `file://<dir>/`, the base that relative links and images resolve against.
pub open spec fn base_href_of(dir: Seq<char>) -> Seq<char> {
    file_scheme() + encode_path(dir) + seq!['/']
}

/// The `<base href>` of a page whose source lies in `dir`.
pub fn base_href(dir: &str) -> (r: String)
    ensures
        r@ == base_href_of(dir@),
{
    let mut s = String::new();
    s.append("file://");
    let enc = encode_path_for_url(dir);
    s.append(enc.as_str());
    push_char(&mut s, '/');
    proof {
        reveal_strlit("file://");
    }
    assert(s@ =~= base_href_of(dir@));
    s
}

/// The directory of a page's source, from its parent path: the root when it
/// has none.
pub open spec fn page_dir_of(parent: Option<Seq<char>>) -> Seq<char> {
    match parent {
        Some(d) => d,
        None => seq!['/'],
    }
}

/// The base of a page, given the parent path of its source.
pub fn page_base_for(parent: Option<&str>) -> (r: String)
    ensures
        r@ == base_href_of(page_dir_of(opt_view(parent))),
{
    match parent {
        Some(d) => base_href(d),
        None => {
            proof {
                reveal_strlit("/");
                assert("/"@ =~= seq!['/']);
            }
            base_href("/")
        },
    }
}

/// The base of a page, from the canonical path of its source: its directory
/// (the root when it has none).
pub fn page_base(abs_path: &str) -> (r: String)
    ensures
        r@ == base_href_of(page_dir_of(path_parent_of(abs_path@))),
{
    let parent = path_parent(abs_path);
    match &parent {
        Some(d) => page_base_for(Some(d.as_str())),
        None => page_base_for(None),
    }
}

/// The `<title>` of a page: the file name of its source, or nothing.
pub fn page_title(abs_path: &str) -> (r: String)
    ensures
        r@ == match path_file_name_of(abs_path@) {
            Some(n) => n,
            None => Seq::<char>::empty(),
        },
{
    match path_file_name(abs_path) {
        Some(n) => n,
        None => String::new(),
    }
}

/// The body of an exported page: the markdown rendered with the exporter's
/// options, its cross-document links pointed at the rendered PDFs.
pub fn export_body(md: &str, link_dir: Option<&str>) -> (r: String)
    ensures
        r@ == rewrite_links_of(markdown_html_of(md@), opt_view(link_dir)),
{
    let html = render_body(md);
    rewrite_md_links(html.as_str(), link_dir)
}

/// An overlay `<style>` block, present only when there is a sheet to apply.
pub open spec fn style_block_of(css: Option<Seq<char>>) -> Seq<char> {
    match css {
        Some(c) => "<style>"@ + c + "</style>\n"@,
        None => Seq::<char>::empty(),
    }
}

/// The whole exported document. The `<article>` opening tag is the one the
/// viewer renders into, so the same selectors apply; the overlays follow the
/// base sheet, least specific first.
pub open spec fn document_html_of(
    base: Seq<char>,
    title: Seq<char>,
    css: Seq<char>,
    custom_css: Option<Seq<char>>,
    document_css: Option<Seq<char>>,
    body: Seq<char>,
) -> Seq<char> {
    "<!doctype html>\n<html lang=\"en\"><head>\n<meta charset=\"UTF-8\">\n<base href=\""@ + base
        + "\">\n<title>"@ + title + "</title>\n<style>"@ + css + "</style>\n"@ + style_block_of(
        custom_css,
    ) + style_block_of(document_css)
        + "</head><body>\n<article id=\"content\" class=\"md-rendered\" style=\"display:block\">"@
        + body + "</article>\n</body></html>\n"@
}

fn push_style_block(out: &mut String, css: Option<&str>)
    ensures
        final(out)@ == old(out)@ + style_block_of(opt_view(css)),
{
    match css {
        Some(c) => {
            out.append("<style>");
            out.append(c);
            out.append("</style>\n");
        },
        None => {},
    }
}

/// Assembles the exported HTML document.
pub fn document_html(
    base: &str,
    title: &str,
    css: &str,
    custom_css: Option<&str>,
    document_css: Option<&str>,
    body: &str,
) -> (r: String)
    ensures
        r@ == document_html_of(
            base@,
            title@,
            css@,
            opt_view(custom_css),
            opt_view(document_css),
            body@,
        ),
{
    let mut out = String::new();
    out.append("<!doctype html>\n<html lang=\"en\"><head>\n<meta charset=\"UTF-8\">\n<base href=\"");
    out.append(base);
    out.append("\">\n<title>");
    out.append(title);
    out.append("</title>\n<style>");
    out.append(css);
    out.append("</style>\n");
    push_style_block(&mut out, custom_css);
    push_style_block(&mut out, document_css);
    out.append("</head><body>\n<article id=\"content\" class=\"md-rendered\" style=\"display:block\">");
    out.append(body);
    out.append("</article>\n</body></html>\n");
    assert(out@ =~= document_html_of(
        base@,
        title@,
        css@,
        opt_view(custom_css),
        opt_view(document_css),
        body@,
    ));
    out
}

/// The page the print fixture builds around a rendered body and a stylesheet.
pub open spec fn print_fixture_html_of(css: Seq<char>, body: Seq<char>) -> Seq<char> {
    "<!doctype html>\n<html lang=\"en\"><head>\n<meta charset=\"UTF-8\">\n<title>print test</title>\n<style>"@
        + css + "</style>\n</head><body>\n<article id=\"content\" class=\"md-rendered\" style=\"display:block\">"@
        + body + "</article>\n</body></html>\n"@
}

/// Assembles the print fixture's page: the same `<article>` element as the
/// viewer and the exporter, titled `print test`, with one stylesheet.
pub fn print_fixture_html(css: &str, body: &str) -> (r: String)
    ensures
        r@ == print_fixture_html_of(css@, body@),
{
    let mut out = String::new();
    out.append(
        "<!doctype html>\n<html lang=\"en\"><head>\n<meta charset=\"UTF-8\">\n<title>print test</title>\n<style>",
    );
    out.append(css);
    out.append(
        "</style>\n</head><body>\n<article id=\"content\" class=\"md-rendered\" style=\"display:block\">",
    );
    out.append(body);
    out.append("</article>\n</body></html>\n");
    assert(out@ =~= print_fixture_html_of(css@, body@));
    out
}

// ---------------------------------------------------------------------------
// Laws
// ---------------------------------------------------------------------------

proof fn lemma_parse_flags_no_conflict(args: Seq<Seq<char>>, i: int, acc: RenderArgsView)
    ensures
        parse_flags(args, i, acc) matches Ok(a) ==> !(a.no_custom_css && a.custom_css is Some),
    decreases args.len() - i,
{
    if 0 <= i < args.len() {
        let a = args[i];
        if a == "--link-dir"@ || a == "--css"@ || a == "--custom-css"@ {
            if i + 1 < args.len() {
                let v = Some(args[i + 1]);
                let next = if a == "--link-dir"@ {
                    RenderArgsView { link_dir: v, ..acc }
                } else if a == "--css"@ {
                    RenderArgsView { css_path: v, ..acc }
                } else {
                    RenderArgsView { custom_css: v, ..acc }
                };
                lemma_parse_flags_no_conflict(args, i + 2, next);
            }
        } else if a == "--no-custom-css"@ {
            lemma_parse_flags_no_conflict(args, i + 1, RenderArgsView { no_custom_css: true, ..acc });
        } else if a == "--no-doc-css"@ {
            lemma_parse_flags_no_conflict(args, i + 1, RenderArgsView { no_doc_css: true, ..acc });
        }
    }
}

/// `--custom-css` and `--no-custom-css` are mutually exclusive: no accepted
/// command line holds both.
pub proof fn law_custom_css_flags_exclusive(args: Seq<Seq<char>>)
    ensures
        parse_render_args_of(args) matches Ok(a) ==> !(a.no_custom_css && a.custom_css is Some),
{
    if args.len() >= 3 {
        lemma_parse_flags_no_conflict(
            args,
            3,
            RenderArgsView {
                md_path: args[1],
                out_path: args[2],
                link_dir: None,
                css_path: None,
                custom_css: None,
                no_custom_css: false,
                no_doc_css: false,
            },
        );
    }
}

/// Each overlay is emitted exactly when it is given, independently of the
/// other: the base sheet, then the user's sheet if any, then the document's
/// own sheet if any, right before `</head>`.
pub proof fn law_each_overlay_emitted_when_given(
    base: Seq<char>,
    title: Seq<char>,
    css: Seq<char>,
    custom_css: Option<Seq<char>>,
    document_css: Option<Seq<char>>,
    body: Seq<char>,
)
    ensures
        ({
            let head = "<!doctype html>\n<html lang=\"en\"><head>\n<meta charset=\"UTF-8\">\n<base href=\""@
                + base + "\">\n<title>"@ + title + "</title>\n<style>"@ + css + "</style>\n"@;
            let user = match custom_css {
                Some(u) => "<style>"@ + u + "</style>\n"@,
                None => Seq::<char>::empty(),
            };
            let doc = match document_css {
                Some(d) => "<style>"@ + d + "</style>\n"@,
                None => Seq::<char>::empty(),
            };
            document_html_of(base, title, css, custom_css, document_css, body) == head + user + doc
                + "</head><body>\n<article id=\"content\" class=\"md-rendered\" style=\"display:block\">"@
                + body + "</article>\n</body></html>\n"@
        }),
{
}

proof fn lemma_flag_literals_distinct()
    ensures
        "--no-doc-css"@ != "--link-dir"@,
        "--no-doc-css"@ != "--css"@,
        "--no-doc-css"@ != "--custom-css"@,
        "--no-doc-css"@ != "--no-custom-css"@,
        "--no-custom-css"@ != "--link-dir"@,
        "--no-custom-css"@ != "--css"@,
        "--no-custom-css"@ != "--custom-css"@,
{
    reveal_strlit("--no-doc-css");
    reveal_strlit("--no-custom-css");
    reveal_strlit("--link-dir");
    reveal_strlit("--css");
    reveal_strlit("--custom-css");
    assert("--no-doc-css"@[2] != "--custom-css"@[2]);
    assert("--no-doc-css"@.len() != "--no-custom-css"@.len());
    assert("--no-custom-css"@.len() != "--link-dir"@.len());
    assert("--no-custom-css"@.len() != "--css"@.len());
    assert("--no-custom-css"@.len() != "--custom-css"@.len());
}

/// Without `--no-doc-css` among the arguments the document's stylesheet is
/// kept, and without `--no-custom-css` the user's overlay is not dropped.
proof fn lemma_flag_absent(args: Seq<Seq<char>>, i: int, acc: RenderArgsView)
    requires
        3 <= i,
    ensures
        (forall|j: int| i <= j < args.len() ==> args[j] != "--no-doc-css"@) && !acc.no_doc_css
            ==> (parse_flags(args, i, acc) matches Ok(a) ==> !a.no_doc_css),
        (forall|j: int| i <= j < args.len() ==> args[j] != "--no-custom-css"@)
            && !acc.no_custom_css ==> (parse_flags(args, i, acc) matches Ok(a) ==> !a.no_custom_css),
    decreases args.len() - i,
{
    if i < args.len() {
        let a = args[i];
        if a == "--link-dir"@ || a == "--css"@ || a == "--custom-css"@ {
            if i + 1 < args.len() {
                let v = Some(args[i + 1]);
                let next = if a == "--link-dir"@ {
                    RenderArgsView { link_dir: v, ..acc }
                } else if a == "--css"@ {
                    RenderArgsView { css_path: v, ..acc }
                } else {
                    RenderArgsView { custom_css: v, ..acc }
                };
                lemma_flag_absent(args, i + 2, next);
            }
        } else if a == "--no-custom-css"@ {
            lemma_flag_absent(args, i + 1, RenderArgsView { no_custom_css: true, ..acc });
        } else if a == "--no-doc-css"@ {
            lemma_flag_absent(args, i + 1, RenderArgsView { no_doc_css: true, ..acc });
        }
    }
}

/// Each of `--no-doc-css` and `--no-custom-css` sets only its own field: on
/// an accepted command line a field is set only when its own flag is there.
pub proof fn law_each_flag_sets_its_own_field(args: Seq<Seq<char>>)
    ensures
        parse_render_args_of(args) matches Ok(a) ==> (a.no_doc_css ==> exists|j: int|
            3 <= j < args.len() && args[j] == "--no-doc-css"@),
        parse_render_args_of(args) matches Ok(a) ==> (a.no_custom_css ==> exists|j: int|
            3 <= j < args.len() && args[j] == "--no-custom-css"@),
{
    if args.len() >= 3 {
        lemma_flag_absent(
            args,
            3,
            RenderArgsView {
                md_path: args[1],
                out_path: args[2],
                link_dir: None,
                css_path: None,
                custom_css: None,
                no_custom_css: false,
                no_doc_css: false,
            },
        );
    }
}

/// The state after appending the flag `f` to a command line that parsed to `a`.
pub open spec fn with_flag(a: RenderArgsView, f: Seq<char>) -> RenderArgsView {
    if f == "--no-doc-css"@ {
        RenderArgsView { no_doc_css: true, ..a }
    } else {
        RenderArgsView { no_custom_css: true, ..a }
    }
}

proof fn lemma_append_flag(
    args: Seq<Seq<char>>,
    i: int,
    acc: RenderArgsView,
    f: Seq<char>,
    a: RenderArgsView,
)
    requires
        3 <= i <= args.len(),
        parse_flags(args, i, acc) == Ok::<RenderArgsView, UsageErrorView>(a),
        f == "--no-doc-css"@ || (f == "--no-custom-css"@ && a.custom_css is None),
    ensures
        parse_flags(args.push(f), i, acc) == Ok::<RenderArgsView, UsageErrorView>(with_flag(a, f)),
    decreases args.len() - i,
{
    lemma_flag_literals_distinct();
    let ext = args.push(f);
    assert(ext[args.len() as int] == f);
    if i == args.len() {
        assert(a == acc);
        if f == "--no-doc-css"@ {
            assert(parse_flags(ext, i + 1, RenderArgsView { no_doc_css: true, ..acc }) == Ok::<
                RenderArgsView,
                UsageErrorView,
            >(RenderArgsView { no_doc_css: true, ..acc }));
        } else {
            assert(parse_flags(ext, i + 1, RenderArgsView { no_custom_css: true, ..acc }) == Ok::<
                RenderArgsView,
                UsageErrorView,
            >(RenderArgsView { no_custom_css: true, ..acc }));
        }
    } else {
        let x = args[i];
        assert(ext[i] == x);
        if x == "--link-dir"@ || x == "--css"@ || x == "--custom-css"@ {
            assert(i + 1 < args.len());
            assert(ext[i + 1] == args[i + 1]);
            let v = Some(args[i + 1]);
            let next = if x == "--link-dir"@ {
                RenderArgsView { link_dir: v, ..acc }
            } else if x == "--css"@ {
                RenderArgsView { css_path: v, ..acc }
            } else {
                RenderArgsView { custom_css: v, ..acc }
            };
            lemma_append_flag(args, i + 2, next, f, a);
        } else if x == "--no-custom-css"@ {
            lemma_append_flag(args, i + 1, RenderArgsView { no_custom_css: true, ..acc }, f, a);
        } else if x == "--no-doc-css"@ {
            lemma_append_flag(args, i + 1, RenderArgsView { no_doc_css: true, ..acc }, f, a);
        }
    }
}

/// Appending `--no-doc-css` to an accepted command line sets `no_doc_css`
/// and nothing else; appending `--no-custom-css` (when no `--custom-css` was
/// given) sets `no_custom_css` and nothing else.
pub proof fn law_appended_flag_sets_only_its_field(args: Seq<Seq<char>>, a: RenderArgsView)
    requires
        parse_render_args_of(args) == Ok::<RenderArgsView, UsageErrorView>(a),
    ensures
        parse_render_args_of(args.push("--no-doc-css"@)) == Ok::<RenderArgsView, UsageErrorView>(
            RenderArgsView { no_doc_css: true, ..a },
        ),
        a.custom_css is None ==> parse_render_args_of(args.push("--no-custom-css"@)) == Ok::<
            RenderArgsView,
            UsageErrorView,
        >(RenderArgsView { no_custom_css: true, ..a }),
{
    lemma_flag_literals_distinct();
    let acc = RenderArgsView {
        md_path: args[1],
        out_path: args[2],
        link_dir: None,
        css_path: None,
        custom_css: None,
        no_custom_css: false,
        no_doc_css: false,
    };
    let e1 = args.push("--no-doc-css"@);
    assert(e1[1] == args[1] && e1[2] == args[2]);
    lemma_append_flag(args, 3, acc, "--no-doc-css"@, a);
    if a.custom_css is None {
        let e2 = args.push("--no-custom-css"@);
        assert(e2[1] == args[1] && e2[2] == args[2]);
        lemma_append_flag(args, 3, acc, "--no-custom-css"@, a);
    }
}

/// The three stylesheets appear in cascade order: the base sheet, then the
/// user overlay, then the document's own sheet, each before the body.
pub proof fn law_stylesheets_in_cascade_order(
    base: Seq<char>,
    title: Seq<char>,
    css: Seq<char>,
    custom_css: Seq<char>,
    document_css: Seq<char>,
    body: Seq<char>,
)
    ensures
        ({
            let head = "<!doctype html>\n<html lang=\"en\"><head>\n<meta charset=\"UTF-8\">\n<base href=\""@
                + base + "\">\n<title>"@ + title + "</title>\n"@;
            document_html_of(base, title, css, Some(custom_css), Some(document_css), body) == head
                + "<style>"@ + css + "</style>\n"@ + "<style>"@ + custom_css + "</style>\n"@
                + "<style>"@ + document_css + "</style>\n"@
                + "</head><body>\n<article id=\"content\" class=\"md-rendered\" style=\"display:block\">"@
                + body + "</article>\n</body></html>\n"@
        }),
{
    reveal_strlit("</title>\n<style>");
    reveal_strlit("</title>\n");
    reveal_strlit("<style>");
    assert("</title>\n<style>"@ =~= "</title>\n"@ + "<style>"@);
    let head = "<!doctype html>\n<html lang=\"en\"><head>\n<meta charset=\"UTF-8\">\n<base href=\""@
        + base + "\">\n<title>"@ + title + "</title>\n"@;
    assert(document_html_of(base, title, css, Some(custom_css), Some(document_css), body) =~= head
        + "<style>"@ + css + "</style>\n"@ + "<style>"@ + custom_css + "</style>\n"@ + "<style>"@
        + document_css + "</style>\n"@
        + "</head><body>\n<article id=\"content\" class=\"md-rendered\" style=\"display:block\">"@
        + body + "</article>\n</body></html>\n"@);
}

} // verus!
