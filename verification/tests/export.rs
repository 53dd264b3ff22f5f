use monocle::export::{
    page_base_for, print_fixture_html,
    base_href, document_html, export_body, page_base, page_title, parse_render_args,
    user_css_source, wants_doc_css, RenderArgs, UsageError, UserCssSource,
};
use monocle::markdown::{render_body, render_to_html};
use monocle::paths::{custom_css_path, custom_css_path_for};
use std::path::PathBuf;

fn args(list: &[&str]) -> Vec<String> {
    list.iter().map(|s| s.to_string()).collect()
}

fn parsed(list: &[&str]) -> RenderArgs {
    match parse_render_args(&args(list)) {
        Ok(a) => a,
        Err(_) => panic!("refused: {:?}", list),
    }
}

/// The viewer looks in `~/.config/monocle/custom.css`; if this drifted the
/// PDF would silently pick up a different file, or none.
#[test]
fn custom_css_path_matches_the_viewer() {
    let p = PathBuf::from(custom_css_path());
    assert!(
        p.ends_with(".config/monocle/custom.css"),
        "unexpected custom css path: {}",
        p.display()
    );
    assert!(p.is_absolute() || p.starts_with("."), "{}", p.display());
    assert_eq!(p.parent().unwrap().file_name().unwrap(), "monocle");
    assert_eq!(
        p.parent().unwrap().parent().unwrap().file_name().unwrap(),
        ".config"
    );
}

#[test]
fn custom_css_path_for_a_given_home() {
    assert_eq!(custom_css_path_for(Some("/home/u")), "/home/u/.config/monocle/custom.css");
    assert_eq!(custom_css_path_for(Some("/home/u/")), "/home/u/.config/monocle/custom.css");
    assert_eq!(custom_css_path_for(None), "./.config/monocle/custom.css");
    assert!(custom_css_path().ends_with("/.config/monocle/custom.css"));
}

#[test]
fn renders_markdown_with_the_viewer_options() {
    assert_eq!(render_to_html("# H\n"), "<h1>H</h1>\n");
    assert_eq!(render_to_html("~~x~~\n"), "<p><del>x</del></p>\n");
    let table = render_to_html("| a |\n|---|\n| b |\n");
    assert!(table.contains("<table>"), "{}", table);
    // front matter is metadata in the viewer as in the exporter
    assert_eq!(render_to_html("---\ntitle: X\n---\n"), "");
    for md in ["---\ntitle: X\n---\n# T\n", "---\n\nBody\n", "| a |\n|---|\n| b |\n"] {
        assert_eq!(render_to_html(md), render_body(md));
    }
}

#[test]
fn export_strips_the_metadata_block() {
    let html = render_body("---\ncss: a.css\n---\n\n# T\n");
    assert_eq!(html, "<h1>T</h1>\n");
    assert_eq!(render_body("# H\n"), "<h1>H</h1>\n");
}

#[test]
fn export_body_rewrites_rendered_links() {
    assert_eq!(
        export_body("[g](guide.md)\n", None),
        "<p><a href=\"guide.md.pdf\">g</a></p>\n"
    );
    assert_eq!(
        export_body("[g](guide.md#s)\n", Some("/o")),
        "<p><a href=\"file:///o/guide.md.pdf#s\">g</a></p>\n"
    );
}

#[test]
fn parses_paths_and_flags() {
    let a = parsed(&["render_html", "in.md", "out.html"]);
    assert_eq!(a.md_path, "in.md");
    assert_eq!(a.out_path, "out.html");
    assert_eq!(a.link_dir, None);
    assert!(!a.no_custom_css && !a.no_doc_css);
    let a = parsed(&[
        "r", "in.md", "out.html", "--link-dir", "/o", "--css", "b.css", "--custom-css", "u.css",
        "--no-doc-css", "--link-dir", "/p",
    ]);
    assert_eq!(a.link_dir.as_deref(), Some("/p"));
    assert_eq!(a.css_path.as_deref(), Some("b.css"));
    assert_eq!(a.custom_css.as_deref(), Some("u.css"));
    assert!(a.no_doc_css);
    assert!(!wants_doc_css(&a));
}

#[test]
fn refuses_bad_command_lines() {
    assert!(matches!(parse_render_args(&args(&["r", "in.md"])), Err(UsageError::TooFewArguments)));
    match parse_render_args(&args(&["r", "a", "b", "--css"])) {
        Err(UsageError::MissingValue(f)) => assert_eq!(f, "--css"),
        _ => panic!("expected a missing value"),
    }
    match parse_render_args(&args(&["r", "a", "b", "--bogus"])) {
        Err(UsageError::UnknownArgument(f)) => assert_eq!(f, "--bogus"),
        _ => panic!("expected an unknown argument"),
    }
    assert!(matches!(
        parse_render_args(&args(&["r", "a", "b", "--custom-css", "u.css", "--no-custom-css"])),
        Err(UsageError::ConflictingCustomCss)
    ));
    // an unknown argument is reported before the conflict
    assert!(matches!(
        parse_render_args(&args(&["r", "a", "b", "--no-custom-css", "--custom-css", "u", "-x"])),
        Err(UsageError::UnknownArgument(_))
    ));
}

#[test]
fn user_overlay_follows_the_flags() {
    assert!(matches!(user_css_source(&parsed(&["r", "a", "b"])), UserCssSource::Default));
    assert!(matches!(
        user_css_source(&parsed(&["r", "a", "b", "--no-custom-css"])),
        UserCssSource::Off
    ));
    assert!(matches!(
        user_css_source(&parsed(&["r", "a", "b", "--css", "x.css"])),
        UserCssSource::Off
    ));
    match user_css_source(&parsed(&["r", "a", "b", "--css", "x.css", "--custom-css", "u.css"])) {
        UserCssSource::Named(p) => assert_eq!(p, "u.css"),
        _ => panic!("expected the named overlay"),
    }
}

#[test]
fn page_base_and_title_come_from_the_source() {
    assert_eq!(base_href("/my docs/x#1"), "file:///my%20docs/x%231/");
    assert_eq!(page_base("/docs/guide/a b.md"), "file:///docs/guide/");
    assert_eq!(page_base("/"), "file:////");
    assert_eq!(page_title("/docs/guide/a b.md"), "a b.md");
    assert_eq!(page_title("/"), "");
}

#[test]
fn document_stacks_the_stylesheets_in_cascade_order() {
    let doc = document_html("file:///d/", "a.md", "BASE", Some("USER"), Some("DOC"), "<p>x</p>");
    assert_eq!(
        doc,
        "<!doctype html>\n<html lang=\"en\"><head>\n<meta charset=\"UTF-8\">\n\
         <base href=\"file:///d/\">\n<title>a.md</title>\n<style>BASE</style>\n\
         <style>USER</style>\n<style>DOC</style>\n</head><body>\n\
         <article id=\"content\" class=\"md-rendered\" style=\"display:block\"><p>x</p></article>\n\
         </body></html>\n"
    );
    let plain = document_html("b", "t", "c", None, None, "y");
    assert_eq!(
        plain,
        "<!doctype html>\n<html lang=\"en\"><head>\n<meta charset=\"UTF-8\">\n\
         <base href=\"b\">\n<title>t</title>\n<style>c</style>\n</head><body>\n\
         <article id=\"content\" class=\"md-rendered\" style=\"display:block\">y</article>\n\
         </body></html>\n"
    );
}

#[test]
fn page_base_for_a_given_parent() {
    assert_eq!(page_base_for(Some("/a b")), "file:///a%20b/");
    assert_eq!(page_base_for(None), "file:////");
}

#[test]
fn print_fixture_page() {
    assert_eq!(
        print_fixture_html("C", "<p>b</p>"),
        "<!doctype html>\n<html lang=\"en\"><head>\n<meta charset=\"UTF-8\">\n\
         <title>print test</title>\n<style>C</style>\n</head><body>\n\
         <article id=\"content\" class=\"md-rendered\" style=\"display:block\"><p>b</p></article>\n\
         </body></html>\n"
    );
}
