use monocle::frontmatter::{join_with_doc_dir, doc_css_path, front_matter_css, resolve_doc_css, resolve_doc_css_for};
use std::path::Path;

#[test]
fn reads_css_key_from_front_matter() {
    assert_eq!(
        front_matter_css("---\ntitle: X\ncss: ./house.css\n---\n\n# H\n").as_deref(),
        Some("./house.css")
    );
    assert_eq!(
        front_matter_css("---\r\ncss: a.css\r\n---\r\n").as_deref(),
        Some("a.css")
    );
    // quoted, and with a trailing comment
    assert_eq!(
        front_matter_css("---\ncss: \"my sheet.css\"\n---\n").as_deref(),
        Some("my sheet.css")
    );
    assert_eq!(
        front_matter_css("---\ncss: a.css  # the house style\n---\n").as_deref(),
        Some("a.css")
    );
}

#[test]
fn ignores_css_that_is_not_top_level_front_matter() {
    // no front matter at all
    assert_eq!(front_matter_css("# H\n\ncss: a.css\n"), None);
    // front matter without the key
    assert_eq!(front_matter_css("---\ntitle: X\n---\n"), None);
    // nested under another key
    assert_eq!(front_matter_css("---\ntheme:\n  css: a.css\n---\n"), None);
    // after the block has closed
    assert_eq!(front_matter_css("---\ntitle: X\n---\ncss: a.css\n"), None);
    // empty value
    assert_eq!(front_matter_css("---\ncss:\n---\n"), None);
    // a leading `---` with no closing fence is a thematic break, not metadata
    assert_eq!(front_matter_css("---\n\nBody\n"), None);
}

#[test]
fn resolves_doc_css_against_the_document_not_the_cwd() {
    let doc = "/docs/guide/a.md";
    assert_eq!(
        Path::new(&resolve_doc_css(doc, "./house.css").unwrap()),
        Path::new("/docs/guide/./house.css")
    );
    assert_eq!(
        Path::new(&resolve_doc_css(doc, "../shared/x.css").unwrap()),
        Path::new("/docs/guide/../shared/x.css")
    );
    assert_eq!(
        Path::new(&resolve_doc_css(doc, "/abs/x.css").unwrap()),
        Path::new("/abs/x.css")
    );
    assert!(Path::new(&resolve_doc_css(doc, "~/x.css").unwrap()).is_absolute());
}

#[test]
fn refuses_doc_css_that_is_not_a_stylesheet() {
    let doc = "/docs/a.md";
    assert_eq!(resolve_doc_css(doc, "/etc/passwd"), None);
    assert_eq!(resolve_doc_css(doc, "~/.ssh/id_rsa"), None);
    assert_eq!(resolve_doc_css(doc, "../../secrets.env"), None);
    // case-insensitive on the extension
    assert!(resolve_doc_css(doc, "House.CSS").is_some());
}

#[test]
fn other_quoting_and_markers() {
    assert_eq!(front_matter_css("---\ncss: 'single.css'\n---\n").as_deref(), Some("single.css"));
    // a `#` inside quotes is kept
    assert_eq!(front_matter_css("---\ncss: \"a#b.css\"\n---\n").as_deref(), Some("a#b.css"));
    // unmatched quote is kept as written
    assert_eq!(front_matter_css("---\ncss: \"a.css\n---\n").as_deref(), Some("\"a.css"));
    // `...` closes the block too
    assert_eq!(front_matter_css("---\ntitle: X\n...\ncss: a.css\n"), None);
    // a tab-indented key is nested
    assert_eq!(front_matter_css("---\n\tcss: a.css\n---\n"), None);
    // the first css key wins
    assert_eq!(front_matter_css("---\ncss: a.css\ncss: b.css\n---\n").as_deref(), Some("a.css"));
    // only a comment: empty value
    assert_eq!(front_matter_css("---\ncss: # nothing\n---\n"), None);
    // the opening fence may carry trailing whitespace, but must start the line
    assert_eq!(front_matter_css("--- \t\ncss: a.css\n---\n").as_deref(), Some("a.css"));
    assert_eq!(front_matter_css(" ---\ncss: a.css\n---\n"), None);
    assert_eq!(front_matter_css("----\ncss: a.css\n---\n"), None);
    // an unclosed block is a thematic break, not metadata
    assert_eq!(front_matter_css("---\ncss: a.css"), None);
    assert_eq!(front_matter_css("---\ncss: a.css\n"), None);
    assert_eq!(front_matter_css("---\ncss: a.css\n----\n"), None);
    // whitespace around the value, and a closing fence with trailing spaces
    assert_eq!(front_matter_css("---\ntitle: x\n---   \ncss: a.css\n"), None);
    assert_eq!(front_matter_css("---\ncss:   spaced.css \t\n---\n").as_deref(), Some("spaced.css"));
    // the key must be written exactly
    assert_eq!(front_matter_css("---\nCSS: a.css\n---\n"), None);
}

#[test]
fn resolving_with_a_known_home() {
    assert_eq!(
        resolve_doc_css_for("/d/a.md", "~/s/x.css", Some("/home/u")).as_deref(),
        Some("/home/u/s/x.css")
    );
    assert_eq!(resolve_doc_css_for("/d/a.md", "~/x.css", None).as_deref(), Some("./x.css"));
    assert_eq!(resolve_doc_css_for("a.md", "x.css", None).as_deref(), Some("x.css"));
    assert_eq!(resolve_doc_css_for("/d/a.md", "x.txt", Some("/h")), None);
}

#[test]
fn doc_css_path_reads_front_matter_then_resolves() {
    assert_eq!(
        doc_css_path("/docs/a.md", "---\ncss: house.css\n---\n# T\n").as_deref(),
        Some("/docs/house.css")
    );
    assert_eq!(doc_css_path("/docs/a.md", "---\ncss: house.txt\n---\n"), None);
    assert_eq!(doc_css_path("/docs/a.md", "# T\n"), None);
}

#[test]
fn unicode_whitespace_is_trimmed_like_str_trim() {
    assert_eq!(
        front_matter_css("---\ncss:\u{a0}a.css\u{3000}\u{85}\n---\n").as_deref(),
        Some("a.css")
    );
    // a value of whitespace only is empty
    assert_eq!(front_matter_css("---\ncss: \u{2003}\n---\n"), None);
}

#[test]
fn only_blocks_that_markdown_reads_as_metadata_count() {
    // an empty block is no block
    assert_eq!(front_matter_css("---\n---\ncss: a.css\n---\n"), None);
    // the first block line may not be blank
    assert_eq!(front_matter_css("---\n   \ncss: a.css\n---\n"), None);
    // a fence followed by a tab does not close the block
    assert_eq!(
        front_matter_css("---\ntitle: X\n---\t\ncss: a.css\n---\n").as_deref(),
        Some("a.css")
    );
    // a fence followed by spaces does
    assert_eq!(front_matter_css("---\ntitle: X\n---  \ncss: a.css\n---\n"), None);
    // `...` closes it as well
    assert_eq!(front_matter_css("---\ncss: a.css\n...\n").as_deref(), Some("a.css"));
    // a closing line at the very end without a line feed
    assert_eq!(front_matter_css("---\ncss: a.css\n---").as_deref(), Some("a.css"));
}

#[test]
fn resolved_stylesheets_are_css_files() {
    for value in ["./a.css", "~/b.CSS", "/abs/c.Css", "../d.css", "~//e.css"] {
        let p = resolve_doc_css("/docs/x.md", value).unwrap();
        assert!(p.to_ascii_lowercase().ends_with(".css"), "{}", p);
    }
    assert_eq!(resolve_doc_css_for("/d/a.md", "~//e.css", Some("/h")).as_deref(), Some("/e.css"));
}

#[test]
fn relative_stylesheets_join_the_document_directory() {
    assert_eq!(join_with_doc_dir(Some("/docs"), "a.css"), "/docs/a.css");
    assert_eq!(join_with_doc_dir(Some(""), "a.css"), "a.css");
    assert_eq!(join_with_doc_dir(None, "a.css"), "./a.css");
}
