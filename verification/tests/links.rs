use monocle::links::{encode_path_for_url, rewrite_md_links, rewrite_one};

#[test]
fn rewrites_plain_md_link_beside_source() {
    assert_eq!(rewrite_one("guide.md", None), "guide.md.pdf");
    assert_eq!(rewrite_one("../a/guide.markdown", None), "../a/guide.markdown.pdf");
}

#[test]
fn keeps_fragment_on_rewrite() {
    assert_eq!(rewrite_one("guide.md#intro", None), "guide.md.pdf#intro");
}

#[test]
fn leaves_non_md_alone() {
    assert_eq!(rewrite_one("https://example.com/x.md", None), "https://example.com/x.md");
    assert_eq!(rewrite_one("#section", None), "#section");
    assert_eq!(rewrite_one("mailto:a@b.com", None), "mailto:a@b.com");
    assert_eq!(rewrite_one("/abs/path.md", None), "/abs/path.md");
    assert_eq!(rewrite_one("photo.png", None), "photo.png");
}

#[test]
fn already_pdf_link_is_a_doc_target() {
    // beside-source: kept as-is (relative)
    assert_eq!(rewrite_one("already.md.pdf", None), "already.md.pdf");
    // with a link dir: pointed into it by file name
    assert_eq!(
        rewrite_one("already.md.pdf", Some("/out/pdf")),
        "file:///out/pdf/already.md.pdf"
    );
}

#[test]
fn link_dir_makes_absolute_target_by_filename() {
    assert_eq!(
        rewrite_one("guide.md#x", Some("/out/pdf")),
        "file:///out/pdf/guide.md.pdf#x"
    );
    // nested relative path collapses to the flat output file name
    assert_eq!(
        rewrite_one("../sub/guide.md", Some("/out/pdf")),
        "file:///out/pdf/guide.md.pdf"
    );
    // non-doc links are still untouched even with a link dir
    assert_eq!(rewrite_one("photo.png", Some("/out/pdf")), "photo.png");
}

#[test]
fn rewrites_inside_anchor_tag() {
    let got = rewrite_md_links(r##"<a href="g.md">x</a> <a href="#a">y</a>"##, None);
    assert_eq!(got, r##"<a href="g.md.pdf">x</a> <a href="#a">y</a>"##);
}

#[test]
fn extension_match_ignores_case() {
    assert_eq!(rewrite_one("Guide.MD", None), "Guide.MD.pdf");
    assert_eq!(rewrite_one("Notes.Markdown#top", None), "Notes.Markdown.pdf#top");
    assert_eq!(rewrite_one("Old.MD.PDF", Some("/o")), "file:///o/Old.MD.PDF");
}

#[test]
fn other_schemes_and_tel_are_untouched() {
    assert_eq!(rewrite_one("tel:+123.md", None), "tel:+123.md");
    assert_eq!(rewrite_one("file:///x/y.md", None), "file:///x/y.md");
    assert_eq!(rewrite_one("", None), "");
    assert_eq!(rewrite_one("#x.md", Some("/o")), "#x.md");
}

#[test]
fn link_dir_is_percent_encoded() {
    assert_eq!(
        rewrite_one("a b.md", Some("/my docs/#1?%")),
        "file:///my%20docs/%231%3F%25/a b.md.pdf"
    );
}

#[test]
fn rewriting_twice_changes_nothing_more() {
    for v in ["guide.md", "a/b.markdown#x", "c.md.pdf", "x.png", "http://e/x.md", "#h", ""] {
        for d in [None, Some("/out/pdf"), Some("/a b")] {
            let once = rewrite_one(v, d);
            assert_eq!(rewrite_one(&once, d), once);
        }
    }
}

#[test]
fn pdf_link_and_md_link_name_the_same_target() {
    for d in [None, Some("/out")] {
        assert_eq!(rewrite_one("x/y.md.pdf#f", d), rewrite_one("x/y.md#f", d));
        assert_eq!(rewrite_one("Y.MARKDOWN.pdf", d), rewrite_one("Y.MARKDOWN", d));
    }
}

#[test]
fn page_without_href_is_unchanged() {
    let html = "<p>see guide.md and <img src=\"a.md\"></p>";
    assert_eq!(rewrite_md_links(html, Some("/out")), html);
}

#[test]
fn unterminated_href_is_kept_verbatim() {
    let html = "<a href=\"g.md\">x</a><a href=\"h.md";
    assert_eq!(rewrite_md_links(html, None), "<a href=\"g.md.pdf\">x</a><a href=\"h.md");
}

#[test]
fn several_links_with_link_dir() {
    let html = "<a href=\"a.md\">1</a><img src=\"p.png\"><a href=\"sub/b.md#q\">2</a>";
    assert_eq!(
        rewrite_md_links(html, Some("/o")),
        "<a href=\"file:///o/a.md.pdf\">1</a><img src=\"p.png\"><a href=\"file:///o/b.md.pdf#q\">2</a>"
    );
}

#[test]
fn encodes_only_the_url_breaking_characters() {
    assert_eq!(encode_path_for_url("/a b/c#d?e%f/ü"), "/a%20b/c%23d%3Fe%25f/ü");
    assert_eq!(encode_path_for_url(""), "");
    assert_eq!(encode_path_for_url("/plain/path"), "/plain/path");
}

#[test]
fn link_dir_target_depends_on_the_file_name_only() {
    for v in ["guide.md#x", "a/b/guide.md#x", "../guide.md#x", "sub/dir/guide.md.pdf#x"] {
        assert_eq!(rewrite_one(v, Some("/out")), "file:///out/guide.md.pdf#x");
    }
}

#[test]
fn page_rewrite_changes_only_href_values_and_settles() {
    let html = "<p>x</p><a href=\"a.md\">a</a> text <a href=\"p.png\">p</a><a href=\"s/b.md#q\">b</a>";
    for d in [None, Some("/o"), Some("/my dir")] {
        let once = rewrite_md_links(html, d);
        let expect = format!(
            "<p>x</p><a href=\"{}\">a</a> text <a href=\"{}\">p</a><a href=\"{}\">b</a>",
            rewrite_one("a.md", d),
            rewrite_one("p.png", d),
            rewrite_one("s/b.md#q", d)
        );
        assert_eq!(once, expect);
        assert_eq!(rewrite_md_links(&once, d), once);
    }
}
