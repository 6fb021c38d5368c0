use blog_parser::date::Date;
use blog_parser::parser::{braw_to_blog, Blog, Meta};
use blog_parser::render::{IndexError, LineError, parse_a_line};

fn plain_blog(lines: Vec<&str>) -> Blog {
    Blog {
        title: "post".to_string(),
        thumbnail: None,
        lines: lines.into_iter().map(|l| l.to_string()).collect(),
        meta: Meta {
            date: Date { year: 2024, month: 1, day: 15 },
            author: "Unknown".to_string(),
        },
    }
}

#[test]
fn heading_lines() {
    assert_eq!(
        parse_a_line("# Hello", "out", "foo"),
        Ok("<h2 class=\"heading\">Hello</h2>".to_string())
    );
    assert_eq!(
        parse_a_line("## Hello", "out", "foo"),
        Ok("<h3 class=\"subheading\">Hello</h3>".to_string())
    );
    assert_eq!(
        parse_a_line("#", "out", "foo"),
        Ok("<h2 class=\"heading\"></h2>".to_string())
    );
}

#[test]
fn paragraph_line() {
    assert_eq!(
        parse_a_line("  just text  ", "out", "foo"),
        Ok("<p>just text</p>".to_string())
    );
}

#[test]
fn image_line_gets_relative_path() {
    assert_eq!(
        parse_a_line("!img pic.png", "out", "foo"),
        Ok("<img class=\"image\" src=\"../foo/pic.png\">".to_string())
    );
}

#[test]
fn directive_errors() {
    assert_eq!(parse_a_line("!img", "out", "foo"), Err(LineError::MissingArgument));
    assert_eq!(parse_a_line("!video clip.mp4", "out", "foo"), Err(LineError::UnknownDirective));
}

#[test]
fn late_meta_line_is_an_ordinary_directive_line() {
    assert_eq!(
        parse_a_line("!meta:author Jane", "out", "foo"),
        Err(LineError::UnknownDirective)
    );
}

#[test]
fn empty_source_renders_empty() {
    let blog = match braw_to_blog("", "a/b.braw", Date { year: 2023, month: 1, day: 2 }) {
        Ok(b) => b,
        Err(_) => panic!("expected a document"),
    };
    assert!(blog.lines.is_empty());
    assert_eq!(blog.generate_overview(100), "");
    let page = blog
        .to_html("out", "a", "X<!-- Insert Content Here -->Y")
        .expect("a page");
    assert_eq!(page, "XY");
}

#[test]
fn page_is_substituted_into_template() {
    let blog = plain_blog(vec!["# T", "hi"]);
    let page = blog
        .to_html("out", "foo", "<html><!-- Insert Content Here --></html>")
        .expect("a page");
    assert_eq!(page, "<html><h2 class=\"heading\">T</h2>\n<p>hi</p></html>");
}

#[test]
fn template_without_marker_passes_through() {
    let blog = plain_blog(vec!["hi"]);
    let page = blog.to_html("out", "foo", "<html></html>").expect("a page");
    assert_eq!(page, "<html></html>");
}

#[test]
fn page_error_names_the_line() {
    let blog = plain_blog(vec!["fine", "!broken"]);
    let err = match blog.to_html("out", "foo", "<!-- Insert Content Here -->") {
        Err(e) => e,
        Ok(_) => panic!("expected an error"),
    };
    assert_eq!(err.line, 1);
    assert_eq!(err.kind, LineError::MissingArgument);
}

#[test]
fn overview_keeps_exact_length() {
    let text = "a".repeat(100);
    let blog = plain_blog(vec![text.as_str()]);
    assert_eq!(blog.generate_overview(100), text);
}

#[test]
fn overview_cuts_and_marks() {
    let text = "a".repeat(101);
    let blog = plain_blog(vec![text.as_str()]);
    let expected = format!("{}\u{2025}\u{2025}", "a".repeat(100));
    assert_eq!(blog.generate_overview(100), expected);
}

#[test]
fn overview_counts_characters_not_bytes() {
    let mut text = "a".repeat(99);
    text.push('\u{3042}');
    text.push('\u{3044}');
    let blog = plain_blog(vec![text.as_str()]);
    let expected = format!("{}\u{3042}\u{2025}\u{2025}", "a".repeat(99));
    assert_eq!(blog.generate_overview(100), expected);
}

#[test]
fn overview_strips_directives_and_heading_marks() {
    let blog = plain_blog(vec!["# Head", "!img x.png", "text"]);
    assert_eq!(blog.generate_overview(100), "Head\ntext");
}

#[test]
fn index_entry_end_to_end() {
    let blog = match braw_to_blog(
        "!meta:date 2024/01/15\n!meta:author Jane\n# Title\nSome text",
        "blogs_raw/post/post.braw",
        Date { year: 2020, month: 1, day: 1 },
    ) {
        Ok(b) => b,
        Err(_) => panic!("expected a document"),
    };
    assert_eq!(blog.title, "post");
    assert_eq!(blog.meta.author, "Jane");

    let page = blog
        .to_html("out", "blogs_raw/post", "<!-- Insert Content Here -->")
        .expect("a page");
    assert_eq!(page, "<h2 class=\"heading\">Title</h2>\n<p>Some text</p>");

    let entry = blog.get_index("out", "out/post.html").expect("an entry");
    let expected = format!(
        "<div class=\"blog_container\">\n<img class=\"blog_thumbnail\" src=\"../assets/no_image.png\">\n<div>\n<a class=\"blog_title\" href=\"post.html\">post</a>\n<p class=\"date\">2024\u{5e74}01\u{6708}15\u{65e5}</p>\n<p>Title\nSome text</p>\n</div>\n</div>"
    );
    assert_eq!(entry, expected);
}

#[test]
fn index_entry_uses_thumbnail() {
    let mut blog = plain_blog(vec!["hi"]);
    blog.thumbnail = Some("foo/pic.png".to_string());
    let entry = blog.get_index("out", "out/post.html").expect("an entry");
    assert!(entry.contains("<img class=\"blog_thumbnail\" src=\"../foo/pic.png\">"));
}

#[test]
fn index_entry_with_unresolvable_thumbnail() {
    let mut blog = plain_blog(vec!["hi"]);
    blog.thumbnail = Some("pic.png".to_string());
    match blog.get_index("/abs/out", "/abs/out/post.html") {
        Err(e) => assert_eq!(e, IndexError::ThumbnailUnresolvable),
        Ok(_) => panic!("expected an error"),
    }
}
