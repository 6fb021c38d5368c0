use blog_parser::date::{parse_date, format_date_slash, Date};
use blog_parser::parser::{braw_to_blog, ParseError};

fn day(year: u32, month: u32, day: u32) -> Date {
    Date { year, month, day }
}

#[test]
fn defaults_without_meta() {
    let today = day(2023, 5, 7);
    let blog = match braw_to_blog("Some text\n\nMore text\n", "a/post.braw", today) {
        Ok(b) => b,
        Err(_) => panic!("expected a document"),
    };
    assert_eq!(blog.meta.date, today);
    assert_eq!(blog.meta.author, "Unknown");
    assert_eq!(blog.title, "post");
    assert_eq!(blog.lines, vec!["Some text".to_string(), "More text".to_string()]);
    assert!(blog.thumbnail.is_none());
}

#[test]
fn meta_prefix_is_consumed() {
    let blog = match braw_to_blog(
        "!meta:date 2024/01/15\n!meta:author Jane\n# Title\nSome text",
        "blogs_raw/post/post.braw",
        day(2020, 1, 1),
    ) {
        Ok(b) => b,
        Err(_) => panic!("expected a document"),
    };
    assert_eq!(blog.meta.date, day(2024, 1, 15));
    assert_eq!(blog.meta.author, "Jane");
    assert_eq!(blog.lines, vec!["# Title".to_string(), "Some text".to_string()]);
}

#[test]
fn meta_after_content_is_content() {
    let blog = match braw_to_blog(
        "Hello\n!meta:author Jane\n",
        "a/post.braw",
        day(2023, 5, 7),
    ) {
        Ok(b) => b,
        Err(_) => panic!("expected a document"),
    };
    assert_eq!(blog.meta.author, "Unknown");
    assert_eq!(blog.lines, vec!["Hello".to_string(), "!meta:author Jane".to_string()]);
}

#[test]
fn blank_lines_are_dropped() {
    let blog = match braw_to_blog("  \n\t\nBody\n   \n", "a/b.braw", day(2023, 1, 2)) {
        Ok(b) => b,
        Err(_) => panic!("expected a document"),
    };
    assert_eq!(blog.lines, vec!["Body".to_string()]);
}

#[test]
fn wrong_extension_is_not_a_source() {
    match braw_to_blog("x", "a/post.txt", day(2023, 1, 2)) {
        Err(e) => assert_eq!(e, ParseError::NotABlogSource),
        Ok(_) => panic!("expected a rejection"),
    }
    match braw_to_blog("x", "a/braw", day(2023, 1, 2)) {
        Err(e) => assert_eq!(e, ParseError::NotABlogSource),
        Ok(_) => panic!("expected a rejection"),
    }
}

#[test]
fn meta_without_specifier_is_fatal() {
    match braw_to_blog("!meta:\ntext", "a/b.braw", day(2023, 1, 2)) {
        Err(e) => assert_eq!(e, ParseError::NoSpecifier),
        Ok(_) => panic!("expected an error"),
    }
}

#[test]
fn unknown_specifier_is_fatal() {
    match braw_to_blog("!meta:editor X\ntext", "a/b.braw", day(2023, 1, 2)) {
        Err(e) => assert_eq!(e, ParseError::UnknownSpecifier),
        Ok(_) => panic!("expected an error"),
    }
}

#[test]
fn date_without_argument_is_fatal() {
    match braw_to_blog("!meta:date\ntext", "a/b.braw", day(2023, 1, 2)) {
        Err(e) => assert_eq!(e, ParseError::MissingDateArgument),
        Ok(_) => panic!("expected an error"),
    }
}

#[test]
fn malformed_date_is_fatal() {
    match braw_to_blog("!meta:date 2024-01-15\ntext", "a/b.braw", day(2023, 1, 2)) {
        Err(e) => assert_eq!(e, ParseError::MalformedDate),
        Ok(_) => panic!("expected an error"),
    }
}

#[test]
fn author_without_argument_is_fatal() {
    match braw_to_blog("!meta:author\ntext", "a/b.braw", day(2023, 1, 2)) {
        Err(e) => assert_eq!(e, ParseError::MissingAuthorArgument),
        Ok(_) => panic!("expected an error"),
    }
}

#[test]
fn thumbnail_from_first_image_line() {
    let blog = match braw_to_blog(
        "text\n!img pic.png\n!img other.png\n",
        "foo/post.braw",
        day(2023, 1, 2),
    ) {
        Ok(b) => b,
        Err(_) => panic!("expected a document"),
    };
    assert_eq!(blog.thumbnail, Some("foo/pic.png".to_string()));
    assert_eq!(
        blog.lines,
        vec![
            "text".to_string(),
            "!img pic.png".to_string(),
            "!img other.png".to_string(),
        ]
    );
}

#[test]
fn date_token_round_trips() {
    let d = parse_date("2024/01/15").expect("a valid date");
    assert_eq!(d, day(2024, 1, 15));
    assert_eq!(format_date_slash(&d), "2024/01/15");
    let d2 = parse_date("0003/12/31").expect("a valid date");
    assert_eq!(format_date_slash(&d2), "0003/12/31");
}

#[test]
fn date_shape_is_strict() {
    assert!(parse_date("2024/1/15").is_none());
    assert!(parse_date("24/01/15").is_none());
    assert!(parse_date("2024/01/15 ").is_none());
    assert!(parse_date("2024.01.15").is_none());
}

#[test]
fn date_calendar_is_checked() {
    assert!(parse_date("2024/02/29").is_some());
    assert!(parse_date("2023/02/29").is_none());
    assert!(parse_date("1900/02/29").is_none());
    assert!(parse_date("2000/02/29").is_some());
    assert!(parse_date("2024/00/10").is_none());
    assert!(parse_date("2024/13/10").is_none());
    assert!(parse_date("2024/04/31").is_none());
    assert!(parse_date("2024/04/00").is_none());
}
