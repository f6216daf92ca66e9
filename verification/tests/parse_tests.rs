use groon::errors::TagParseError;
use groon::parse::{parse_groon_tag, parse_page, GroonTag, Span};

fn literal(text: &str) -> Span {
    Span::Literal(text.to_string())
}

fn insert(target: &str) -> Span {
    Span::Directive(GroonTag::Insert(target.to_string()))
}

#[test]
fn tag_insert_html() {
    assert_eq!(
        parse_groon_tag("insert=\"footer.html\"", "index.html"),
        Ok(GroonTag::Insert("footer.html".to_string()))
    );
}

#[test]
fn tag_insert_markdown_in_directory() {
    assert_eq!(
        parse_groon_tag("insert=\"notes/about.md\"", "index.html"),
        Ok(GroonTag::Insert("notes/about.md".to_string()))
    );
}

#[test]
fn tag_empty_has_no_keyword() {
    assert_eq!(
        parse_groon_tag("", "index.html"),
        Err(TagParseError::EmptyTag("index.html".to_string()))
    );
    assert_eq!(
        parse_groon_tag("=\"a.html\"", "index.html"),
        Err(TagParseError::EmptyTag("index.html".to_string()))
    );
}

#[test]
fn tag_unknown_keyword() {
    assert_eq!(
        parse_groon_tag("embed=\"a.html\"", "index.html"),
        Err(TagParseError::Unrecognized {
            file: "index.html".to_string(),
            tag: "embed".to_string()
        })
    );
    assert_eq!(
        parse_groon_tag(" insert=\"a.html\"", "index.html"),
        Err(TagParseError::Unrecognized {
            file: "index.html".to_string(),
            tag: " insert".to_string()
        })
    );
    assert_eq!(
        parse_groon_tag("inserts", "index.html"),
        Err(TagParseError::Unrecognized {
            file: "index.html".to_string(),
            tag: "inserts".to_string()
        })
    );
}

#[test]
fn tag_without_value() {
    assert_eq!(
        parse_groon_tag("insert", "index.html"),
        Err(TagParseError::MissingValue {
            file: "index.html".to_string(),
            attr: "insert".to_string()
        })
    );
}

#[test]
fn tag_with_unquoted_value() {
    let unquoted = Err(TagParseError::UnquotedValue {
        file: "index.html".to_string(),
        attr: "insert".to_string(),
    });
    assert_eq!(parse_groon_tag("insert=a.html", "index.html"), unquoted);
    assert_eq!(parse_groon_tag("insert=\"a.html", "index.html"), unquoted);
    assert_eq!(parse_groon_tag("insert=a.html\"", "index.html"), unquoted);
    assert_eq!(parse_groon_tag("insert=", "index.html"), unquoted);
    // one quote is not a pair of quotes
    assert_eq!(parse_groon_tag("insert=\"", "index.html"), unquoted);
    // the value ends at the second `=`
    assert_eq!(parse_groon_tag("insert=\"a=b.html\"", "index.html"), unquoted);
}

#[test]
fn tag_with_other_file_type() {
    let refused = Err(TagParseError::InvalidInsertFileType { file: "index.html".to_string() });
    assert_eq!(parse_groon_tag("insert=\"a.txt\"", "index.html"), refused);
    assert_eq!(parse_groon_tag("insert=\"html\"", "index.html"), refused);
    assert_eq!(parse_groon_tag("insert=\".html\"", "index.html"), refused);
    assert_eq!(parse_groon_tag("insert=\"\"", "index.html"), refused);
    assert_eq!(parse_groon_tag("insert=\"a.html/b\"", "index.html"), refused);
    assert_eq!(parse_groon_tag("insert=\"a.HTML\"", "index.html"), refused);
}

#[test]
fn page_without_directive_is_one_literal() {
    assert_eq!(parse_page("<p>plain</p>", "p.html"), Ok(vec![literal("<p>plain</p>")]));
    assert_eq!(parse_page("", "p.html"), Ok(vec![]));
}

#[test]
fn page_with_directives_in_order() {
    assert_eq!(
        parse_page(
            "<a><?groon insert=\"x.html\"><b><?groon insert=\"y.md\"><c>",
            "p.html"
        ),
        Ok(vec![literal("<a>"), insert("x.html"), literal("<b>"), insert("y.md"), literal("<c>")])
    );
    assert_eq!(
        parse_page("<?groon insert=\"x.html\">", "p.html"),
        Ok(vec![insert("x.html")])
    );
}

#[test]
fn page_keeps_text_beyond_ascii() {
    assert_eq!(
        parse_page("grüß <?groon insert=\"x.html\"> 世界", "p.html"),
        Ok(vec![literal("grüß "), insert("x.html"), literal(" 世界")])
    );
}

#[test]
fn comment_round_directive_is_passed_over() {
    assert_eq!(
        parse_page("a<!-- <?groon insert=\"x.html\"> -->b", "p.html"),
        Ok(vec![literal("a"), literal("b")])
    );
    assert_eq!(
        parse_page(
            "a<!-- <?groon insert=\"x.html\"> -->b<?groon insert=\"y.html\">c",
            "p.html"
        ),
        Ok(vec![literal("a"), literal("b"), insert("y.html"), literal("c")])
    );
    // what stands in the comment is not even read
    assert_eq!(parse_page("<!--<?groon nonsense-->", "p.html"), Ok(vec![]));
}

#[test]
fn comment_beside_directive_is_literal() {
    assert_eq!(
        parse_page("<!-- note --><?groon insert=\"x.html\">", "p.html"),
        Ok(vec![literal("<!-- note -->"), insert("x.html")])
    );
    assert_eq!(
        parse_page("<?groon insert=\"x.html\"><!-- note -->", "p.html"),
        Ok(vec![insert("x.html"), literal("<!-- note -->")])
    );
}

#[test]
fn only_the_first_closing_token_counts() {
    // the first `-->` stands before the directive, so the directive is read
    assert_eq!(
        parse_page("--><!-- <?groon insert=\"x.html\"> -->", "p.html"),
        Ok(vec![literal("--><!-- "), insert("x.html"), literal(" -->")])
    );
}

#[test]
fn unclosed_comment() {
    assert_eq!(
        parse_page("<!-- <?groon insert=\"x.html\">", "p.html"),
        Err(TagParseError::UnclosedComment("p.html".to_string()))
    );
    assert_eq!(
        parse_page("<?groon insert=\"x.html\"> <!-- open", "p.html"),
        Err(TagParseError::UnclosedComment("p.html".to_string()))
    );
    // without a directive the comment is plain text
    assert_eq!(parse_page("<!-- open", "p.html"), Ok(vec![literal("<!-- open")]));
}

#[test]
fn premature_end() {
    assert_eq!(
        parse_page("a<?groon insert=\"x.html\"", "p.html"),
        Err(TagParseError::PrematureEnd("p.html".to_string()))
    );
}

#[test]
fn first_error_in_the_text_wins() {
    assert_eq!(
        parse_page("<?groon insert=x.html><?groon bad>", "p.html"),
        Err(TagParseError::UnquotedValue {
            file: "p.html".to_string(),
            attr: "insert".to_string()
        })
    );
    assert_eq!(
        parse_page("<?groon insert=\"x.html\"><?groon bad>", "p.html"),
        Err(TagParseError::Unrecognized { file: "p.html".to_string(), tag: "bad".to_string() })
    );
}
