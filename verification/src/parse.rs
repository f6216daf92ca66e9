//! The tag parser: finds the directives and the comments in the text of a
//! page, and reads each directive.
//!
//! A directive is written `<?groon insert="footer.html">`. Text between
//! `<!--` and `-->` that holds the next directive is passed over whole.

use vstd::prelude::*;
use vstd::string::*;
use crate::errors::{TagParseError, TagParseErrorView};
use crate::path::{is_template, is_template_path};
use crate::text::{find, find_from, lemma_find_from, lemma_find_from_skip, matches_at, to_chars};

verus! {

/// What a directive asks for.
#[derive(Debug, Clone, PartialEq, Eq)]
pub enum GroonTag {
    /// Put the rendered file of this path, relative to the template
    /// directory, in the directive's place.
    Insert(String),
}

/// A `GroonTag` as a mathematical value.
pub enum GroonTagView {
    Insert(Seq<char>),
}

impl View for GroonTag {
    type V = GroonTagView;

    open spec fn view(&self) -> GroonTagView {
        match self {
            GroonTag::Insert(target) => GroonTagView::Insert(target@),
        }
    }
}

/// The keyword `insert`.
pub open spec fn insert_keyword() -> Seq<char> {
    seq!['i', 'n', 's', 'e', 'r', 't']
}

/// The sign between an attribute and its value.
pub open spec fn equals_sign() -> Seq<char> {
    seq!['=']
}

/// The keyword of a directive: what stands before its first `=`.
pub open spec fn tag_keyword(tag: Seq<char>) -> Seq<char> {
    match find_from(tag, equals_sign(), 0) {
        Some(e) => tag.take(e),
        None => tag,
    }
}

/// The value of a directive: what stands between its first `=` and its
/// second one, or its end.
pub open spec fn tag_value(tag: Seq<char>) -> Option<Seq<char>> {
    match find_from(tag, equals_sign(), 0) {
        Some(e) => match find_from(tag, equals_sign(), e + 1) {
            Some(next) => Some(tag.subrange(e + 1, next)),
            None => Some(tag.subrange(e + 1, tag.len() as int)),
        },
        None => None,
    }
}

/// Whether `value` stands between two double quotes.
pub open spec fn is_quoted(value: Seq<char>) -> bool {
    value.len() >= 2 && value[0] == '"' && value.last() == '"'
}

/// A quoted value without its quotes.
pub open spec fn unquoted(value: Seq<char>) -> Seq<char> {
    value.subrange(1, value.len() - 1)
}

/// What the text of a directive, found in `file`, asks for.
pub open spec fn parse_tag(tag: Seq<char>, file: Seq<char>) -> Result<
    GroonTagView,
    TagParseErrorView,
> {
    let keyword = tag_keyword(tag);
    if keyword.len() == 0 {
        Err(TagParseErrorView::EmptyTag(file))
    } else if keyword != insert_keyword() {
        Err(TagParseErrorView::Unrecognized { file, tag: keyword })
    } else {
        match tag_value(tag) {
            None => Err(TagParseErrorView::MissingValue { file, attr: keyword }),
            Some(value) => {
                if !is_quoted(value) {
                    Err(TagParseErrorView::UnquotedValue { file, attr: keyword })
                } else if !is_template(unquoted(value)) {
                    Err(TagParseErrorView::InvalidInsertFileType { file })
                } else {
                    Ok(GroonTagView::Insert(unquoted(value)))
                }
            },
        }
    }
}

/// Reads the text of a directive, as it stands between `<?groon ` and
/// `>` in `file`.
pub fn parse_groon_tag(tag_str: &str, file: &str) -> (r: Result<GroonTag, TagParseError>)
    ensures
        match r {
            Ok(tag) => parse_tag(tag_str@, file@) == Ok::<GroonTagView, TagParseErrorView>(tag@),
            Err(e) => parse_tag(tag_str@, file@) == Err::<GroonTagView, TagParseErrorView>(e@),
        },
{
    let chars = to_chars(tag_str);
    let eq: Vec<char> = vec!['='];
    let insert: Vec<char> = vec!['i', 'n', 's', 'e', 'r', 't'];
    assert(eq@ =~= equals_sign());
    assert(insert@ =~= insert_keyword());
    proof {
        lemma_find_from(chars@, eq@, 0);
    }
    let first = find(&chars, &eq, 0);
    let keyword_end = match first {
        Some(e) => e,
        None => chars.len(),
    };
    assert(tag_keyword(chars@) =~= chars@.subrange(0, keyword_end as int));
    if keyword_end == 0 {
        return Err(TagParseError::EmptyTag(file.to_owned()));
    }
    let keyword = tag_str.substring_char(0, keyword_end).to_owned();
    if !(keyword_end == insert.len() && matches_at(&chars, &insert, 0)) {
        return Err(TagParseError::Unrecognized { file: file.to_owned(), tag: keyword });
    }
    match first {
        None => Err(TagParseError::MissingValue { file: file.to_owned(), attr: keyword }),
        Some(e) => {
            proof {
                lemma_find_from(chars@, eq@, e + 1);
            }
            let value_end = match find(&chars, &eq, e + 1) {
                Some(next) => next,
                None => chars.len(),
            };
            let ghost value = chars@.subrange(e + 1, value_end as int);
            assert(tag_value(chars@) == Some(value));
            if value_end - (e + 1) < 2 || chars[e + 1] != '"' || chars[value_end - 1] != '"' {
                return Err(
                    TagParseError::UnquotedValue { file: file.to_owned(), attr: keyword },
                );
            }
            let target = tag_str.substring_char(e + 2, value_end - 1).to_owned();
            assert(target@ =~= unquoted(value));
            if !is_template_path(target.as_str()) {
                return Err(TagParseError::InvalidInsertFileType { file: file.to_owned() });
            }
            Ok(GroonTag::Insert(target))
        },
    }
}

/// One piece of a page, in the order of the text.
#[derive(Debug, Clone, PartialEq, Eq)]
pub enum Span {
    /// Text that goes into the output as it is.
    Literal(String),
    /// A directive, to be replaced by what it asks for.
    Directive(GroonTag),
}

/// A `Span` as a mathematical value.
pub enum SpanView {
    Literal(Seq<char>),
    Directive(GroonTagView),
}

impl View for Span {
    type V = SpanView;

    open spec fn view(&self) -> SpanView {
        match self {
            Span::Literal(text) => SpanView::Literal(text@),
            Span::Directive(tag) => SpanView::Directive(tag@),
        }
    }
}

/// The spans of a vector, as mathematical values.
pub open spec fn spans_view(spans: Seq<Span>) -> Seq<SpanView> {
    spans.map_values(|span: Span| span@)
}

/// The token `<?groon ` that opens a directive.
pub open spec fn directive_open() -> Seq<char> {
    seq!['<', '?', 'g', 'r', 'o', 'o', 'n', ' ']
}

/// The token `>` that closes a directive.
pub open spec fn directive_close() -> Seq<char> {
    seq!['>']
}

/// The token `<!--` that opens a comment.
pub open spec fn comment_open() -> Seq<char> {
    seq!['<', '!', '-', '-']
}

/// The token `-->` that closes a comment.
pub open spec fn comment_close() -> Seq<char> {
    seq!['-', '-', '>']
}

/// What the parser meets first when it reads a text from some position on.
pub enum Scan {
    /// No directive follows: the rest is literal text.
    Tail,
    /// The next directive stands inside the comment from `start` to `end`
    /// (the position after the comment's closing token).
    Comment { start: int, end: int },
    /// A directive opens at `start` and its `>` stands at `close`.
    Directive { start: int, close: int },
    /// A directive and a comment's opening token follow, but no closing one.
    Unclosed,
    /// The next directive is never closed.
    Premature,
}

/// The directive that opens at `start`.
pub open spec fn directive_at(text: Seq<char>, start: int) -> Scan {
    match find_from(text, directive_close(), start) {
        Some(close) => Scan::Directive { start, close },
        None => Scan::Premature,
    }
}

/// What the parser meets first in `text` at or after `from`.
///
/// Only the first opening and the first closing token of a comment after
/// `from` are looked at: the next directive is passed over exactly when it
/// opens between these two.
pub open spec fn scan(text: Seq<char>, from: int) -> Scan {
    match find_from(text, directive_open(), from) {
        None => Scan::Tail,
        Some(start) => match find_from(text, comment_open(), from) {
            None => directive_at(text, start),
            Some(opened) => match find_from(text, comment_close(), from) {
                None => Scan::Unclosed,
                Some(closed) => {
                    if opened < start && start < closed {
                        Scan::Comment { start: opened, end: closed + comment_close().len() }
                    } else {
                        directive_at(text, start)
                    }
                },
            },
        },
    }
}

/// `text` as a literal span; no span where it is empty.
pub open spec fn literal(text: Seq<char>) -> Seq<SpanView> {
    if text.len() == 0 {
        seq![]
    } else {
        seq![SpanView::Literal(text)]
    }
}

/// `spans`, followed by what was parsed after them.
pub open spec fn followed_by(
    spans: Seq<SpanView>,
    rest: Result<Seq<SpanView>, TagParseErrorView>,
) -> Result<Seq<SpanView>, TagParseErrorView> {
    match rest {
        Ok(more) => Ok(spans + more),
        Err(e) => Err(e),
    }
}

/// The spans of `text` from position `from` on, or the first error met.
pub open spec fn parse_from(text: Seq<char>, from: int, file: Seq<char>) -> Result<
    Seq<SpanView>,
    TagParseErrorView,
>
    decreases text.len() - from,
    when 0 <= from <= text.len()
    via parse_from_decreases
{
    match scan(text, from) {
        Scan::Tail => Ok(literal(text.subrange(from, text.len() as int))),
        Scan::Unclosed => Err(TagParseErrorView::UnclosedComment(file)),
        Scan::Premature => Err(TagParseErrorView::PrematureEnd(file)),
        Scan::Comment { start, end } => followed_by(
            literal(text.subrange(from, start)),
            parse_from(text, end, file),
        ),
        Scan::Directive { start, close } => {
            match parse_tag(text.subrange(start + directive_open().len(), close), file) {
                Err(e) => Err(e),
                Ok(tag) => followed_by(
                    literal(text.subrange(from, start)) + seq![SpanView::Directive(tag)],
                    parse_from(text, close + 1, file),
                ),
            }
        },
    }
}

#[via_fn]
proof fn parse_from_decreases(text: Seq<char>, from: int, file: Seq<char>) {
    lemma_scan(text, from);
}

/// Where the tokens that `scan` reports stand.
pub proof fn lemma_scan(text: Seq<char>, from: int)
    requires
        0 <= from <= text.len(),
    ensures
        match scan(text, from) {
            Scan::Comment { start, end } => from <= start && start + comment_open().len() < end
                <= text.len(),
            Scan::Directive { start, close } => from <= start && start + directive_open().len()
                <= close < text.len(),
            _ => true,
        },
{
    lemma_find_from(text, directive_open(), from);
    lemma_find_from(text, comment_open(), from);
    lemma_find_from(text, comment_close(), from);
    match find_from(text, directive_open(), from) {
        Some(start) => {
            lemma_find_from(text, directive_close(), start);
            match find_from(text, directive_close(), start) {
                Some(close) => {
                    let open = text.subrange(start, start + directive_open().len());
                    let shut = text.subrange(close, close + 1);
                    assert(open == directive_open());
                    assert(shut == directive_close());
                    assert(shut[0] == '>');
                    assert(text[close] == shut[0]);
                    if close < start + directive_open().len() {
                        assert(open[close - start] == text[close]);
                    }
                },
                None => {},
            }
        },
        None => {},
    }
}

/// Appends `text[from..to]` to `spans` as a literal span, unless it is empty.
fn push_literal(spans: &mut Vec<Span>, text: &str, from: usize, to: usize)
    requires
        from <= to <= text@.len(),
    ensures
        spans_view(final(spans)@) == spans_view(old(spans)@) + literal(
            text@.subrange(from as int, to as int),
        ),
{
    if from < to {
        let piece = text.substring_char(from, to).to_owned();
        spans.push(Span::Literal(piece));
        assert(spans_view(spans@) =~= spans_view(old(spans)@) + literal(
            text@.subrange(from as int, to as int),
        ));
    } else {
        assert(spans_view(spans@) =~= spans_view(old(spans)@) + literal(
            text@.subrange(from as int, to as int),
        ));
    }
}

/// Spans put before what follows them can be put there in two steps.
proof fn lemma_followed_by(
    first: Seq<SpanView>,
    second: Seq<SpanView>,
    rest: Result<Seq<SpanView>, TagParseErrorView>,
)
    ensures
        followed_by(first, followed_by(second, rest)) == followed_by(first + second, rest),
{
    match rest {
        Ok(more) => {
            assert(first + (second + more) =~= (first + second) + more);
        },
        Err(_) => {},
    }
}

/// Splits the text of the page `file` into its literal spans and its
/// directives, in the order of the text. A comment that holds the next
/// directive yields no span.
pub fn parse_page(text: &str, file: &str) -> (r: Result<Vec<Span>, TagParseError>)
    ensures
        match r {
            Ok(spans) => parse_from(text@, 0, file@) == Ok::<Seq<SpanView>, TagParseErrorView>(
                spans_view(spans@),
            ),
            Err(e) => parse_from(text@, 0, file@) == Err::<Seq<SpanView>, TagParseErrorView>(e@),
        },
{
    let chars = to_chars(text);
    let open: Vec<char> = vec!['<', '?', 'g', 'r', 'o', 'o', 'n', ' '];
    let close: Vec<char> = vec!['>'];
    let opening: Vec<char> = vec!['<', '!', '-', '-'];
    let closing: Vec<char> = vec!['-', '-', '>'];
    assert(open@ =~= directive_open());
    assert(close@ =~= directive_close());
    assert(opening@ =~= comment_open());
    assert(closing@ =~= comment_close());
    let mut spans: Vec<Span> = Vec::new();
    let mut pos: usize = 0;
    assert(spans_view(spans@) =~= Seq::<SpanView>::empty());
    assert(followed_by(spans_view(spans@), parse_from(text@, 0, file@)) == parse_from(
        text@,
        0,
        file@,
    )) by {
        match parse_from(text@, 0, file@) {
            Ok(more) => {
                assert(spans_view(spans@) + more =~= more);
            },
            Err(_) => {},
        }
    }
    loop
        invariant
            pos <= chars.len(),
            chars@ == text@,
            open@ == directive_open(),
            close@ == directive_close(),
            opening@ == comment_open(),
            closing@ == comment_close(),
            parse_from(text@, 0, file@) == followed_by(
                spans_view(spans@),
                parse_from(text@, pos as int, file@),
            ),
        decreases chars.len() - pos,
    {
        let ghost before = spans_view(spans@);
        proof {
            lemma_scan(chars@, pos as int);
        }
        let start = match find(&chars, &open, pos) {
            Some(start) => start,
            None => {
                push_literal(&mut spans, text, pos, chars.len());
                return Ok(spans);
            },
        };
        let hidden: Option<(usize, usize)> = match find(&chars, &opening, pos) {
            None => None,
            Some(opened) => match find(&chars, &closing, pos) {
                None => {
                    return Err(TagParseError::UnclosedComment(file.to_owned()));
                },
                Some(closed) => {
                    if opened < start && start < closed {
                        Some((opened, closed + closing.len()))
                    } else {
                        None
                    }
                },
            },
        };
        match hidden {
            Some((comment, end)) => {
                push_literal(&mut spans, text, pos, comment);
                proof {
                    lemma_followed_by(
                        before,
                        literal(text@.subrange(pos as int, comment as int)),
                        parse_from(text@, end as int, file@),
                    );
                }
                pos = end;
            },
            None => {
                let shut = match find(&chars, &close, start) {
                    Some(shut) => shut,
                    None => {
                        return Err(TagParseError::PrematureEnd(file.to_owned()));
                    },
                };
                let tag = match parse_groon_tag(
                    text.substring_char(start + open.len(), shut),
                    file,
                ) {
                    Ok(tag) => tag,
                    Err(e) => {
                        return Err(e);
                    },
                };
                push_literal(&mut spans, text, pos, start);
                let ghost with_literal = spans_view(spans@);
                spans.push(Span::Directive(tag));
                proof {
                    assert(spans_view(spans@) =~= with_literal + seq![
                        SpanView::Directive(tag@),
                    ]);
                    assert(spans_view(spans@) =~= before + (literal(
                        text@.subrange(pos as int, start as int),
                    ) + seq![SpanView::Directive(tag@)]));
                    lemma_followed_by(
                        before,
                        literal(text@.subrange(pos as int, start as int)) + seq![
                            SpanView::Directive(tag@),
                        ],
                        parse_from(text@, shut + 1, file@),
                    );
                }
                pos = shut + 1;
            },
        }
    }
}

/// A `Scan` whose positions are moved `k` places on.
pub open spec fn moved(found: Scan, k: int) -> Scan {
    match found {
        Scan::Comment { start, end } => Scan::Comment { start: start + k, end: end + k },
        Scan::Directive { start, close } => Scan::Directive { start: start + k, close: close + k },
        other => other,
    }
}

/// What the parser meets from `from` on depends only on the text from
/// there on.
pub proof fn lemma_scan_skip(text: Seq<char>, from: int, k: int)
    requires
        0 <= k <= from <= text.len(),
    ensures
        scan(text, from) == moved(scan(text.skip(k), from - k), k),
{
    lemma_find_from_skip(text, directive_open(), from, k);
    lemma_find_from_skip(text, comment_open(), from, k);
    lemma_find_from_skip(text, comment_close(), from, k);
    lemma_find_from(text, directive_open(), from);
    match find_from(text, directive_open(), from) {
        Some(start) => {
            lemma_find_from_skip(text, directive_close(), start, k);
        },
        None => {},
    }
}

/// The spans of a text from `from` on are the spans of the text that
/// starts there: what stands before `from` has no part in them.
pub proof fn lemma_parse_from_skip(text: Seq<char>, from: int, k: int, file: Seq<char>)
    requires
        0 <= k <= from <= text.len(),
    ensures
        parse_from(text, from, file) == parse_from(text.skip(k), from - k, file),
    decreases text.len() - from,
{
    let tail = text.skip(k);
    let here = scan(text, from);
    let there = scan(tail, from - k);
    assert(here == moved(there, k)) by {
        lemma_scan_skip(text, from, k);
    }
    lemma_scan(text, from);
    match there {
        Scan::Tail => {
            assert(text.subrange(from, text.len() as int) =~= tail.subrange(
                from - k,
                tail.len() as int,
            ));
        },
        Scan::Comment { start, end } => {
            assert(text.subrange(from, start + k) =~= tail.subrange(from - k, start));
            lemma_parse_from_skip(text, end + k, k, file);
        },
        Scan::Directive { start, close } => {
            assert(text.subrange(from, start + k) =~= tail.subrange(from - k, start));
            assert(text.subrange(start + k + directive_open().len(), close + k)
                =~= tail.subrange(start + directive_open().len(), close));
            lemma_parse_from_skip(text, close + k + 1, k, file);
        },
        Scan::Unclosed => {},
        Scan::Premature => {},
    }
}

/// Comment suppression. Where, from `from` on, the first comment opens at
/// `opened`, before the next directive, and the first closing token stands
/// at `closed`, after the place where that directive opens, the spans are
/// the literal text before the comment, followed by the spans of the text
/// after the comment read on its own. Nothing that stands inside the
/// comment is parsed or reaches a span.
pub proof fn lemma_comment_hides_directive(
    text: Seq<char>,
    from: int,
    file: Seq<char>,
    opened: int,
    start: int,
    closed: int,
)
    requires
        0 <= from <= text.len(),
        find_from(text, comment_open(), from) == Some(opened),
        find_from(text, directive_open(), from) == Some(start),
        find_from(text, comment_close(), from) == Some(closed),
        opened < start < closed,
    ensures
        closed + comment_close().len() <= text.len(),
        parse_from(text, from, file) == followed_by(
            literal(text.subrange(from, opened)),
            parse_from(text.skip(closed + comment_close().len()), 0, file),
        ),
{
    lemma_scan(text, from);
    let end = closed + comment_close().len();
    lemma_parse_from_skip(text, end, end, file);
}

} // verus!
