//! What can go wrong while a page is rendered, and the page that reports it.

use vstd::prelude::*;
use vstd::string::*;

verus! {

/// A directive, or the text around it, is malformed. Each case names the
/// file that was being parsed.
#[derive(Debug, Clone, PartialEq, Eq)]
pub enum TagParseError {
    /// The directive has no keyword.
    EmptyTag(String),
    /// The attribute `attr` is not followed by `=` and a value.
    MissingValue { file: String, attr: String },
    /// The value of `attr` does not stand between two double quotes.
    UnquotedValue { file: String, attr: String },
    /// The keyword `tag` is not known.
    Unrecognized { file: String, tag: String },
    /// The file to insert is neither an HTML nor a Markdown file.
    InvalidInsertFileType { file: String },
    /// A comment is opened and never closed.
    UnclosedComment(String),
    /// The text ends inside a directive.
    PrematureEnd(String),
}

/// A well-formed directive cannot be carried out.
#[derive(Debug, Clone, PartialEq, Eq)]
pub enum TagProcessingError {
    /// A page asks for a file of its own name.
    SelfRefelercial(String),
    /// While `file` was expanded it asked for `dep`, which is itself being
    /// expanded.
    DependencyCycle { file: String, dep: String },
}

/// Why a page could not be rendered.
#[derive(Debug, Clone, PartialEq, Eq)]
pub enum GroonError {
    /// The caller could not read a file or its metadata; the text is the
    /// caller's description of the failure.
    IO(String),
    TagParse(TagParseError),
    TagProcessing(TagProcessingError),
}

/// A `TagParseError` as a mathematical value.
pub enum TagParseErrorView {
    EmptyTag(Seq<char>),
    MissingValue { file: Seq<char>, attr: Seq<char> },
    UnquotedValue { file: Seq<char>, attr: Seq<char> },
    Unrecognized { file: Seq<char>, tag: Seq<char> },
    InvalidInsertFileType { file: Seq<char> },
    UnclosedComment(Seq<char>),
    PrematureEnd(Seq<char>),
}

/// A `TagProcessingError` as a mathematical value.
pub enum TagProcessingErrorView {
    SelfRefelercial(Seq<char>),
    DependencyCycle { file: Seq<char>, dep: Seq<char> },
}

/// A `GroonError` as a mathematical value.
pub enum GroonErrorView {
    IO(Seq<char>),
    TagParse(TagParseErrorView),
    TagProcessing(TagProcessingErrorView),
}

impl View for TagParseError {
    type V = TagParseErrorView;

    open spec fn view(&self) -> TagParseErrorView {
        match self {
            TagParseError::EmptyTag(file) => TagParseErrorView::EmptyTag(file@),
            TagParseError::MissingValue { file, attr } => TagParseErrorView::MissingValue {
                file: file@,
                attr: attr@,
            },
            TagParseError::UnquotedValue { file, attr } => TagParseErrorView::UnquotedValue {
                file: file@,
                attr: attr@,
            },
            TagParseError::Unrecognized { file, tag } => TagParseErrorView::Unrecognized {
                file: file@,
                tag: tag@,
            },
            TagParseError::InvalidInsertFileType { file } => {
                TagParseErrorView::InvalidInsertFileType { file: file@ }
            },
            TagParseError::UnclosedComment(file) => TagParseErrorView::UnclosedComment(file@),
            TagParseError::PrematureEnd(file) => TagParseErrorView::PrematureEnd(file@),
        }
    }
}

impl View for TagProcessingError {
    type V = TagProcessingErrorView;

    open spec fn view(&self) -> TagProcessingErrorView {
        match self {
            TagProcessingError::SelfRefelercial(target) => {
                TagProcessingErrorView::SelfRefelercial(target@)
            },
            TagProcessingError::DependencyCycle { file, dep } => {
                TagProcessingErrorView::DependencyCycle { file: file@, dep: dep@ }
            },
        }
    }
}

impl View for GroonError {
    type V = GroonErrorView;

    open spec fn view(&self) -> GroonErrorView {
        match self {
            GroonError::IO(message) => GroonErrorView::IO(message@),
            GroonError::TagParse(e) => GroonErrorView::TagParse(e@),
            GroonError::TagProcessing(e) => GroonErrorView::TagProcessing(e@),
        }
    }
}

/// The error page up to the error message.
pub const ERROR_PAGE_HEAD: &'static str = "\n    <!DOCTYPE html>\n    <html>\n        <head>\n            <meta charset=\"utf-8\"></meta>\n            <title>Groon error</title>\n            <style>\n                .error-box {\n                    margin: auto;\n                    width: 50%;\n                    text-align: center;\n                }\n            </style>\n        </head>\n        <body>\n            <div class=\"error-box\">\n                <h1>Groon error</h1>\n                <p>";

/// The error page between the error message and its source.
pub const ERROR_PAGE_MIDDLE: &'static str = "</p>\n                <p>";

/// The error page after the source of the error.
pub const ERROR_PAGE_TAIL: &'static str = "</p>\n            </div>\n        </body>\n    </html>\n    ";

/// The HTML page that reports an error: a fixed frame round the message
/// and round the source of the error.
pub open spec fn error_page(error_msg: Seq<char>, source: Seq<char>) -> Seq<char> {
    ERROR_PAGE_HEAD@ + error_msg + ERROR_PAGE_MIDDLE@ + source + ERROR_PAGE_TAIL@
}

/// The HTML page shown in place of a page that could not be rendered.
pub fn get_groon_error_html(error_msg: &str, source: &str) -> (html: String)
    ensures
        html@ == error_page(error_msg@, source@),
{
    let mut html = ERROR_PAGE_HEAD.to_owned();
    html.append(error_msg);
    html.append(ERROR_PAGE_MIDDLE);
    html.append(source);
    html.append(ERROR_PAGE_TAIL);
    html
}

} // verus!
