//! The library's error type.
use vstd::prelude::*;

verus! {

/// Why processing an email failed.
#[derive(Debug)]
pub enum Error {
    /// CSS inlining failed; the message comes from the CSS inliner.
    CssInline(String),
    /// HTML rewriting failed; the message comes from the HTML rewriter.
    HtmlRewrite(String),
    /// CSS parsing failed.
    CssParse(String),
    /// HTML minification produced bytes that are not UTF-8.
    Minify,
}

/// What an error says, for contracts: its kind, and the message it carries.
pub enum ErrorView {
    CssInline(Seq<char>),
    HtmlRewrite(Seq<char>),
    CssParse(Seq<char>),
    Minify,
}

impl View for Error {
    type V = ErrorView;

    open spec fn view(&self) -> ErrorView {
        match self {
            Error::CssInline(m) => ErrorView::CssInline(m@),
            Error::HtmlRewrite(m) => ErrorView::HtmlRewrite(m@),
            Error::CssParse(m) => ErrorView::CssParse(m@),
            Error::Minify => ErrorView::Minify,
        }
    }
}

impl Error {
    /// The error's message: the variant's description and, after a colon,
    /// its detail.
    pub fn message(&self) -> (r: String)
        ensures
            self matches Error::HtmlRewrite(m) ==> r@ == "HTML rewriting failed: "@ + m@,
            self matches Error::CssParse(m) ==> r@ == "CSS parsing failed: "@ + m@,
            self is Minify ==> r@ == "HTML minification failed"@,
            self matches Error::CssInline(m) ==> r@ == "CSS inlining failed: "@ + m@,
    {
        match self {
            Error::CssInline(m) => crate::text::concat2("CSS inlining failed: ", m.as_str()),
            Error::HtmlRewrite(m) => crate::text::concat2("HTML rewriting failed: ", m.as_str()),
            Error::CssParse(m) => crate::text::concat2("CSS parsing failed: ", m.as_str()),
            Error::Minify => "HTML minification failed".to_string(),
        }
    }
}

} // verus!
