//! Pieces of response content that know how to write themselves: plain or
//! marked-up text that sets the response's content type and appends to its
//! body.

use vstd::prelude::*;

use crate::http::Response;

verus! {

/// Something that can be rendered into a response.
pub trait Piece: Sized {
    /// Writes the piece into the response.
    fn render(self, res: &mut Response);
}

/// A piece of text with its content type.
pub enum Text {
    /// `text/plain`.
    Plain(String),
    /// `application/json`.
    Json(String),
    /// `application/xml`.
    Xml(String),
    /// `text/html`.
    Html(String),
    /// `text/javascript`.
    Js(String),
    /// `text/css`.
    Css(String),
    /// `text/csv`.
    Csv(String),
    /// `application/atom+xml`.
    Atom(String),
    /// `application/rss+xml`.
    Rss(String),
    /// `application/rdf+xml`.
    Rdf(String),
}

impl Text {
    /// The `content-type` header value the variant stands for.
    pub open spec fn content_type(&self) -> Seq<char> {
        match self {
            Text::Plain(_) => "text/plain; charset=utf-8"@,
            Text::Json(_) => "application/json; charset=utf-8"@,
            Text::Xml(_) => "application/xml; charset=utf-8"@,
            Text::Html(_) => "text/html; charset=utf-8"@,
            Text::Js(_) => "text/javascript; charset=utf-8"@,
            Text::Css(_) => "text/css; charset=utf-8"@,
            Text::Csv(_) => "text/csv; charset=utf-8"@,
            Text::Atom(_) => "application/atom+xml; charset=utf-8"@,
            Text::Rss(_) => "application/rss+xml; charset=utf-8"@,
            Text::Rdf(_) => "application/rdf+xml; charset=utf-8"@,
        }
    }

    /// The text carried.
    pub open spec fn content(&self) -> Seq<char> {
        match self {
            Text::Plain(c) => c@,
            Text::Json(c) => c@,
            Text::Xml(c) => c@,
            Text::Html(c) => c@,
            Text::Js(c) => c@,
            Text::Css(c) => c@,
            Text::Csv(c) => c@,
            Text::Atom(c) => c@,
            Text::Rss(c) => c@,
            Text::Rdf(c) => c@,
        }
    }

    /// Adds the variant's `content-type` header and hands back the carried
    /// text.
    pub fn set_header(self, res: &mut Response) -> (c: String)
        ensures
            c@ == self.content(),
            final(res).spec_headers() == old(res).spec_headers().push(
                ("content-type"@, self.content_type()),
            ),
            final(res).spec_status_code() == old(res).spec_status_code(),
            final(res).spec_body() == old(res).spec_body(),
    {
        match self {
            Text::Plain(content) => {
                res.add_header("content-type", "text/plain; charset=utf-8");
                content
            },
            Text::Json(content) => {
                res.add_header("content-type", "application/json; charset=utf-8");
                content
            },
            Text::Xml(content) => {
                res.add_header("content-type", "application/xml; charset=utf-8");
                content
            },
            Text::Html(content) => {
                res.add_header("content-type", "text/html; charset=utf-8");
                content
            },
            Text::Js(content) => {
                res.add_header("content-type", "text/javascript; charset=utf-8");
                content
            },
            Text::Css(content) => {
                res.add_header("content-type", "text/css; charset=utf-8");
                content
            },
            Text::Csv(content) => {
                res.add_header("content-type", "text/csv; charset=utf-8");
                content
            },
            Text::Atom(content) => {
                res.add_header("content-type", "application/atom+xml; charset=utf-8");
                content
            },
            Text::Rss(content) => {
                res.add_header("content-type", "application/rss+xml; charset=utf-8");
                content
            },
            Text::Rdf(content) => {
                res.add_header("content-type", "application/rdf+xml; charset=utf-8");
                content
            },
        }
    }
}

impl Piece for Text {
    fn render(self, res: &mut Response) {
        let content = self.set_header(res);
        res.write_body(content.as_str());
    }
}

impl Response {
    /// Renders a piece into the response.
    pub fn render<P: Piece>(&mut self, piece: P) {
        piece.render(self);
    }
}

} // verus!
