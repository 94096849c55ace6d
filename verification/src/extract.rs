//! Where typed extraction reads a field from, how the bytes there are
//! parsed, and how field names are re-spelt between Rust and the wire.

use vstd::prelude::*;

use crate::Error;
use crate::text::{ascii_upper_seq, ascii_uppercase, replace_all, replace_char_seq, str_eq};

verus! {

/// What a lower-cased string reads as, after `str::to_lowercase`.
pub uninterp spec fn lower_of(s: Seq<char>) -> Seq<char>;

/// What an upper-cased string reads as, after `str::to_uppercase`.
pub uninterp spec fn upper_of(s: Seq<char>) -> Seq<char>;

/// What a name reads as in `PascalCase`.
pub uninterp spec fn pascal_of(s: Seq<char>) -> Seq<char>;

/// What a name reads as in `camelCase`.
pub uninterp spec fn camel_of(s: Seq<char>) -> Seq<char>;

/// What a name reads as in `snake_case`.
pub uninterp spec fn snake_of(s: Seq<char>) -> Seq<char>;

/// Relies on `str::to_lowercase` from std: the result depends on the
/// characters alone, and an empty string stays empty.
#[verifier::external_body]
fn to_lower(s: &str) -> (r: String)
    ensures
        r@ == lower_of(s@),
        s@.len() == 0 ==> r@.len() == 0,
{
    s.to_lowercase()
}

/// Relies on `str::to_uppercase` from std: the result depends on the
/// characters alone, and an empty string stays empty.
#[verifier::external_body]
fn to_upper(s: &str) -> (r: String)
    ensures
        r@ == upper_of(s@),
        s@.len() == 0 ==> r@.len() == 0,
{
    s.to_uppercase()
}

/// Relies on `cruet::case::to_pascal_case`: the result depends on the
/// characters alone.
#[verifier::external_body]
fn to_pascal(s: &str) -> (r: String)
    ensures
        r@ == pascal_of(s@),
{
    cruet::case::to_pascal_case(s)
}

/// Relies on `cruet::case::to_camel_case`: the result depends on the
/// characters alone.
#[verifier::external_body]
fn to_camel(s: &str) -> (r: String)
    ensures
        r@ == camel_of(s@),
{
    cruet::case::to_camel_case(s)
}

/// Relies on `cruet::case::to_snake_case`: the result depends on the
/// characters alone.
#[verifier::external_body]
fn to_snake(s: &str) -> (r: String)
    ensures
        r@ == snake_of(s@),
{
    cruet::case::to_snake_case(s)
}

/// Where a field's value is read from.
#[derive(Debug, Clone, Eq, PartialEq, Copy, Structural)]
#[non_exhaustive]
pub enum SourceFrom {
    /// A parameter captured from the matched path.
    Param,
    /// The query string.
    Query,
    /// A request header.
    Header,
    /// A request cookie.
    Cookie,
    /// The request body.
    Body,
    /// The request as a whole.
    Request,
}

impl SourceFrom {
    /// The source a name denotes: each of `param`, `query`, `header`,
    /// `cookie`, `body` and `request` names one, and nothing else does.
    pub fn from_name(input: &str) -> (r: Result<SourceFrom, Error>)
        ensures
            match r {
                Ok(v) => match v {
                    SourceFrom::Param => input@ == "param"@,
                    SourceFrom::Query => input@ == "query"@,
                    SourceFrom::Header => input@ == "header"@,
                    SourceFrom::Cookie => input@ == "cookie"@,
                    SourceFrom::Body => input@ == "body"@,
                    SourceFrom::Request => input@ == "request"@,
                },
                Err(_) => input@ != "param"@ && input@ != "query"@ && input@ != "header"@
                    && input@ != "cookie"@ && input@ != "body"@ && input@ != "request"@,
            },
    {
        proof {
            reveal_strlit("param");
            reveal_strlit("query");
            reveal_strlit("header");
            reveal_strlit("cookie");
            reveal_strlit("body");
            reveal_strlit("request");
        }
        if str_eq(input, "param") {
            Ok(SourceFrom::Param)
        } else if str_eq(input, "query") {
            Ok(SourceFrom::Query)
        } else if str_eq(input, "header") {
            Ok(SourceFrom::Header)
        } else if str_eq(input, "cookie") {
            Ok(SourceFrom::Cookie)
        } else if str_eq(input, "body") {
            Ok(SourceFrom::Body)
        } else if str_eq(input, "request") {
            Ok(SourceFrom::Request)
        } else {
            Err(Error::other("invalid source from".to_owned()))
        }
    }
}

impl core::str::FromStr for SourceFrom {
    type Err = Error;

    fn from_str(input: &str) -> Result<SourceFrom, Error> {
        SourceFrom::from_name(input)
    }
}

/// How the bytes of a source are parsed.
#[derive(Debug, Clone, Eq, PartialEq, Copy, Structural)]
#[non_exhaustive]
pub enum SourceFormat {
    /// Key-value pairs, possibly repeated.
    MultiMap,
    /// A JSON document.
    Json,
    /// Whatever the request itself decides.
    Request,
}

impl SourceFormat {
    /// The format a name denotes: each of `multimap`, `json` and `request`
    /// names one, and nothing else does.
    pub fn from_name(input: &str) -> (r: Result<SourceFormat, Error>)
        ensures
            match r {
                Ok(v) => match v {
                    SourceFormat::MultiMap => input@ == "multimap"@,
                    SourceFormat::Json => input@ == "json"@,
                    SourceFormat::Request => input@ == "request"@,
                },
                Err(_) => input@ != "multimap"@ && input@ != "json"@ && input@ != "request"@,
            },
    {
        proof {
            reveal_strlit("multimap");
            reveal_strlit("json");
            reveal_strlit("request");
        }
        if str_eq(input, "multimap") {
            Ok(SourceFormat::MultiMap)
        } else if str_eq(input, "json") {
            Ok(SourceFormat::Json)
        } else if str_eq(input, "request") {
            Ok(SourceFormat::Request)
        } else {
            Err(Error::other("invalid source format".to_owned()))
        }
    }
}

impl core::str::FromStr for SourceFormat {
    type Err = Error;

    fn from_str(input: &str) -> Result<SourceFormat, Error> {
        SourceFormat::from_name(input)
    }
}

/// How field names are re-spelt between Rust and the wire.
#[derive(Copy, Clone, Eq, PartialEq, Debug, Structural)]
#[non_exhaustive]
pub enum RenameRule {
    /// `lowercase`.
    LowerCase,
    /// `UPPERCASE`.
    UpperCase,
    /// `PascalCase`, as enum variants are usually written.
    PascalCase,
    /// `camelCase`.
    CamelCase,
    /// `snake_case`, as fields are usually written.
    SnakeCase,
    /// `SCREAMING_SNAKE_CASE`, as constants are usually written.
    ScreamingSnakeCase,
    /// `kebab-case`.
    KebabCase,
    /// `SCREAMING-KEBAB-CASE`.
    ScreamingKebabCase,
}

impl RenameRule {
    /// The rule a name denotes, under the spelling each rule itself
    /// prescribes; nothing else names one.
    pub fn from_name(input: &str) -> (r: Result<RenameRule, Error>)
        ensures
            match r {
                Ok(v) => match v {
                    RenameRule::LowerCase => input@ == "lowercase"@,
                    RenameRule::UpperCase => input@ == "UPPERCASE"@,
                    RenameRule::PascalCase => input@ == "PascalCase"@,
                    RenameRule::CamelCase => input@ == "camelCase"@,
                    RenameRule::SnakeCase => input@ == "snake_case"@,
                    RenameRule::ScreamingSnakeCase => input@ == "SCREAMING_SNAKE_CASE"@,
                    RenameRule::KebabCase => input@ == "kebab-case"@,
                    RenameRule::ScreamingKebabCase => input@ == "SCREAMING-KEBAB-CASE"@,
                },
                Err(_) => input@ != "lowercase"@ && input@ != "UPPERCASE"@ && input@
                    != "PascalCase"@ && input@ != "camelCase"@ && input@ != "snake_case"@ && input@
                    != "SCREAMING_SNAKE_CASE"@ && input@ != "kebab-case"@ && input@
                    != "SCREAMING-KEBAB-CASE"@,
            },
    {
        proof {
            reveal_strlit("lowercase");
            reveal_strlit("UPPERCASE");
            reveal_strlit("PascalCase");
            reveal_strlit("camelCase");
            reveal_strlit("snake_case");
            reveal_strlit("SCREAMING_SNAKE_CASE");
            reveal_strlit("kebab-case");
            reveal_strlit("SCREAMING-KEBAB-CASE");
        }
        if str_eq(input, "lowercase") {
            Ok(RenameRule::LowerCase)
        } else if str_eq(input, "UPPERCASE") {
            Ok(RenameRule::UpperCase)
        } else if str_eq(input, "PascalCase") {
            Ok(RenameRule::PascalCase)
        } else if str_eq(input, "camelCase") {
            Ok(RenameRule::CamelCase)
        } else if str_eq(input, "snake_case") {
            Ok(RenameRule::SnakeCase)
        } else if str_eq(input, "SCREAMING_SNAKE_CASE") {
            Ok(RenameRule::ScreamingSnakeCase)
        } else if str_eq(input, "kebab-case") {
            Ok(RenameRule::KebabCase)
        } else if str_eq(input, "SCREAMING-KEBAB-CASE") {
            Ok(RenameRule::ScreamingKebabCase)
        } else {
            Err(Error::other("invalid rename rule".to_owned()))
        }
    }

    /// What a rule makes of a name: the screaming forms are the ASCII
    /// upper-casing of the snake form, and the kebab forms put dashes for
    /// the snake form's underscores.
    pub fn rename(&self, name: &str) -> (r: String)
        ensures
            r@ == match *self {
                RenameRule::LowerCase => lower_of(name@),
                RenameRule::UpperCase => upper_of(name@),
                RenameRule::PascalCase => pascal_of(name@),
                RenameRule::CamelCase => camel_of(name@),
                RenameRule::SnakeCase => snake_of(name@),
                RenameRule::ScreamingSnakeCase => ascii_upper_seq(snake_of(name@)),
                RenameRule::KebabCase => replace_char_seq(snake_of(name@), '_', '-'),
                RenameRule::ScreamingKebabCase => replace_char_seq(
                    ascii_upper_seq(snake_of(name@)),
                    '_',
                    '-',
                ),
            },
    {
        match *self {
            RenameRule::LowerCase => to_lower(name),
            RenameRule::UpperCase => to_upper(name),
            RenameRule::PascalCase => to_pascal(name),
            RenameRule::CamelCase => to_camel(name),
            RenameRule::SnakeCase => to_snake(name),
            RenameRule::ScreamingSnakeCase => {
                let s = to_snake(name);
                ascii_uppercase(s.as_str())
            },
            RenameRule::KebabCase => {
                let s = to_snake(name);
                replace_all(s.as_str(), '_', '-')
            },
            RenameRule::ScreamingKebabCase => {
                let s = to_snake(name);
                let u = ascii_uppercase(s.as_str());
                replace_all(u.as_str(), '_', '-')
            },
        }
    }
}

impl core::str::FromStr for RenameRule {
    type Err = Error;

    fn from_str(input: &str) -> Result<RenameRule, Error> {
        RenameRule::from_name(input)
    }
}

/// One place a field is read from, and how the bytes there are parsed.
#[derive(Debug, Clone, Copy, PartialEq, Eq, Structural)]
pub struct Source {
    /// Where the value is read from.
    pub from: SourceFrom,
    /// How it is parsed.
    pub format: SourceFormat,
}

impl Source {
    /// A source reading `from` and parsing as `format`.
    pub fn new(from: SourceFrom, format: SourceFormat) -> (s: Source)
        ensures
            s.from == from,
            s.format == format,
    {
        Source { from, format }
    }
}

} // verus!
