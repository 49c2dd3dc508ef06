//! A SQL dialect whose identifiers may be plain URLs, so that a query can
//! name a remote CSV file as its table.
use vstd::prelude::*;
use vstd::string::StringExecFns;

verus! {

/// Identifier rules that admit URLs; a SQL parser's dialect hooks call
/// `is_identifier_start` and `is_identifier_part`.
#[derive(Clone, Copy, Debug, Default, PartialEq, Eq, Structural)]
pub struct TryDialect;

pub open spec fn is_ascii_letter(ch: char) -> bool {
    ('a' <= ch <= 'z') || ('A' <= ch <= 'Z')
}

/// The punctuation that URLs need inside an identifier.
pub open spec fn is_url_punct(ch: char) -> bool {
    ch == ':' || ch == '/' || ch == '?' || ch == '&' || ch == '=' || ch == '-' || ch == '_' || ch
        == '.'
}

impl TryDialect {
    /// An identifier starts with an ASCII letter or `_`.
    pub fn is_identifier_start(&self, ch: char) -> (r: bool)
        ensures
            r == (is_ascii_letter(ch) || ch == '_'),
    {
        ('a' <= ch && ch <= 'z') || ('A' <= ch && ch <= 'Z') || ch == '_'
    }

    /// An identifier goes on with ASCII letters, digits and URL punctuation.
    pub fn is_identifier_part(&self, ch: char) -> (r: bool)
        ensures
            r == (is_ascii_letter(ch) || ('0' <= ch <= '9') || is_url_punct(ch)),
    {
        ('a' <= ch && ch <= 'z') || ('A' <= ch && ch <= 'Z') || ('0' <= ch && ch <= '9') || ch
            == ':' || ch == '/' || ch == '?' || ch == '&' || ch == '=' || ch == '-' || ch == '_'
            || ch == '.'
    }
}

pub const EXAMPLE_URL: &'static str =
    "https://raw.githubusercontent.com/owid/covid-19-data/master/public/data/latest/owid-covid-latest.csv";

pub const EXAMPLE_HEAD: &'static str =
    "SELECT location name, total_cases, new_cases, total_deaths, new_deaths FROM ";

pub const EXAMPLE_TAIL: &'static str = " where new_deaths >= 500 ORDER BY new_cases DESC LIMIT 6 OFFSET 5";

/// A query over a remote CSV file, with the file's URL as the table.
pub fn example_sql() -> (r: String)
    ensures
        r@ == EXAMPLE_HEAD@ + EXAMPLE_URL@ + EXAMPLE_TAIL@,
{
    EXAMPLE_HEAD.to_owned().concat(EXAMPLE_URL).concat(EXAMPLE_TAIL)
}

} // verus!
