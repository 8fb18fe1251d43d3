//! What the client decides about the site's answers: the address of the
//! search results, the range of result pages to fetch, the address of each
//! page, and the flag that stops fetching a query's pages.

use vstd::prelude::*;
use std::sync::Arc;
use std::sync::atomic::AtomicBool;
use crate::error::{Error, ErrorView};
use crate::numbers::{
    parse_u16, parses_as_unsigned, u16_parse_failure_debug, u16_parse_failure_text, unsigned_decimal_value,
};
use crate::page_parser::{opt_view, selector_parses};
use scraper::{ElementRef, Html, Selector};
use crate::text::{dec, push_dec};

verus! {

/// A flag shared by the fetching of a query's pages and the reading of them:
/// once raised, no further page of the query is fetched.
#[derive(Debug, Clone)]
pub struct StopFlag(Arc<AtomicBool>);

impl StopFlag {
    /// A flag not raised.
    pub fn new() -> (r: StopFlag) {
        StopFlag(Arc::new(AtomicBool::new(false)))
    }

    /// Raises the flag, for every copy of it.
    pub fn stop(&self) {
        self.0.store(true, std::sync::atomic::Ordering::Release);
    }

    /// Whether the flag was raised. Another thread may raise it at any time:
    /// nothing is claimed of the result.
    pub fn is_stoped(&self) -> (r: bool) {
        self.0.load(std::sync::atomic::Ordering::Acquire)
    }
}

/// The first and last result page to fetch, both included; none where the
/// last comes before the first.
#[derive(Debug, Clone, Copy, PartialEq, Eq, Structural)]
pub struct PagesRange {
    pub start: u16,
    pub end: u16,
}

impl PagesRange {
    /// Whether the range holds no page.
    pub fn is_empty(&self) -> (r: bool)
        ensures
            r == (self.end < self.start),
    {
        self.end < self.start
    }
}

/// The `min` and `max` attributes of the page-number input of the results'
/// pagination form.
#[derive(Debug)]
pub struct PaginationAttrs {
    pub min: Option<String>,
    pub max: Option<String>,
}

/// The pagination input as plain values: `None` where the page has none.
pub open spec fn pagination_view(p: Option<PaginationAttrs>) -> Option<(Option<Seq<char>>, Option<Seq<char>>)> {
    match p {
        Some(a) => Some((opt_view(a.min), opt_view(a.max))),
        None => None,
    }
}

/// The range of pages to fetch, or the error met: without a pagination input
/// only page 1; else from `min` to `max`, the last cut to `pages_limit`.
pub open spec fn spec_pages_range(
    p: Option<(Option<Seq<char>>, Option<Seq<char>>)>,
    pages_limit: u16,
) -> Result<PagesRange, ErrorView> {
    match p {
        None => Ok(PagesRange { start: 1, end: 1 }),
        Some((min, max)) => match min {
            None => Err(ErrorView::StrErr("Attribute \"min\" not found"@)),
            Some(min) => if !parses_as_unsigned(min, u16::MAX as nat) {
                Err(ErrorView::ParseIntErr(u16_parse_failure_text(min), u16_parse_failure_debug(min)))
            } else {
                match max {
                    None => Err(ErrorView::StrErr("Attribute \"max\" not found"@)),
                    Some(max) => if !parses_as_unsigned(max, u16::MAX as nat) {
                        Err(ErrorView::ParseIntErr(u16_parse_failure_text(max), u16_parse_failure_debug(max)))
                    } else {
                        let start = unsigned_decimal_value(min) as u16;
                        let end = unsigned_decimal_value(max) as u16;
                        Ok(PagesRange { start, end: if end > pages_limit { pages_limit } else { end } })
                    },
                }
            },
        },
    }
}

/// Where the page has a pagination input, no page past `pages_limit` is
/// fetched; where it has none, page 1 alone is.
pub proof fn lemma_pages_within_limit(p: Option<(Option<Seq<char>>, Option<Seq<char>>)>, pages_limit: u16)
    ensures
        p is Some ==> (spec_pages_range(p, pages_limit) matches Ok(r) ==> r.end <= pages_limit),
        p is None ==> spec_pages_range(p, pages_limit) == Ok::<PagesRange, ErrorView>(
            PagesRange { start: 1, end: 1 },
        ),
{
}

/// The range of pages as plain values.
pub open spec fn range_view(r: Result<PagesRange, Error>) -> Result<PagesRange, ErrorView> {
    match r {
        Ok(x) => Ok(x),
        Err(e) => Err(e@),
    }
}

/// Decides the range of pages to fetch from the pagination input of the
/// first result page.
pub fn pages_range_from(pagination: &Option<PaginationAttrs>, pages_limit: u16) -> (r: Result<PagesRange, Error>)
    ensures
        range_view(r) == spec_pages_range(pagination_view(*pagination), pages_limit),
{
    match pagination {
        None => Ok(PagesRange { start: 1, end: 1 }),
        Some(attrs) => {
            let start = match &attrs.min {
                None => {
                    return Err(Error::StrErr("Attribute \"min\" not found"));
                },
                Some(m) => match parse_u16(m.as_str()) {
                    Ok(v) => v,
                    Err(msg) => {
                        return Err(Error::ParseIntErr(msg.0, msg.1));
                    },
                },
            };
            let mut end = match &attrs.max {
                None => {
                    return Err(Error::StrErr("Attribute \"max\" not found"));
                },
                Some(m) => match parse_u16(m.as_str()) {
                    Ok(v) => v,
                    Err(msg) => {
                        return Err(Error::ParseIntErr(msg.0, msg.1));
                    },
                },
            };
            if end > pages_limit {
                end = pages_limit;
            }
            Ok(PagesRange { start, end })
        },
    }
}

/// The selector of the page-number input of the pagination form.
pub open spec fn pagination_selector() -> Seq<char> {
    "#paginationForm > div > input.form-control.set-page-form__input"@
}

/// What scraper finds in the page `content` for the selector `css`: `None`
/// where no element matches, else the `min` and `max` attributes of the first
/// element that matches, in document order.
pub uninterp spec fn page_pagination(content: Seq<char>, css: Seq<char>) -> Option<(Option<Seq<char>>, Option<Seq<char>>)>;

/// `scraper::Selector::parse`, `Html::parse_document`, `Html::select(..).next()`
/// and `ElementRef::attr`, the two attributes copied. Claimed: the outer
/// `None` exactly where the selector text does not parse; else the result
/// depends on the two texts alone.
#[verifier::external_body]
pub(crate) fn scrape_pagination(content: &str, css: &str) -> (r: Option<Option<PaginationAttrs>>)
    ensures
        r is Some <==> selector_parses(css@),
        r matches Some(p) ==> pagination_view(p) == page_pagination(content@, css@),
{
    let selector = Selector::parse(css).ok()?;
    let html = Html::parse_document(content);
    let attr = |e: &ElementRef, k: &str| e.attr(k).map(String::from);
    Some(html.select(&selector).next().map(|e| PaginationAttrs { min: attr(&e, "min"), max: attr(&e, "max") }))
}

/// Reads the pagination input of a result page: the outer `None` where the
/// selector does not parse, the inner one where the page has no such input.
pub fn read_pagination(content: &str) -> (r: Option<Option<PaginationAttrs>>)
    ensures
        r is Some <==> selector_parses(pagination_selector()),
        r matches Some(p) ==> pagination_view(p) == page_pagination(content@, pagination_selector()),
{
    scrape_pagination(content, "#paginationForm > div > input.form-control.set-page-form__input")
}

/// The range of pages to fetch for a query whose first result page is
/// `content`: `None` where the pagination selector does not parse, else the
/// range that `pages_range_from` decides from what the page shows.
pub fn pages_range(content: &str, pages_limit: u16) -> (r: Option<Result<PagesRange, Error>>)
    ensures
        r is Some <==> selector_parses(pagination_selector()),
        r matches Some(res) ==> range_view(res) == spec_pages_range(
            page_pagination(content@, pagination_selector()),
            pages_limit,
        ),
{
    match read_pagination(content) {
        None => None,
        Some(p) => {
            let res = pages_range_from(&p, pages_limit);
            Some(res)
        },
    }
}

/// The address of the search results, from the `location` header of the
/// answer to the search form: `None` where the answer has no such header,
/// `Some(None)` where its value is not visible ASCII.
pub fn search_url(location: Option<Option<&str>>) -> (r: Result<String, Error>)
    ensures
        match location {
            None => r matches Err(e) && e@ == ErrorView::StrErr("NoUrlData"@),
            Some(None) => r matches Err(e) && e@ == ErrorView::StrErr(
                "failed to convert header to a str"@,
            ),
            Some(Some(s)) => r matches Ok(u) && u@ == s@,
        },
{
    match location {
        None => Err(Error::StrErr("NoUrlData")),
        Some(None) => Err(Error::StrErr("failed to convert header to a str")),
        Some(Some(s)) => Ok(String::from_str(s)),
    }
}

/// The site's answer to the first request must be 200.
pub fn check_status(status: u16) -> (r: Result<(), Error>)
    ensures
        status == 200 ==> r is Ok,
        status != 200 ==> (r matches Err(e) && e@ == ErrorView::StatusCodeErr(status)),
{
    if status != 200 {
        Err(Error::StatusCodeErr(status))
    } else {
        Ok(())
    }
}

/// The address of a result page of the query whose results are at `url`.
pub fn page_url(url: &str, page: u16) -> (r: String)
    ensures
        r@ == url@ + "&page="@ + dec(page as nat),
{
    let mut out = String::from_str(url);
    out.append("&page=");
    push_dec(&mut out, page as u64);
    out
}

} // verus!
