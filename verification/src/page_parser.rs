//! Reading tenders out of a search-result page: the fields that the page
//! shows for each tender, and what becomes of them.

use vstd::prelude::*;
use chrono::Datelike;
use scraper::{ElementRef, Html, Selector};
use crate::error::{Error, ErrorView};
use crate::numbers::{
    char_is_numeric, is_numeric, parse_usize, parses_as_unsigned, unsigned_decimal_value,
    usize_parse_failure_debug, usize_parse_failure_text,
};
use crate::numbers::{digits_value, is_ascii_digit, unsigned_digits};
use crate::text::{chars_of, dec, digit_char};

verus! {

// ---------------------------------------------------------------------------
// Calendar dates

/// A calendar date as the page gives it.
#[derive(Debug, Clone, Copy, PartialEq, Eq, Structural)]
pub struct Date {
    pub year: i32,
    pub month: u32,
    pub day: u32,
}

/// The date that `chrono::NaiveDate::parse_from_str(text, fmt)` reads, as
/// (year, month, day), or `None` where it fails.
pub uninterp spec fn naive_date_from_str(text: Seq<char>, fmt: Seq<char>) -> Option<(i32, u32, u32)>;

/// `chrono::NaiveDate::parse_from_str`, the date taken apart into year, month
/// and day. Claimed: the result depends on the two texts alone.
#[verifier::external_body]
pub(crate) fn parse_naive_date(text: &str, fmt: &str) -> (r: Option<(i32, u32, u32)>)
    ensures
        r == naive_date_from_str(text@, fmt@),
{
    match chrono::NaiveDate::parse_from_str(text, fmt) {
        Ok(d) => Some((d.year(), d.month(), d.day())),
        Err(_) => None,
    }
}

/// The format in which the page writes dates: day, month, two-digit year.
pub open spec fn date_format() -> Seq<char> {
    "%d.%m.%y"@
}

/// The date, or the error, that a parse result of the date text gives.
pub open spec fn spec_date_from_parsed(p: Option<(i32, u32, u32)>) -> Result<Date, ErrorView> {
    match p {
        Some((y, m, d)) => Ok(Date { year: y, month: m, day: d }),
        None => Err(ErrorView::StrErr("ParseDateError"@)),
    }
}

/// Turns the result of parsing a date text into a date or the date error.
pub fn date_from_parsed(p: Option<(i32, u32, u32)>) -> (r: Result<Date, Error>)
    ensures
        match r {
            Ok(d) => spec_date_from_parsed(p) == Ok::<Date, ErrorView>(d),
            Err(e) => spec_date_from_parsed(p) == Err::<Date, ErrorView>(e@),
        },
{
    match p {
        Some((y, m, d)) => Ok(Date { year: y, month: m, day: d }),
        None => Err(Error::StrErr("ParseDateError")),
    }
}

// ---------------------------------------------------------------------------
// Positions of characters in a text

/// `i` is the first index of `s` that holds `c`.
pub open spec fn is_first_of(s: Seq<char>, c: char, i: int) -> bool {
    &&& 0 <= i < s.len()
    &&& s[i] == c
    &&& forall|j: int| 0 <= j < i ==> s[j] != c
}

/// `i` is the first index of `s` that holds a numeric character.
pub open spec fn is_first_numeric(s: Seq<char>, i: int) -> bool {
    &&& 0 <= i < s.len()
    &&& char_is_numeric(s[i])
    &&& forall|j: int| 0 <= j < i ==> !char_is_numeric(#[trigger] s[j])
}

/// `i` is the last index of `s` that holds a numeric character.
pub open spec fn is_last_numeric(s: Seq<char>, i: int) -> bool {
    &&& 0 <= i < s.len()
    &&& char_is_numeric(s[i])
    &&& forall|j: int| i < j < s.len() ==> !char_is_numeric(#[trigger] s[j])
}

/// Where `str::find(c)` finds `c`, counted in characters.
pub open spec fn find_char(s: Seq<char>, c: char) -> Option<int> {
    if exists|i: int| is_first_of(s, c, i) {
        Some(choose|i: int| is_first_of(s, c, i))
    } else {
        None
    }
}

/// Where the first numeric character stands, counted in characters.
pub open spec fn find_numeric(s: Seq<char>) -> Option<int> {
    if exists|i: int| is_first_numeric(s, i) {
        Some(choose|i: int| is_first_numeric(s, i))
    } else {
        None
    }
}

/// Where the last numeric character stands, counted in characters.
pub open spec fn rfind_numeric(s: Seq<char>) -> Option<int> {
    if exists|i: int| is_last_numeric(s, i) {
        Some(choose|i: int| is_last_numeric(s, i))
    } else {
        None
    }
}

/// The character that marks a tender's number.
pub open spec fn number_sign() -> char {
    '\u{2116}'
}

fn find_first_of(s: &Vec<char>, c: char) -> (r: Option<usize>)
    ensures
        r matches Some(i) ==> find_char(s@, c) == Some(i as int) && is_first_of(s@, c, i as int),
        r is None ==> find_char(s@, c) is None,
{
    let mut i: usize = 0;
    while i < s.len()
        invariant
            i <= s.len(),
            forall|j: int| 0 <= j < i ==> s@[j] != c,
        decreases s.len() - i,
    {
        if s[i] == c {
            proof {
                assert(is_first_of(s@, c, i as int));
                let k = choose|k: int| is_first_of(s@, c, k);
                assert(k == i) by {
                    if k < i {
                        assert(s@[k] != c);
                    } else if k > i {
                        assert(s@[i as int] != c);
                    }
                }
            }
            return Some(i);
        }
        i += 1;
    }
    proof {
        assert forall|k: int| !is_first_of(s@, c, k) by {
            if 0 <= k < s@.len() {
                assert(s@[k] != c);
            }
        }
    }
    None
}

fn find_first_numeric(s: &Vec<char>) -> (r: Option<usize>)
    ensures
        r matches Some(i) ==> find_numeric(s@) == Some(i as int) && is_first_numeric(s@, i as int),
        r is None ==> find_numeric(s@) is None,
{
    let mut i: usize = 0;
    while i < s.len()
        invariant
            i <= s.len(),
            forall|j: int| 0 <= j < i ==> !char_is_numeric(#[trigger] s@[j]),
        decreases s.len() - i,
    {
        if is_numeric(s[i]) {
            proof {
                assert(is_first_numeric(s@, i as int));
                let k = choose|k: int| is_first_numeric(s@, k);
                assert(k == i) by {
                    if k < i {
                        assert(!char_is_numeric(s@[k]));
                    } else if k > i {
                        assert(!char_is_numeric(s@[i as int]));
                    }
                }
            }
            return Some(i);
        }
        i += 1;
    }
    proof {
        assert forall|k: int| !is_first_numeric(s@, k) by {
            if 0 <= k < s@.len() {
                assert(!char_is_numeric(s@[k]));
            }
        }
    }
    None
}

fn find_last_numeric(s: &Vec<char>) -> (r: Option<usize>)
    ensures
        r matches Some(i) ==> rfind_numeric(s@) == Some(i as int) && is_last_numeric(s@, i as int),
        r is None ==> rfind_numeric(s@) is None,
{
    let mut i: usize = s.len();
    while i > 0
        invariant
            i <= s.len(),
            forall|j: int| i <= j < s.len() ==> !char_is_numeric(#[trigger] s@[j]),
        decreases i,
    {
        if is_numeric(s[i - 1]) {
            proof {
                let m = (i - 1) as int;
                assert(is_last_numeric(s@, m));
                let k = choose|k: int| is_last_numeric(s@, k);
                assert(k == m) by {
                    if k > m {
                        assert(!char_is_numeric(s@[k]));
                    } else if k < m {
                        assert(!char_is_numeric(s@[m]));
                    }
                }
            }
            return Some(i - 1);
        }
        i -= 1;
    }
    proof {
        assert forall|k: int| !is_last_numeric(s@, k) by {
            if 0 <= k < s@.len() {
                assert(!char_is_numeric(s@[k]));
            }
        }
    }
    None
}

// ---------------------------------------------------------------------------
// Tender numbers and dates

/// Byte slicing of the number text panics: the last numeric character stands
/// before the number sign, or is not a one-byte character.
pub open spec fn number_text_panics(s: Seq<char>) -> bool {
    match (find_char(s, number_sign()), rfind_numeric(s)) {
        (Some(a), Some(b)) => b < a || (s[b] as u32) >= 128,
        _ => false,
    }
}

/// The tender number that a number text such as "Тендер №12345" gives: the
/// text after the number sign up to the last numeric character, read as a
/// decimal number.
pub open spec fn spec_parse_number(s: Seq<char>) -> Result<usize, ErrorView> {
    match (find_char(s, number_sign()), rfind_numeric(s)) {
        (Some(a), Some(b)) => {
            let t = s.subrange(a + 1, b + 1);
            if parses_as_unsigned(t, usize::MAX as nat) {
                Ok(unsigned_decimal_value(t) as usize)
            } else {
                Err(ErrorView::ParseIntErr(usize_parse_failure_text(t), usize_parse_failure_debug(t)))
            }
        },
        _ => Err(ErrorView::StrErr("ParseNumberError"@)),
    }
}

/// Reads the tender number out of the text of the number element.
pub fn parse_number(number: &str) -> (r: Result<usize, Error>)
    requires
        !number_text_panics(number@),
    ensures
        match r {
            Ok(v) => spec_parse_number(number@) == Ok::<usize, ErrorView>(v),
            Err(e) => spec_parse_number(number@) == Err::<usize, ErrorView>(e@),
        },
{
    let chars = chars_of(number);
    let start = find_first_of(&chars, '\u{2116}');
    let end = find_last_numeric(&chars);
    match (start, end) {
        (Some(a), Some(b)) => {
            let digits = number.substring_char(a + 1, b + 1);
            match parse_usize(digits) {
                Ok(v) => Ok(v),
                Err(m) => Err(Error::ParseIntErr(m.0, m.1)),
            }
        },
        _ => Err(Error::StrErr("ParseNumberError")),
    }
}

/// Byte slicing of the date text panics: its last numeric character is not a
/// one-byte character.
pub open spec fn date_text_panics(s: Seq<char>) -> bool {
    match (find_numeric(s), rfind_numeric(s)) {
        (Some(a), Some(b)) => b < a || (s[b] as u32) >= 128,
        _ => false,
    }
}

/// The date that a date text such as "от 01.02.24" gives: the text from the
/// first to the last numeric character, read as day, month and two-digit year.
pub open spec fn spec_parse_date(s: Seq<char>) -> Result<Date, ErrorView> {
    match (find_numeric(s), rfind_numeric(s)) {
        (Some(a), Some(b)) => spec_date_from_parsed(
            naive_date_from_str(s.subrange(a, b + 1), date_format()),
        ),
        _ => Err(ErrorView::StrErr("ParseDateError"@)),
    }
}

/// Reads the date out of the text of the date element.
pub fn parse_date(date: &str) -> (r: Result<Date, Error>)
    requires
        !date_text_panics(date@),
    ensures
        match r {
            Ok(d) => spec_parse_date(date@) == Ok::<Date, ErrorView>(d),
            Err(e) => spec_parse_date(date@) == Err::<Date, ErrorView>(e@),
        },
{
    let chars = chars_of(date);
    let start = find_first_numeric(&chars);
    let end = find_last_numeric(&chars);
    match (start, end) {
        (Some(a), Some(b)) => {
            assert(is_last_numeric(chars@, b as int));
            assert(b < chars.len());
            let text = date.substring_char(a, b + 1);
            let fmt = "%d.%m.%y";
            date_from_parsed(parse_naive_date(text, fmt))
        },
        _ => Err(Error::StrErr("ParseDateError")),
    }
}

// ---------------------------------------------------------------------------
// Tenders

/// One tender of the listing.
#[derive(Debug)]
pub struct Tender {
    pub id: usize,
    pub date: Option<Date>,
    pub description: String,
    pub url: String,
}

/// A tender as plain values.
pub struct TenderView {
    pub id: usize,
    pub date: Option<Date>,
    pub description: Seq<char>,
    pub url: Seq<char>,
}

impl View for Tender {
    type V = TenderView;

    open spec fn view(&self) -> TenderView {
        TenderView {
            id: self.id,
            date: self.date,
            description: self.description@,
            url: self.url@,
        }
    }
}

impl Clone for Tender {
    fn clone(&self) -> (r: Self)
        ensures
            r@ == self@,
    {
        Tender {
            id: self.id,
            date: self.date,
            description: self.description.clone(),
            url: self.url.clone(),
        }
    }
}

/// The attributes of a tender's link element.
#[derive(Debug)]
pub struct RawLink {
    pub href: Option<String>,
    pub title: Option<String>,
}

/// What the page shows of one tender block, before it is read: the first text
/// of the number element, the first text of the date element, and the link
/// element, each where the block has one.
#[derive(Debug)]
pub struct RawTender {
    pub number_text: Option<String>,
    pub date_text: Option<String>,
    pub link: Option<RawLink>,
}

impl RawLink {
    /// The attributes of a link element.
    pub fn new(href: Option<String>, title: Option<String>) -> (r: RawLink)
        ensures
            r.href == href,
            r.title == title,
    {
        RawLink { href, title }
    }
}

impl RawTender {
    /// What the page shows of a tender block.
    pub fn new(number_text: Option<String>, date_text: Option<String>, link: Option<RawLink>) -> (r: RawTender)
        ensures
            r.number_text == number_text,
            r.date_text == date_text,
            r.link == link,
    {
        RawTender { number_text, date_text, link }
    }
}

pub open spec fn opt_view(o: Option<String>) -> Option<Seq<char>> {
    match o {
        Some(s) => Some(s@),
        None => None,
    }
}

/// A tender block as plain values.
pub struct RawTenderView {
    pub number_text: Option<Seq<char>>,
    pub date_text: Option<Seq<char>>,
    pub link: Option<(Option<Seq<char>>, Option<Seq<char>>)>,
}

impl View for RawTender {
    type V = RawTenderView;

    open spec fn view(&self) -> RawTenderView {
        RawTenderView {
            number_text: opt_view(self.number_text),
            date_text: opt_view(self.date_text),
            link: match self.link {
                Some(l) => Some((opt_view(l.href), opt_view(l.title))),
                None => None,
            },
        }
    }
}

/// The address of the site, before the path that a link gives.
pub open spec fn site_origin() -> Seq<char> {
    "https://rostender.info"@
}

/// The date of a block: none without a date text, else the date read from it.
pub open spec fn spec_parse_optional_date(d: Option<Seq<char>>) -> Result<Option<Date>, ErrorView> {
    match d {
        None => Ok(None),
        Some(t) => match spec_parse_date(t) {
            Ok(x) => Ok(Some(x)),
            Err(e) => Err(e),
        },
    }
}

/// The tender that a block gives, or the first error met: the number is read
/// first, then the date, then the link, whose `href` is a path on the site and
/// whose `title` is the description.
pub open spec fn spec_parse_element(r: RawTenderView) -> Result<TenderView, ErrorView> {
    match r.number_text {
        None => Err(ErrorView::StrErr("NumberElementNoFound"@)),
        Some(n) => match spec_parse_number(n) {
            Err(e) => Err(e),
            Ok(id) => match spec_parse_optional_date(r.date_text) {
                Err(e) => Err(e),
                Ok(date) => match r.link {
                    Some((Some(href), Some(title))) => Ok(
                        TenderView { id, date, url: site_origin() + href, description: title },
                    ),
                    _ => Err(ErrorView::StrErr("DescriptionElementNoFound"@)),
                },
            },
        },
    }
}

/// Reading the block panics: on its number text, or, where the number is
/// read, on its date text.
pub open spec fn element_panics(r: RawTenderView) -> bool {
    match r.number_text {
        None => false,
        Some(n) => number_text_panics(n) || (spec_parse_number(n) is Ok && match r.date_text {
            Some(d) => date_text_panics(d),
            None => false,
        }),
    }
}

/// The result of reading a block, as plain values.
pub open spec fn outcome_view(r: Result<Tender, Error>) -> Result<TenderView, ErrorView> {
    match r {
        Ok(t) => Ok(t@),
        Err(e) => Err(e@),
    }
}

/// Whether reading the block panics: the checks of `element_panics`, made on the block.
pub fn element_would_panic(raw: &RawTender) -> (r: bool)
    ensures
        r == element_panics(raw@),
{
    match &raw.number_text {
        None => false,
        Some(n) => {
            if number_would_panic(n.as_str()) {
                true
            } else {
                match parse_number(n.as_str()) {
                    Err(_) => false,
                    Ok(_) => match &raw.date_text {
                        None => false,
                        Some(d) => date_would_panic(d.as_str()),
                    },
                }
            }
        },
    }
}

/// Whether reading this number text panics.
pub fn number_would_panic(number: &str) -> (r: bool)
    ensures
        r == number_text_panics(number@),
{
    let chars = chars_of(number);
    match (find_first_of(&chars, '\u{2116}'), find_last_numeric(&chars)) {
        (Some(a), Some(b)) => b < a || (chars[b] as u32) >= 128,
        _ => false,
    }
}

/// Whether reading this date text panics.
pub fn date_would_panic(date: &str) -> (r: bool)
    ensures
        r == date_text_panics(date@),
{
    let chars = chars_of(date);
    match (find_first_numeric(&chars), find_last_numeric(&chars)) {
        (Some(a), Some(b)) => b < a || (chars[b] as u32) >= 128,
        _ => false,
    }
}

/// Reads one tender block.
pub fn parse_element(raw: &RawTender) -> (r: Result<Tender, Error>)
    requires
        !element_panics(raw@),
    ensures
        outcome_view(r) == spec_parse_element(raw@),
{
    let id = match &raw.number_text {
        None => {
            return Err(Error::StrErr("NumberElementNoFound"));
        },
        Some(n) => match parse_number(n.as_str()) {
            Ok(v) => v,
            Err(e) => {
                return Err(e);
            },
        },
    };
    let date = match &raw.date_text {
        None => None,
        Some(d) => match parse_date(d.as_str()) {
            Ok(x) => Some(x),
            Err(e) => {
                return Err(e);
            },
        },
    };
    match &raw.link {
        Some(link) => match (&link.href, &link.title) {
            (Some(href), Some(title)) => {
                let mut url = String::from_str("https://rostender.info");
                url.append(href.as_str());
                Ok(Tender { id, date, url, description: title.clone() })
            },
            _ => Err(Error::StrErr("DescriptionElementNoFound")),
        },
        None => Err(Error::StrErr("DescriptionElementNoFound")),
    }
}

// ---------------------------------------------------------------------------
// The page's markup

/// Whether `scraper::Selector::parse` accepts the selector text.
pub uninterp spec fn selector_parses(css: Seq<char>) -> bool;

/// What scraper finds in the page `content`: for every element that the
/// selector `block` matches, in document order, the first text node of its
/// first descendant matching `number`, the same for `date`, and the `href` and
/// `title` attributes of its first descendant matching `link`.
pub uninterp spec fn page_blocks(
    content: Seq<char>,
    block: Seq<char>,
    number: Seq<char>,
    date: Seq<char>,
    link: Seq<char>,
) -> Seq<RawTenderView>;

/// The blocks of a list, as plain values.
pub open spec fn raw_views(v: Seq<RawTender>) -> Seq<RawTenderView> {
    v.map_values(|t: RawTender| t@)
}

/// `scraper::Html::parse_document`, then `Html::select` with the `block`
/// selector and, within each match, `ElementRef::select(..).next()`,
/// `ElementRef::text().next()` and `ElementRef::attr`, the found texts copied
/// into a `RawTender` per match. Claimed: `None` exactly where one of the four
/// selector texts does not parse (`Selector::parse`); else the blocks depend
/// on the five texts alone.
#[verifier::external_body]
pub(crate) fn scrape_blocks(content: &str, block: &str, number: &str, date: &str, link: &str) -> (r: Option<Vec<RawTender>>)
    ensures
        r is Some <==> (selector_parses(block@) && selector_parses(number@) && selector_parses(date@)
            && selector_parses(link@)),
        r matches Some(v) ==> raw_views(v@) == page_blocks(content@, block@, number@, date@, link@),
{
    let sel = |c| Selector::parse(c).ok();
    let (b, n, d, l) = (sel(block)?, sel(number)?, sel(date)?, sel(link)?);
    let text = |e: ElementRef, s| e.select(s).next()?.text().next().map(String::from);
    let attr = |e: ElementRef, k| e.attr(k).map(String::from);
    Some(Html::parse_document(content).select(&b).map(|e| RawTender::new(text(e, &n), text(e, &d),
        e.select(&l).next().map(|a| RawLink::new(attr(a, "href"), attr(a, "title"))))).collect())
}

/// The selector of a tender block.
pub open spec fn block_selector() -> Seq<char> {
    "div.tender__info"@
}

/// The selector of a tender's number, within its block.
pub open spec fn number_selector() -> Seq<char> {
    "span.tender__number"@
}

/// The selector of a tender's date, within its block.
pub open spec fn date_selector() -> Seq<char> {
    "span.tender__date-start"@
}

/// The selector of a tender's link, within its block.
pub open spec fn link_selector() -> Seq<char> {
    "a"@
}

/// The four selectors of a tender page parse.
pub open spec fn tender_selectors_parse() -> bool {
    selector_parses(block_selector()) && selector_parses(number_selector()) && selector_parses(
        date_selector(),
    ) && selector_parses(link_selector())
}

/// The tender blocks of the page `content`.
pub open spec fn tender_blocks(content: Seq<char>) -> Seq<RawTenderView> {
    page_blocks(content, block_selector(), number_selector(), date_selector(), link_selector())
}

/// Takes the tender blocks of a page, in document order, apart into what the
/// page shows of each; `None` where the selectors do not parse.
pub fn extract_tenders(content: &str) -> (r: Option<Vec<RawTender>>)
    ensures
        r is Some <==> tender_selectors_parse(),
        r matches Some(v) ==> raw_views(v@) == tender_blocks(content@),
{
    scrape_blocks(content, "div.tender__info", "span.tender__number", "span.tender__date-start", "a")
}

/// The tenders of one page, read one block after another.
pub struct TendersIter {
    pub items: Vec<RawTender>,
    pub pos: usize,
}

impl TendersIter {
    /// The tender blocks of the page `content`, none read yet; `None` where
    /// the selectors do not parse.
    pub fn new(content: &str) -> (r: Option<TendersIter>)
        ensures
            r is Some <==> tender_selectors_parse(),
            r matches Some(it) ==> it.pos == 0 && it.blocks() == tender_blocks(content@),
    {
        match extract_tenders(content) {
            Some(items) => Some(TendersIter { items, pos: 0 }),
            None => None,
        }
    }

    /// The given blocks, none read yet.
    pub fn from_raw(items: Vec<RawTender>) -> (r: TendersIter)
        ensures
            r.items@ == items@,
            r.pos == 0,
    {
        TendersIter { items, pos: 0 }
    }

    /// The blocks as plain values.
    pub open spec fn blocks(&self) -> Seq<RawTenderView> {
        raw_views(self.items@)
    }

    /// Whether reading the next block panics.
    pub fn next_would_panic(&self) -> (r: bool)
        requires
            self.pos <= self.items.len(),
        ensures
            r == (self.pos < self.items.len() && element_panics(self.blocks()[self.pos as int])),
    {
        if self.pos < self.items.len() {
            element_would_panic(&self.items[self.pos])
        } else {
            false
        }
    }

    /// Reads the next block: `None` once all are read.
    pub fn next(&mut self) -> (r: Option<Result<Tender, Error>>)
        requires
            old(self).pos <= old(self).items.len(),
            old(self).pos < old(self).items.len() ==> !element_panics(
                old(self).blocks()[old(self).pos as int],
            ),
        ensures
            final(self).items@ == old(self).items@,
            old(self).pos < old(self).items.len() ==> {
                &&& final(self).pos == old(self).pos + 1
                &&& r matches Some(o) && outcome_view(o) == spec_parse_element(
                    old(self).blocks()[old(self).pos as int],
                )
            },
            old(self).pos >= old(self).items.len() ==> final(self).pos == old(self).pos && r is None,
    {
        if self.pos < self.items.len() {
            let o = parse_element(&self.items[self.pos]);
            self.pos = self.pos + 1;
            Some(o)
        } else {
            None
        }
    }
}

// ---------------------------------------------------------------------------
// Laws of reading a block

/// The digits of a number as `{}` writes it: ASCII digits, no leading zero
/// unless the number is 0.
pub open spec fn is_plain_decimal(t: Seq<char>) -> bool {
    &&& t.len() > 0
    &&& forall|i: int| 0 <= i < t.len() ==> #[trigger] is_ascii_digit(t[i])
    &&& (t[0] == '0' ==> t.len() == 1)
}

proof fn lemma_digits_value_positive(t: Seq<char>)
    requires
        t.len() > 0,
        forall|i: int| 0 <= i < t.len() ==> #[trigger] is_ascii_digit(t[i]),
        t[0] != '0',
    ensures
        digits_value(t) >= 1,
    decreases t.len(),
{
    if t.len() > 1 {
        let u = t.drop_last();
        assert forall|i: int| 0 <= i < u.len() implies #[trigger] is_ascii_digit(u[i]) by {
            assert(u[i] == t[i]);
        }
        assert(u[0] == t[0]);
        lemma_digits_value_positive(u);
    } else {
        assert(t.drop_last().len() == 0);
        assert(t.last() == t[0]);
        assert(is_ascii_digit(t[0]));
    }
}

proof fn lemma_dec_of_digits(t: Seq<char>)
    requires
        is_plain_decimal(t),
    ensures
        dec(digits_value(t)) == t,
    decreases t.len(),
{
    let c = t.last();
    assert(is_ascii_digit(c));
    let d = ((c as nat) - 48) as nat;
    assert(d < 10);
    assert(digit_char(d) == c);
    if t.len() == 1 {
        assert(t.drop_last().len() == 0);
        assert(digits_value(t.drop_last()) == 0);
        assert(digits_value(t) == digits_value(t.drop_last()) * 10 + d);
        assert(digits_value(t) == d);
        assert(dec(d) =~= t);
    } else {
        let u = t.drop_last();
        assert forall|i: int| 0 <= i < u.len() implies #[trigger] is_ascii_digit(u[i]) by {
            assert(u[i] == t[i]);
        }
        assert(u[0] == t[0]);
        lemma_digits_value_positive(u);
        lemma_dec_of_digits(u);
        let x = digits_value(u);
        let n = digits_value(t);
        assert(n == x * 10 + d);
        assert(n / 10 == x && n % 10 == d) by (nonlinear_arith)
            requires
                n == x * 10 + d,
                d < 10,
        ;
        assert(n >= 10);
        assert(dec(n) == dec(n / 10).push(digit_char(n % 10)));
        assert(dec(n) =~= t);
    }
}

/// Reading a tender number keeps every digit: where the text between the
/// number sign and the last numeric character is a number as `{}` writes it,
/// the number read, written back, is that text.
pub proof fn lemma_number_round_trip(s: Seq<char>, a: int, b: int)
    requires
        find_char(s, number_sign()) == Some(a),
        rfind_numeric(s) == Some(b),
        is_plain_decimal(s.subrange(a + 1, b + 1)),
        spec_parse_number(s) is Ok,
    ensures
        spec_parse_number(s) matches Ok(v) && dec(v as nat) == s.subrange(a + 1, b + 1),
{
    let t = s.subrange(a + 1, b + 1);
    assert(is_ascii_digit(t[0]));
    assert(unsigned_digits(t) == t);
    lemma_dec_of_digits(t);
}

/// A tender read from a block carries the block's link in full: its address
/// is the site followed by the link's `href`, and its description is the
/// link's `title`, every character of it.
pub proof fn lemma_element_link(r: RawTenderView)
    ensures
        spec_parse_element(r) matches Ok(t) ==> exists|href: Seq<char>, title: Seq<char>|
            r.link == Some((Some(href), Some(title))) && t.url == "https://rostender.info"@ + href
                && #[trigger] t.description.len() == title.len() && t.description == title,
{
    if let Ok(t) = spec_parse_element(r) {
        if let Some((Some(href), Some(title))) = r.link {
            assert(r.link == Some((Some(href), Some(title))) && t.url == "https://rostender.info"@ + href
                && t.description.len() == title.len() && t.description == title);
        }
    }
}

/// The date read is the one chrono reads from the date text with the format
/// `%d.%m.%y`, its year, month and day unchanged; where chrono reads one,
/// reading succeeds.
pub proof fn lemma_date_as_chrono_reads(p: Option<(i32, u32, u32)>)
    ensures
        spec_date_from_parsed(p) matches Ok(d) ==> p == Some((d.year, d.month, d.day)),
        p is Some <==> spec_date_from_parsed(p) is Ok,
{
}

/// A date read from a date text is chrono's reading of the text from its first
/// to its last numeric character, with the format `%d.%m.%y`.
pub proof fn lemma_parse_date_as_chrono_reads(s: Seq<char>)
    ensures
        spec_parse_date(s) matches Ok(d) ==> exists|a: int, b: int|
            find_numeric(s) == Some(a) && rfind_numeric(s) == Some(b) && #[trigger] naive_date_from_str(
                s.subrange(a, b + 1),
                "%d.%m.%y"@,
            ) == Some((d.year, d.month, d.day)),
{
    if let Ok(d) = spec_parse_date(s) {
        if let (Some(a), Some(b)) = (find_numeric(s), rfind_numeric(s)) {
            lemma_date_as_chrono_reads(naive_date_from_str(s.subrange(a, b + 1), date_format()));
        }
    }
}

} // verus!
