use tender_parser::error::Error;
use tender_parser::page_parser::{
    date_would_panic, element_would_panic, number_would_panic, parse_date, parse_element,
    parse_number, Date, RawLink, RawTender, TendersIter,
};

fn raw(number: Option<&str>, date: Option<&str>, link: Option<(Option<&str>, Option<&str>)>) -> RawTender {
    RawTender {
        number_text: number.map(|s| s.to_string()),
        date_text: date.map(|s| s.to_string()),
        link: link.map(|(h, t)| RawLink { href: h.map(|s| s.to_string()), title: t.map(|s| s.to_string()) }),
    }
}

#[test]
fn number_after_sign_is_read() {
    assert_eq!(parse_number("Тендер №12345").unwrap(), 12345);
    assert_eq!(parse_number("№7").unwrap(), 7);
}

#[test]
fn number_text_stops_at_last_digit() {
    assert_eq!(parse_number("Тендер №98765 (открыт)").unwrap(), 98765);
}

#[test]
fn number_without_sign_is_an_error() {
    match parse_number("Тендер 12345") {
        Err(Error::StrErr(s)) => assert_eq!(s, "ParseNumberError"),
        other => panic!("unexpected {:?}", other),
    }
    match parse_number("Тендер №") {
        Err(Error::StrErr(s)) => assert_eq!(s, "ParseNumberError"),
        other => panic!("unexpected {:?}", other),
    }
}

#[test]
fn number_with_space_after_sign_is_a_parse_error() {
    let err = " 12".parse::<usize>().unwrap_err();
    match parse_number("№ 12") {
        Err(Error::ParseIntErr(m, d)) => {
            assert_eq!(m, err.to_string());
            assert_eq!(d, format!("{:?}", err));
        }
        other => panic!("unexpected {:?}", other),
    }
}

#[test]
fn number_too_large_is_a_parse_error() {
    let digits = "99999999999999999999999";
    let expected = digits.parse::<usize>().unwrap_err().to_string();
    match parse_number(&format!("№{}", digits)) {
        Err(Error::ParseIntErr(m, _)) => assert_eq!(m, expected),
        other => panic!("unexpected {:?}", other),
    }
}

#[test]
fn number_panics_are_detected() {
    assert!(number_would_panic("5 №"));
    assert!(number_would_panic("№1²"));
    assert!(!number_would_panic("№12"));
    assert!(!number_would_panic("no digits"));
}

#[test]
fn date_between_digits_is_read() {
    assert_eq!(parse_date("от 01.02.24").unwrap(), Date { year: 2024, month: 2, day: 1 });
    assert_eq!(parse_date("31.12.99 г.").unwrap(), Date { year: 1999, month: 12, day: 31 });
}

#[test]
fn date_errors() {
    match parse_date("без даты") {
        Err(Error::StrErr(s)) => assert_eq!(s, "ParseDateError"),
        other => panic!("unexpected {:?}", other),
    }
    match parse_date("от 31.02.24") {
        Err(Error::StrErr(s)) => assert_eq!(s, "ParseDateError"),
        other => panic!("unexpected {:?}", other),
    }
    assert!(date_would_panic("от 01.02.2²"));
    assert!(!date_would_panic("от 01.02.24"));
}

#[test]
fn element_gives_tender() {
    let r = raw(Some("Тендер №42"), Some("от 05.06.25"), Some((Some("/tender/42"), Some("Поставка бумаги"))));
    let t = parse_element(&r).unwrap();
    assert_eq!(t.id, 42);
    assert_eq!(t.date, Some(Date { year: 2025, month: 6, day: 5 }));
    assert_eq!(t.url, "https://rostender.info/tender/42");
    assert_eq!(t.description, "Поставка бумаги");
}

#[test]
fn element_without_date_has_none() {
    let r = raw(Some("№1"), None, Some((Some("/a"), Some("b"))));
    let t = parse_element(&r).unwrap();
    assert_eq!(t.date, None);
}

#[test]
fn element_errors_in_order() {
    match parse_element(&raw(None, Some("bad"), None)) {
        Err(Error::StrErr(s)) => assert_eq!(s, "NumberElementNoFound"),
        other => panic!("unexpected {:?}", other),
    }
    match parse_element(&raw(Some("№1"), Some("нет"), None)) {
        Err(Error::StrErr(s)) => assert_eq!(s, "ParseDateError"),
        other => panic!("unexpected {:?}", other),
    }
    match parse_element(&raw(Some("№1"), None, None)) {
        Err(Error::StrErr(s)) => assert_eq!(s, "DescriptionElementNoFound"),
        other => panic!("unexpected {:?}", other),
    }
    match parse_element(&raw(Some("№1"), None, Some((Some("/a"), None)))) {
        Err(Error::StrErr(s)) => assert_eq!(s, "DescriptionElementNoFound"),
        other => panic!("unexpected {:?}", other),
    }
    assert!(element_would_panic(&raw(Some("9 №"), None, None)));
    assert!(!element_would_panic(&raw(Some("№"), Some("1²"), None)));
    assert!(element_would_panic(&raw(Some("№1"), Some("1²"), None)));
}

const PAGE: &str = r#"<html><body>
<div class="tender__info"><span class="tender__number">Тендер №123</span>
<span class="tender__date-start">от 01.02.24</span>
<a href="/region/123" title="Поставка оборудования">Поставка</a></div>
<div class="tender__info"><span class="tender__number">Тендер №124</span>
<a href="/region/124" title="Ремонт">Ремонт</a></div>
<div class="tender__info"><a href="/x">x</a></div>
</body></html>"#;

#[test]
fn page_blocks_are_read_in_order() {
    let mut it = TendersIter::new(PAGE).expect("selectors parse");
    assert_eq!(it.items.len(), 3);
    let a = it.next().unwrap().unwrap();
    assert_eq!(a.id, 123);
    assert_eq!(a.date, Some(Date { year: 2024, month: 2, day: 1 }));
    assert_eq!(a.url, "https://rostender.info/region/123");
    assert_eq!(a.description, "Поставка оборудования");
    let b = it.next().unwrap().unwrap();
    assert_eq!(b.id, 124);
    assert_eq!(b.date, None);
    match it.next().unwrap() {
        Err(e) => assert_eq!(e.message(), "NumberElementNoFound"),
        Ok(t) => panic!("unexpected {:?}", t),
    }
    assert!(it.next().is_none());
}

#[test]
fn empty_page_has_no_blocks() {
    let mut it = TendersIter::new("<html></html>").expect("selectors parse");
    assert!(it.next().is_none());
    assert!(!it.next_would_panic());
}

#[test]
fn tender_clone_keeps_fields() {
    let t = parse_element(&raw(Some("№5"), Some("01.01.25"), Some((Some("/p"), Some("d"))))).unwrap();
    let c = t.clone();
    assert_eq!(c.id, t.id);
    assert_eq!(c.date, t.date);
    assert_eq!(c.url, t.url);
    assert_eq!(c.description, t.description);
}

#[test]
fn block_parts_are_taken_from_the_markup() {
    let page = r#"<div class="tender__info"><span class="tender__number"><b>№</b>55</span><a title="t">x</a><a href="/2" title="u">y</a></div>"#;
    let it = TendersIter::new(page).unwrap();
    assert_eq!(it.items.len(), 1);
    let b = &it.items[0];
    assert_eq!(b.number_text.as_deref(), Some("№"));
    assert_eq!(b.date_text, None);
    let link = b.link.as_ref().unwrap();
    assert_eq!(link.href, None);
    assert_eq!(link.title.as_deref(), Some("t"));
}
