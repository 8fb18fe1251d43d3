use std::collections::HashMap;
use tender_parser::page_parser::{parse_element, Date, RawLink, RawTender, Tender, TendersIter};
use tender_parser::storage::TendersStorage;
use tender_parser::workers::{
    html_backup_path, join_results, page_head, report_log_path, ParseSession, ParsingResult,
};

fn block(number: &str, href: &str) -> RawTender {
    RawTender {
        number_text: Some(number.to_string()),
        date_text: None,
        link: Some(RawLink { href: Some(href.to_string()), title: Some(format!("t{}", href)) }),
    }
}

fn tender(id: usize) -> Tender {
    parse_element(&block(&format!("№{}", id), &format!("/{}", id))).unwrap()
}

#[test]
fn page_adds_new_tenders_and_reports_each_block() {
    let mut storage = TendersStorage::new();
    storage.push(tender(2));
    let mut s = ParseSession::new(storage);
    let page = TendersIter::from_raw(vec![block("№1", "/1"), block("№2", "/2"), block("№1", "/1b")]);
    let out = s.handle_page(page, 1, "kw");
    assert!(!out.panicked);
    assert!(!out.stop);
    assert_eq!(
        s.report,
        "2 tenders were found on page 1 for the query 'kw'\n\
         \t  1. [  OK  ] Tender number 1 has been added to the list.\n\
         \t  2. [ PASS ] Tender number 2 was added in another session.\n\
         \t  3. [ PASS ] Tender number 1 already exists in list.\n"
    );
    assert_eq!(s.tenders.len(), 1);
    assert_eq!(s.tenders[0].id, 1);
    assert!(s.storage.contains(&tender(1)));
    assert!(s.tender_ids.contains(&2));
}

#[test]
fn page_of_known_tenders_stops_the_query() {
    let mut storage = TendersStorage::new();
    storage.push(tender(5));
    let mut s = ParseSession::new(storage);
    let out = s.handle_page(TendersIter::from_raw(vec![block("№5", "/5")]), 3, "q");
    assert!(out.stop);
    assert_eq!(s.tenders.len(), 0);
    assert_eq!(
        s.report,
        "1 tenders were found on page 3 for the query 'q'\n\t  1. [ PASS ] Tender number 5 was added in another session.\n"
    );
}

#[test]
fn empty_page_stops_the_query() {
    let mut s = ParseSession::new(TendersStorage::new());
    let out = s.handle_page(TendersIter::from_raw(vec![]), 2, "q");
    assert!(out.stop);
    assert_eq!(s.report, "0 tenders were found on page 2 for the query 'q'\n");
}

#[test]
fn tender_seen_on_earlier_page_is_passed_over() {
    let mut s = ParseSession::new(TendersStorage::new());
    let first = s.handle_page(TendersIter::from_raw(vec![block("№8", "/8")]), 1, "a");
    assert!(!first.stop);
    let second = s.handle_page(TendersIter::from_raw(vec![block("№8", "/8")]), 2, "a");
    assert!(second.stop);
    assert_eq!(s.tenders.len(), 1);
    assert!(s.report.ends_with("0 tenders were found on page 2 for the query 'a'\n\t  1. [ PASS ] Tender number 8 already exists in list.\n"));
}

#[test]
fn block_errors_are_reported() {
    let mut s = ParseSession::new(TendersStorage::new());
    let bad = RawTender { number_text: None, date_text: None, link: None };
    let out = s.handle_page(TendersIter::from_raw(vec![bad]), 1, "k");
    assert!(out.stop);
    assert_eq!(
        s.report,
        "0 tenders were found on page 1 for the query 'k'\n\t  1. [ ERROR ] 'NumberElementNoFound'\n"
    );
}

#[test]
fn panicking_block_stops_reading_after_earlier_blocks() {
    let mut s = ParseSession::new(TendersStorage::new());
    let bad = RawTender { number_text: Some("7 №".to_string()), date_text: None, link: None };
    let out = s.handle_page(TendersIter::from_raw(vec![block("№1", "/1"), bad, block("№2", "/2")]), 1, "k");
    assert!(out.panicked);
    assert!(!out.stop);
    assert_eq!(s.tenders.len(), 1);
    assert_eq!(s.report, "");
    assert!(s.storage.contains(&tender(1)));
    assert!(!s.storage.contains(&tender(2)));
}

#[test]
fn page_errors_are_reported() {
    let mut s = ParseSession::new(TendersStorage::new());
    s.record_page_error(4, "kw", "timeout");
    assert_eq!(s.report, "An error occurred on page 4 with the query 'kw': 'timeout'\n");
}

#[test]
fn finish_hands_out_list_report_and_storage() {
    let mut s = ParseSession::new(TendersStorage::new());
    s.handle_page(TendersIter::from_raw(vec![block("№3", "/3")]), 1, "k");
    let (result, storage) = s.finish();
    assert_eq!(result.tenders.len(), 1);
    assert!(result.report.starts_with("1 tenders"));
    assert!(storage.contains(&tender(3)));
}

#[test]
fn render_lists_tenders_in_order() {
    let mut a = tender(10);
    a.date = Some(Date { year: 2024, month: 3, day: 7 });
    let b = tender(11);
    let r = ParsingResult { tenders: vec![a, b], report: String::new() };
    let expected = format!(
        "{}<body><div class=\"block\"><div class=\"row\"><div class=\"number\">Тендер №10</div><div class=\"date\">от 07.03.2024</div></div><div class=\"description\"><a href=\"https://rostender.info/10\" target=\"_blank\">t/10</a></div></div>\n<div class=\"block\"><div class=\"row\"><div class=\"number\">Тендер №11</div></div><div class=\"description\"><a href=\"https://rostender.info/11\" target=\"_blank\">t/11</a></div></div>\n</body></html>",
        page_head()
    );
    assert_eq!(r.render(), expected);
}

#[test]
fn render_of_no_tenders_is_an_empty_body() {
    let r = ParsingResult { tenders: vec![], report: String::new() };
    assert_eq!(r.render(), format!("{}<body></body></html>", page_head()));
}

#[test]
fn file_paths_carry_the_time_stamp() {
    assert_eq!(report_log_path(2025, 1, 2, 3, 4, 5), "./log/20250102030405.txt");
    assert_eq!(html_backup_path(2024, 12, 31, 23, 59, 9), "./20241231235909.html");
}

#[test]
fn request_error_wins_over_parsing_outcome() {
    let r: Result<u8, &str> = join_results(Err("net"), Ok(1));
    assert_eq!(r, Err("net"));
    let r: Result<u8, &str> = join_results(Ok(()), Err("parse"));
    assert_eq!(r, Err("parse"));
    let r: Result<u8, &str> = join_results(Ok(()), Ok(2));
    assert_eq!(r, Ok(2));
}

#[test]
fn storage_push_then_contains() {
    let mut st = TendersStorage::from_map(HashMap::new());
    assert!(!st.contains(&tender(9)));
    st.push(tender(9));
    assert!(st.contains(&tender(9)));
    assert!(!st.contains(&tender(10)));
}

#[test]
fn page_count_wraps_like_a_u16() {
    let blocks: Vec<RawTender> = (1..=65536usize).map(|i| block(&format!("№{}", i), "/x")).collect();
    let mut s = ParseSession::new(TendersStorage::new());
    let out = s.handle_page(TendersIter::from_raw(blocks), 1, "k");
    assert!(!out.panicked);
    assert_eq!(s.tenders.len(), 65536);
    assert!(out.stop);
    assert!(s.report.starts_with("0 tenders were found on page 1 for the query 'k'\n"));
}

#[test]
fn storage_gains_exactly_the_listed_tenders() {
    let mut storage = TendersStorage::new();
    storage.push(tender(1));
    let mut s = ParseSession::new(storage);
    s.handle_page(TendersIter::from_raw(vec![block("№1", "/1"), block("№2", "/2")]), 1, "a");
    s.record_page_error(2, "a", "e");
    s.handle_page(TendersIter::from_raw(vec![block("№3", "/3"), block("№2", "/2")]), 1, "b");
    let ids: Vec<usize> = s.tenders.iter().map(|t| t.id).collect();
    assert_eq!(ids, vec![2, 3]);
    let mut stored: Vec<usize> = s.storage.0.keys().copied().collect();
    stored.sort();
    assert_eq!(stored, vec![1, 2, 3]);
    assert!(s.report.contains("An error occurred on page 2 with the query 'a': 'e'\n1 tenders were found on page 1 for the query 'b'"));
}
