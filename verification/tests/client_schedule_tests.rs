use tender_parser::client::{
    check_status, page_url, pages_range, pages_range_from, search_url, PagesRange,
    PaginationAttrs, StopFlag,
};
use tender_parser::error::Error;
use tender_parser::schedule::{TimeOfDay, TimeTable};

fn attrs(min: Option<&str>, max: Option<&str>) -> Option<PaginationAttrs> {
    Some(PaginationAttrs { min: min.map(|s| s.to_string()), max: max.map(|s| s.to_string()) })
}

#[test]
fn no_pagination_means_first_page_only() {
    assert_eq!(pages_range_from(&None, 0).unwrap(), PagesRange { start: 1, end: 1 });
}

#[test]
fn pages_are_cut_to_the_limit() {
    assert_eq!(pages_range_from(&attrs(Some("1"), Some("40")), 10).unwrap(), PagesRange { start: 1, end: 10 });
    assert_eq!(pages_range_from(&attrs(Some("1"), Some("4")), 10).unwrap(), PagesRange { start: 1, end: 4 });
    assert!(pages_range_from(&attrs(Some("1"), Some("4")), 0).unwrap().is_empty());
}

#[test]
fn pagination_errors() {
    match pages_range_from(&attrs(None, Some("3")), 5) {
        Err(Error::StrErr(s)) => assert_eq!(s, "Attribute \"min\" not found"),
        other => panic!("unexpected {:?}", other),
    }
    match pages_range_from(&attrs(Some("1"), None), 5) {
        Err(Error::StrErr(s)) => assert_eq!(s, "Attribute \"max\" not found"),
        other => panic!("unexpected {:?}", other),
    }
    let expected = "70000".parse::<u16>().unwrap_err().to_string();
    match pages_range_from(&attrs(Some("1"), Some("70000")), 5) {
        Err(Error::ParseIntErr(m, d)) => {
            assert_eq!(m, expected);
            assert_eq!(d, format!("{:?}", "70000".parse::<u16>().unwrap_err()));
        }
        other => panic!("unexpected {:?}", other),
    }
}

#[test]
fn pagination_is_read_from_the_page() {
    let page = r#"<form id="paginationForm"><div><input class="form-control set-page-form__input" min="1" max="25"></div></form>"#;
    assert_eq!(pages_range(page, 12).unwrap().unwrap(), PagesRange { start: 1, end: 12 });
    assert_eq!(pages_range("<p>one page</p>", 12).unwrap().unwrap(), PagesRange { start: 1, end: 1 });
}

#[test]
fn urls_and_statuses() {
    assert_eq!(page_url("https://rostender.info/extsearch?id=1", 3), "https://rostender.info/extsearch?id=1&page=3");
    assert!(check_status(200).is_ok());
    match check_status(302) {
        Err(e) => assert_eq!(e.message(), "Satus Code: 302"),
        Ok(()) => panic!("expected an error"),
    }
    assert_eq!(search_url(Some(Some("/s?x=1"))).unwrap(), "/s?x=1");
    assert_eq!(search_url(None).unwrap_err().message(), "NoUrlData");
    assert_eq!(search_url(Some(None)).unwrap_err().message(), "failed to convert header to a str");
}

#[test]
fn stop_flag_is_shared_by_copies() {
    let f = StopFlag::new();
    let g = f.clone();
    assert!(!g.is_stoped());
    f.stop();
    assert!(g.is_stoped());
    assert!(f.is_stoped());
}

fn t(h: u32, m: u32, s: u32) -> TimeOfDay {
    TimeOfDay { secs: h * 3600 + m * 60 + s, frac: 0 }
}

#[test]
fn timetable_is_sorted_without_repeats() {
    let table = TimeTable::new(vec![t(18, 0, 0), t(9, 0, 0), t(18, 0, 0), t(12, 30, 0)]);
    assert_eq!(table.times, vec![t(9, 0, 0), t(12, 30, 0), t(18, 0, 0)]);
}

#[test]
fn wait_until_next_start() {
    let table = TimeTable::new(vec![t(9, 0, 0), t(18, 0, 0)]);
    let hour: u64 = 3_600_000_000_000;
    assert_eq!(table.next_wait(t(8, 0, 0)), Some(hour));
    assert_eq!(table.next_wait(t(9, 0, 0)), Some(0));
    assert_eq!(table.next_wait(t(17, 0, 0)), Some(hour));
    assert_eq!(table.next_wait(t(20, 0, 0)), Some(13 * hour));
    let half = TimeOfDay { secs: 9 * 3600 - 1, frac: 500_000_000 };
    assert_eq!(table.next_wait(half), Some(500_000_000));
    assert_eq!(TimeTable::new(vec![]).next_wait(t(1, 0, 0)), None);
}

#[test]
fn leap_second_counts_in_the_wait() {
    let table = TimeTable::new(vec![t(0, 1, 0)]);
    let leap = TimeOfDay { secs: 59, frac: 1_500_000_000 };
    assert_eq!(table.next_wait(leap), Some(500_000_000));
    let table = TimeTable::new(vec![TimeOfDay { secs: 59, frac: 1_200_000_000 }]);
    assert_eq!(table.next_wait(t(0, 0, 58)), Some(2_200_000_000));
}

#[test]
fn same_times_give_the_same_timetable() {
    let a = TimeTable::new(vec![t(7, 0, 0), t(1, 0, 0), t(7, 0, 0)]);
    let b = TimeTable::new(vec![t(1, 0, 0), t(7, 0, 0)]);
    assert_eq!(a.times, b.times);
    for h in 0..24 {
        assert_eq!(a.next_wait(t(h, 30, 0)), b.next_wait(t(h, 30, 0)));
    }
}

#[test]
fn wait_is_under_a_day_without_leap_seconds() {
    let table = TimeTable::new(vec![t(0, 0, 0)]);
    let day: u64 = 86_400_000_000_000;
    assert_eq!(table.next_wait(TimeOfDay { secs: 1, frac: 0 }), Some(day - 1_000_000_000));
    assert_eq!(table.next_wait(TimeOfDay { secs: 0, frac: 1 }), Some(0));
    let leap = TimeTable::new(vec![TimeOfDay { secs: 86399, frac: 1_999_999_999 }]);
    assert!(leap.next_wait(t(0, 0, 0)).unwrap() > day);
}
