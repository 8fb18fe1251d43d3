use tender_parser::error::Error;
use tender_parser::text::{dec_len, push_dec, push_dec_i32, push_dec_width3, push_dec_zero2, chars_of};

#[test]
fn decimal_rendering_matches_format() {
    for n in [0u64, 7, 10, 99, 100, 12345, u64::MAX] {
        let mut s = String::new();
        push_dec(&mut s, n);
        assert_eq!(s, format!("{}", n));
        assert_eq!(dec_len(n) as usize, s.len());
        let mut w = String::new();
        push_dec_width3(&mut w, n);
        assert_eq!(w, format!("{:3}", n));
        let mut z = String::new();
        push_dec_zero2(&mut z, n);
        assert_eq!(z, format!("{:0>2}", n));
    }
    for n in [0i32, -1, 2024, i32::MIN, i32::MAX] {
        let mut s = String::from("x");
        push_dec_i32(&mut s, n);
        assert_eq!(s, format!("x{}", n));
    }
}

#[test]
fn chars_are_collected() {
    assert_eq!(chars_of("№1a"), vec!['№', '1', 'a']);
}

#[test]
fn error_messages() {
    assert_eq!(Error::StrErr("NoUrlData").message(), "NoUrlData");
    assert_eq!(Error::StatusCodeErr(404).message(), "Satus Code: 404");
    assert_eq!(Error::ParseIntErr("bad".to_string(), "Bad".to_string()).message(), "bad");
}

#[test]
fn error_debug_texts() {
    assert_eq!(Error::StrErr("NoUrlData").debug_text(), "\"NoUrlData\"");
    assert_eq!(
        Error::StrErr("Attribute \"min\" not found").debug_text(),
        format!("{:?}", "Attribute \"min\" not found")
    );
    assert_eq!(Error::StatusCodeErr(404).debug_text(), "Satus Code: 404");
    assert_eq!(Error::ParseIntErr("bad".to_string(), "Bad".to_string()).debug_text(), "Bad");
}
