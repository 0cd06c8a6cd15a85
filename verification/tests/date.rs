use tiny_msg::date::{find_date_text, parse_date, resolve_date, Timestamp};
use tiny_msg::error::MsgError;

fn text(r: Result<Vec<char>, MsgError>) -> Result<String, MsgError> {
    r.map(|chars| chars.into_iter().collect())
}

#[test]
fn date_text_follows_the_mark_on_the_date_line() {
    let headers = "Received: by host\r\nDate: Sun, 21 Nov 2021 09:55:06 +0000\r\nSubject: x\r\n";
    assert_eq!(text(find_date_text(headers)), Ok("Sun, 21 Nov 2021 09:55:06 +0000".to_string()));
}

#[test]
fn date_text_is_taken_from_the_first_date_line() {
    let headers = "Date: first\nDate: second\n";
    assert_eq!(text(find_date_text(headers)), Ok("first".to_string()));
}

#[test]
fn date_text_splits_at_the_first_mark() {
    assert_eq!(text(find_date_text("Date: a: b")), Ok("a: b".to_string()));
    assert_eq!(text(find_date_text("Date-Sent: x")), Ok("x".to_string()));
    assert_eq!(text(find_date_text("Date: ")), Ok(String::new()));
}

#[test]
fn headers_without_date_line_violate_the_format() {
    assert_eq!(find_date_text("Subject: x\r\nFrom: y\r\n"), Err(MsgError::FormatViolation));
    assert_eq!(find_date_text(""), Err(MsgError::FormatViolation));
    assert_eq!(find_date_text("X-Date: Sun, 21 Nov 2021 09:55:06 +0000"), Err(MsgError::FormatViolation));
    assert_eq!(find_date_text("date: lower case"), Err(MsgError::FormatViolation));
    assert_eq!(resolve_date("Subject: x\r\n"), Err(MsgError::FormatViolation));
}

#[test]
fn date_line_without_mark_violates_the_format() {
    assert_eq!(find_date_text("Date:Sun\nDate: later"), Err(MsgError::FormatViolation));
    assert_eq!(find_date_text("Date"), Err(MsgError::FormatViolation));
}

#[test]
fn parse_date_reads_rfc_2822() {
    assert_eq!(
        parse_date("Sun, 21 Nov 2021 09:55:06 +0000"),
        Ok(Timestamp { seconds: 1637488506, nanos: 0, offset_seconds: 0 })
    );
    assert_eq!(
        parse_date("21 Nov 2021 09:55:06 +0000"),
        Ok(Timestamp { seconds: 1637488506, nanos: 0, offset_seconds: 0 })
    );
    assert_eq!(
        parse_date("Wed, 18 Feb 2015 23:16:09 GMT"),
        Ok(Timestamp { seconds: 1424301369, nanos: 0, offset_seconds: 0 })
    );
}

#[test]
fn parse_date_keeps_the_offset() {
    let date = parse_date("Sun, 21 Nov 2021 11:55:06 +0200").unwrap();
    assert_eq!(date, Timestamp { seconds: 1637488506, nanos: 0, offset_seconds: 7200 });
    assert_eq!(date.to_utc(), Timestamp { seconds: 1637488506, nanos: 0, offset_seconds: 0 });
    let west = parse_date("Sun, 21 Nov 2021 04:55:06 -0500").unwrap();
    assert_eq!(west, Timestamp { seconds: 1637488506, nanos: 0, offset_seconds: -18000 });
}

#[test]
fn parse_date_agrees_with_chrono() {
    for s in ["Sun, 21 Nov 2021 09:55:06 +0000", "Tue, 1 Jul 2003 10:52:37 +0200", "not a date", ""] {
        let expected = chrono::DateTime::parse_from_rfc2822(s)
            .ok()
            .map(|d| (d.timestamp(), d.timestamp_subsec_nanos(), d.offset().local_minus_utc()));
        let got = parse_date(s).ok().map(|t| (t.seconds, t.nanos, t.offset_seconds));
        assert_eq!(got, expected);
    }
}

#[test]
fn text_that_is_no_date_violates_the_format() {
    assert_eq!(parse_date("yesterday"), Err(MsgError::FormatViolation));
    assert_eq!(parse_date(""), Err(MsgError::FormatViolation));
    assert_eq!(resolve_date("Date: yesterday\r\n"), Err(MsgError::FormatViolation));
}

#[test]
fn date_whose_weekday_does_not_fit_violates_the_format() {
    assert!(chrono::DateTime::parse_from_rfc2822("Fri, 21 Nov 2021 09:55:06 +0000").is_err());
    assert_eq!(parse_date("Fri, 21 Nov 2021 09:55:06 +0000"), Err(MsgError::FormatViolation));
    assert_eq!(
        resolve_date("Date: Fri, 21 Nov 2021 09:55:06 +0000\r\n"),
        Err(MsgError::FormatViolation)
    );
}

#[test]
fn resolve_date_reads_the_date_header() {
    let headers = "Received: by host\r\nDate: Sun, 21 Nov 2021 09:55:06 +0000\r\nSubject: x\r\n";
    assert_eq!(
        resolve_date(headers),
        Ok(Timestamp { seconds: 1637488506, nanos: 0, offset_seconds: 0 })
    );
    let utc = chrono::DateTime::from_timestamp(1637488506, 0).unwrap();
    assert_eq!(utc.to_rfc3339(), "2021-11-21T09:55:06+00:00");
}

#[test]
fn resolve_date_strips_the_carriage_return() {
    assert_eq!(
        resolve_date("Date: Sun, 21 Nov 2021 09:55:06 +0000\r\n"),
        resolve_date("Date: Sun, 21 Nov 2021 09:55:06 +0000\n")
    );
}
