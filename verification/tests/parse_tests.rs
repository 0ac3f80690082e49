use scholar::error::ScrapeError;
use scholar::parse::{parse_citation_count, parse_id_from_url};

#[test]
fn parse_id_from_url_pass() {
    assert_eq!(parse_id_from_url("cluster=123456").unwrap(), 123456);
    assert_eq!(parse_id_from_url("scholar?cluster=654321").unwrap(), 654321);
    assert_eq!(parse_id_from_url("scholar?cluster=222222&foo=bar").unwrap(), 222222);
}

#[test]
fn parse_id_from_url_fail() {
    assert!(parse_id_from_url("foo").is_err());
    assert!(parse_id_from_url("claster=000000").is_err());
    assert!(parse_id_from_url("cluster=aaaaaa").is_err());
}

#[test]
fn parse_citation_count_pass() {
    assert_eq!(parse_citation_count("Cited by 111").unwrap(), 111);
    assert_eq!(parse_citation_count("引用元 222").unwrap(), 222);
}

#[test]
fn parse_citation_count_fail() {
    assert!(parse_citation_count("foo").is_err());
}

#[test]
fn parse_id_accepts_cites_key() {
    assert_eq!(parse_id_from_url("/scholar?cites=15570691018430890829").unwrap(), 15570691018430890829);
}

#[test]
fn parse_id_takes_first_match() {
    assert_eq!(parse_id_from_url("a?cites=11&cluster=22").unwrap(), 11);
}

#[test]
fn parse_id_largest_value_fits() {
    assert_eq!(parse_id_from_url("cluster=18446744073709551615").unwrap(), u64::MAX);
}

#[test]
fn parse_id_no_match_kind() {
    assert_eq!(parse_id_from_url("cluster=&cites=x").unwrap_err(), ScrapeError::NoMatch);
}

#[test]
fn parse_id_overflow_kind() {
    assert_eq!(
        parse_id_from_url("cluster=18446744073709551616").unwrap_err(),
        ScrapeError::NumericConversion,
    );
}

#[test]
fn parse_count_ignores_leading_digits_without_label() {
    // The run must follow at least one non-digit character; a bare number
    // has no such run.
    assert_eq!(parse_citation_count("123").unwrap_err(), ScrapeError::NoMatch);
    // After any non-digit, the first digit run wins, label or not.
    assert_eq!(parse_citation_count("v2 edition 77").unwrap(), 2);
}

#[test]
fn parse_count_first_labeled_run_wins() {
    assert_eq!(parse_citation_count("Cited by 12 of 34").unwrap(), 12);
}

#[test]
fn parse_count_overflow_kind() {
    assert_eq!(
        parse_citation_count("Cited by 4294967296").unwrap_err(),
        ScrapeError::NumericConversion,
    );
    assert_eq!(parse_citation_count("Cited by 4294967295").unwrap(), u32::MAX);
}
