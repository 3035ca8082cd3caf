use substitution_pdf::date::extract_issue_date;
use substitution_pdf::error::PDFJsonError;

#[test]
fn parses_day_first_date() {
    assert_eq!(extract_issue_date("Vertretungsplan\nDatum: Montag, 03.02.2025\nKlasse"), Ok(1738540800000));
}

#[test]
fn parses_epoch_and_leap_day() {
    assert_eq!(extract_issue_date("Datum: Donnerstag, 01.01.1970\n"), Ok(0));
    assert_eq!(extract_issue_date("Datum: Donnerstag, 29.02.2024\n"), Ok(1709164800000));
    assert_eq!(extract_issue_date("Datum: Mittwoch, 31.12.1969\n"), Ok(-86400000));
}

#[test]
fn uses_last_comma_segment() {
    assert_eq!(extract_issue_date("Datum: a, b, 03.02.2025\n"), Ok(1738540800000));
}

#[test]
fn missing_label_or_line_end() {
    assert_eq!(extract_issue_date("Montag, 03.02.2025\n"), Err(PDFJsonError::DateNotFound));
    assert_eq!(extract_issue_date("Datum: Montag, 03.02.2025"), Err(PDFJsonError::DateNotFound));
    assert_eq!(extract_issue_date(""), Err(PDFJsonError::DateNotFound));
}

#[test]
fn malformed_dates() {
    assert_eq!(extract_issue_date("Datum: Montag, 03.02\n"), Err(PDFJsonError::MalformedDate));
    assert_eq!(extract_issue_date("Datum: Montag, 03.02.2025.1\n"), Err(PDFJsonError::MalformedDate));
    assert_eq!(extract_issue_date("Datum: Montag, 3a.02.2025\n"), Err(PDFJsonError::MalformedDate));
    assert_eq!(extract_issue_date("Datum: Montag, 31.02.2025\n"), Err(PDFJsonError::MalformedDate));
    assert_eq!(extract_issue_date("Datum: Montag, 29.02.2025\n"), Err(PDFJsonError::MalformedDate));
    assert_eq!(extract_issue_date("Datum: Montag, 01.13.2025\n"), Err(PDFJsonError::MalformedDate));
    assert_eq!(extract_issue_date("Datum: Montag, ..\n"), Err(PDFJsonError::MalformedDate));
    assert_eq!(extract_issue_date("Datum: 03.02.2025\n"), Err(PDFJsonError::MalformedDate));
    assert_eq!(extract_issue_date("Datum: x, 01.01.99999999999\n"), Err(PDFJsonError::MalformedDate));
    assert_eq!(extract_issue_date("Datum: x, 01.01.300000\n"), Err(PDFJsonError::MalformedDate));
}
