use std::cell::Cell;
use substitution_pdf::cache::{JsonHandler, UpdateOutcome};
use substitution_pdf::digest::content_hash;
use substitution_pdf::error::PDFJsonError;
use substitution_pdf::schedule::SubstitutionSchedule;
use substitution_pdf::schoolday::Schoolday;

#[test]
fn content_hash_is_hex_sha512() {
    assert_eq!(
        content_hash(&b"abc".to_vec()),
        "ddaf35a193617abacc417349ae20413112e6fa4e89a97ea20a9eeee64b55d39a2192992a274fc1a836ba3c23a3feebbd454d4423643ce80e2a9ac94fa54ca49f"
    );
    assert_eq!(
        content_hash(&Vec::new()),
        "cf83e1357eefb8bdf1542850d66d8007d620e4050b5715dc83f4a921d36ce9ce47d0d13c5d85f2b0ff8318d2877eec2f63b931bd47417a81a538327af927da3e"
    );
}

#[test]
fn empty_cache_has_nothing() {
    let c = JsonHandler::new();
    assert_eq!(c.get_json(Schoolday::Monday), None);
    assert_eq!(c.stored_hash(Schoolday::Friday), None);
}

#[test]
fn same_bytes_twice_is_replaced_then_unchanged() {
    let mut c = JsonHandler::new();
    let pdf = b"document".to_vec();
    let calls = Cell::new(0);
    let build = |_: &Vec<u8>| {
        calls.set(calls.get() + 1);
        Ok::<String, PDFJsonError>("{\"a\":1}".to_string())
    };
    assert_eq!(c.update(Schoolday::Tuesday, &pdf, &build), UpdateOutcome::Replaced);
    let after_first = c.get_json(Schoolday::Tuesday);
    assert_eq!(after_first, Some("{\"a\":1}".to_string()));
    assert_eq!(c.update(Schoolday::Tuesday, &pdf, &build), UpdateOutcome::Unchanged);
    assert_eq!(calls.get(), 1);
    assert_eq!(c.get_json(Schoolday::Tuesday), after_first);
    assert_eq!(c.stored_hash(Schoolday::Tuesday), Some(content_hash(&pdf)));
    assert!(c.is_current(Schoolday::Tuesday, &content_hash(&pdf)));
    assert_eq!(c.get_json(Schoolday::Wednesday), None);
}

#[test]
fn new_bytes_replace_entry() {
    let mut c = JsonHandler::new();
    let r1 = c.update(Schoolday::Friday, &b"v1".to_vec(), |_: &Vec<u8>| Ok("one".to_string()));
    let r2 = c.update(Schoolday::Friday, &b"v2".to_vec(), |_: &Vec<u8>| Ok("two".to_string()));
    assert_eq!((r1, r2), (UpdateOutcome::Replaced, UpdateOutcome::Replaced));
    assert_eq!(c.get_json(Schoolday::Friday), Some("two".to_string()));
}

#[test]
fn failed_extraction_keeps_previous_entry() {
    let mut c = JsonHandler::new();
    c.update(Schoolday::Monday, &b"good".to_vec(), |_: &Vec<u8>| Ok("kept".to_string()));
    let r = c.update(Schoolday::Monday, &b"bad".to_vec(), |_: &Vec<u8>| Err(PDFJsonError::MalformedTable));
    assert_eq!(r, UpdateOutcome::Failed(PDFJsonError::MalformedTable));
    assert_eq!(c.get_json(Schoolday::Monday), Some("kept".to_string()));
    assert_eq!(c.stored_hash(Schoolday::Monday), Some(content_hash(&b"good".to_vec())));
    let r = c.update(Schoolday::Thursday, &b"bad".to_vec(), |_: &Vec<u8>| Err(PDFJsonError::ExtractionToolError));
    assert_eq!(r, UpdateOutcome::Failed(PDFJsonError::ExtractionToolError));
    assert_eq!(c.get_json(Schoolday::Thursday), None);
}

#[test]
fn store_replaces_slot() {
    let mut c = JsonHandler::new();
    c.store(Schoolday::Wednesday, "h1".to_string(), "j1".to_string());
    c.store(Schoolday::Wednesday, "h2".to_string(), "j2".to_string());
    assert_eq!(c.get_json(Schoolday::Wednesday), Some("j2".to_string()));
    assert!(c.is_current(Schoolday::Wednesday, &"h2".to_string()));
    assert!(!c.is_current(Schoolday::Wednesday, &"h1".to_string()));
}

#[test]
fn malformed_table_leaves_cache_untouched() {
    let mut c = JsonHandler::new();
    c.update(Schoolday::Monday, &b"first".to_vec(), |_: &Vec<u8>| Ok("first schedule".to_string()));
    let short_row_table = vec![
        vec!["".to_string(), "7a".to_string(), "7b".to_string()],
        vec!["1".to_string(), "Math".to_string()],
        vec!["-".to_string(), "".to_string(), "".to_string()],
    ];
    let build = |_: &Vec<u8>| {
        SubstitutionSchedule::from_table(&vec![short_row_table.clone()], 0).map(|_| "never".to_string())
    };
    let r = c.update(Schoolday::Monday, &b"second".to_vec(), build);
    assert_eq!(r, UpdateOutcome::Failed(PDFJsonError::MalformedTable));
    assert_eq!(c.get_json(Schoolday::Monday), Some("first schedule".to_string()));
    assert_eq!(c.stored_hash(Schoolday::Monday), Some(content_hash(&b"first".to_vec())));
    let r = c.update(Schoolday::Monday, &b"first".to_vec(), |_: &Vec<u8>| Ok("other".to_string()));
    assert_eq!(r, UpdateOutcome::Unchanged);
}

#[test]
fn apply_extraction_follows_outcome_rule() {
    let mut c = JsonHandler::new();
    let h = content_hash(&b"x".to_vec());
    assert_eq!(c.apply_extraction(Schoolday::Thursday, h.clone(), Err(PDFJsonError::DateNotFound)), UpdateOutcome::Failed(PDFJsonError::DateNotFound));
    assert_eq!(c.get_json(Schoolday::Thursday), None);
    assert_eq!(c.apply_extraction(Schoolday::Thursday, h.clone(), Ok("s".to_string())), UpdateOutcome::Replaced);
    assert_eq!(c.apply_extraction(Schoolday::Thursday, h.clone(), Ok("t".to_string())), UpdateOutcome::Unchanged);
    assert_eq!(c.get_json(Schoolday::Thursday), Some("s".to_string()));
}
