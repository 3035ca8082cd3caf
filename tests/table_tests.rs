use substitution_pdf::column::SubstitutionColumn;
use substitution_pdf::error::PDFJsonError;
use substitution_pdf::schedule::SubstitutionSchedule;

fn row(cells: &[&str]) -> Vec<String> {
    cells.iter().map(|c| c.to_string()).collect()
}

fn separators(n: usize, width: usize) -> Vec<Vec<String>> {
    let mut r = Vec::new();
    for _ in 0..n {
        let mut cells = vec!["-".to_string()];
        for _ in 1..width {
            cells.push(String::new());
        }
        r.push(cells);
    }
    r
}

fn find<'a>(entries: &'a Vec<(String, SubstitutionColumn)>, name: &str) -> &'a SubstitutionColumn {
    &entries.iter().find(|e| e.0 == name).expect("class present").1
}

#[test]
fn reconstructs_single_row_block() {
    let mut table = vec![row(&["", "7a", "7b"]), row(&["1", "Math cancelled", ""]), row(&["-", "", ""])];
    table.extend(separators(4, 3));
    let entries = SubstitutionSchedule::table_to_substitutions(&table).unwrap();
    assert_eq!(entries.len(), 2);
    assert_eq!(find(&entries, "7a").block_0, Some("Math cancelled".to_string()));
    assert_eq!(find(&entries, "7b").block_0, None);
    for i in 1..6 {
        assert_eq!(find(&entries, "7a").block(i), None);
        assert_eq!(find(&entries, "7b").block(i), None);
    }
}

#[test]
fn merges_rows_within_block() {
    let mut table = vec![
        row(&["", "5c", "6d"]),
        row(&["1", "A", ""]),
        row(&["1cont", "B", ""]),
        row(&["-", "", ""]),
    ];
    table.extend(separators(4, 3));
    let entries = SubstitutionSchedule::table_to_substitutions(&table).unwrap();
    assert_eq!(find(&entries, "5c").block_0, Some("A\nB".to_string()));
    assert_eq!(find(&entries, "6d").block_0, None);
}

#[test]
fn separator_row_content_belongs_to_its_block() {
    let mut table = vec![row(&["", "8a"]), row(&["-", "x"]), row(&["2", "y"]), row(&["-3", "z"])];
    table.extend(separators(3, 2));
    let entries = SubstitutionSchedule::table_to_substitutions(&table).unwrap();
    let c = find(&entries, "8a");
    assert_eq!(c.block_0, Some("x".to_string()));
    assert_eq!(c.block_1, Some("y\nz".to_string()));
    assert_eq!(c.block_2, None);
    assert_eq!(c.block_5, None);
}

#[test]
fn fills_every_group_in_order() {
    let table = vec![
        row(&["", "9a"]),
        row(&["-", "b0"]),
        row(&["-", "b1"]),
        row(&["-", "b2"]),
        row(&["-", "b3"]),
        row(&["-", "b4"]),
        row(&["ignored", "after"]),
    ];
    let entries = SubstitutionSchedule::table_to_substitutions(&table).unwrap();
    let c = find(&entries, "9a");
    assert_eq!(c.block_0, Some("b0".to_string()));
    assert_eq!(c.block_1, Some("b1".to_string()));
    assert_eq!(c.block_2, Some("b2".to_string()));
    assert_eq!(c.block_3, Some("b3".to_string()));
    assert_eq!(c.block_4, Some("b4".to_string()));
    assert_eq!(c.block_5, None);
}

#[test]
fn short_row_is_malformed() {
    let mut table = vec![row(&["", "7a", "7b"]), row(&["1", "Math"]), row(&["-", "", ""])];
    table.extend(separators(4, 3));
    let r = SubstitutionSchedule::table_to_substitutions(&table);
    assert_eq!(r.unwrap_err(), PDFJsonError::MalformedTable);
}

#[test]
fn missing_separator_is_malformed() {
    let mut table = vec![row(&["", "7a"]), row(&["1", "x"])];
    table.extend(separators(3, 2));
    assert_eq!(SubstitutionSchedule::table_to_substitutions(&table).unwrap_err(), PDFJsonError::MalformedTable);
}

#[test]
fn empty_table_is_malformed() {
    let table: Vec<Vec<String>> = Vec::new();
    assert_eq!(SubstitutionSchedule::table_to_substitutions(&table).unwrap_err(), PDFJsonError::MalformedTable);
    let table = vec![Vec::new()];
    assert_eq!(SubstitutionSchedule::table_to_substitutions(&table).unwrap_err(), PDFJsonError::MalformedTable);
}

#[test]
fn duplicate_header_names_share_one_column() {
    let mut table = vec![row(&["", "7a", "7a"]), row(&["1", "x", "y"]), row(&["-", "", "z"])];
    table.extend(separators(4, 3));
    let entries = SubstitutionSchedule::table_to_substitutions(&table).unwrap();
    assert_eq!(entries.len(), 1);
    assert_eq!(find(&entries, "7a").block_0, Some("x\ny\nz".to_string()));
}

#[test]
fn later_table_wins_on_same_class() {
    let mut first = vec![row(&["", "7a", "7b"]), row(&["-", "old", "keep"])];
    first.extend(separators(4, 3));
    let mut second = vec![row(&["", "7a"]), row(&["-", "new"])];
    second.extend(separators(4, 2));
    let s = SubstitutionSchedule::from_table_at(&vec![first, second], 42, 7).unwrap();
    assert_eq!(s.pdf_issue_date, 42);
    assert_eq!(s.struct_time(), 7);
    assert_eq!(s.entries().len(), 2);
    let a = s.class_column(&"7a".to_string()).unwrap();
    assert_eq!(a.block_0, Some("new".to_string()));
    let b = s.class_column(&"7b".to_string()).unwrap();
    assert_eq!(b.block_0, Some("keep".to_string()));
    assert!(s.class_column(&"7c".to_string()).is_none());
}

#[test]
fn from_table_rejects_any_malformed_table() {
    let mut good = vec![row(&["", "7a"])];
    good.extend(separators(5, 2));
    let bad = vec![row(&["", "7a"])];
    let r = SubstitutionSchedule::from_table(&vec![good.clone(), bad], 1);
    assert_eq!(r.unwrap_err(), PDFJsonError::MalformedTable);
    let s = SubstitutionSchedule::from_table(&vec![good], 1).unwrap();
    assert_eq!(s.entries().len(), 1);
    assert!(s.struct_time() > 0);
}

#[test]
fn from_table_of_no_tables_is_empty() {
    let s = SubstitutionSchedule::from_table(&Vec::new(), 5).unwrap();
    assert_eq!(s.entries().len(), 0);
    assert_eq!(s.pdf_issue_date, 5);
}

#[test]
fn from_document_reads_date_then_tables() {
    let mut table = vec![row(&["", "7a"]), row(&["-", "Sport"])];
    table.extend(separators(4, 2));
    let s = SubstitutionSchedule::from_document("Plan\nDatum: Montag, 03.02.2025\n", &vec![table.clone()]).unwrap();
    assert_eq!(s.pdf_issue_date, 1738540800000);
    assert_eq!(s.class_column(&"7a".to_string()).unwrap().block_0, Some("Sport".to_string()));
    let e = SubstitutionSchedule::from_document("no date here", &vec![table]).unwrap_err();
    assert_eq!(e, PDFJsonError::DateNotFound);
}

#[test]
fn column_add_part_joins_with_newline() {
    let mut c = SubstitutionColumn::new();
    assert_eq!(c, SubstitutionColumn::default());
    c.add_part(3, "");
    assert_eq!(c.block_3, None);
    c.add_part(3, "one");
    c.add_part(3, "");
    c.add_part(3, "two");
    assert_eq!(c.block(3), Some("one\ntwo".to_string()));
    c.add_part(5, "six");
    assert_eq!(c.block_5, Some("six".to_string()));
    assert_eq!(c.block(0), None);
}

#[test]
fn from_entries_keeps_last_of_repeated_name() {
    let mut a = SubstitutionColumn::new();
    a.add_part(0, "first");
    let mut b = SubstitutionColumn::new();
    b.add_part(1, "second");
    let s = SubstitutionSchedule::from_entries(9, vec![("7a".to_string(), a.clone()), ("7b".to_string(), a), ("7a".to_string(), b.clone())], 11);
    assert_eq!(s.entries().len(), 2);
    assert_eq!(s.class_column(&"7a".to_string()), Some(&b));
    assert_eq!(s.class_column(&"7b".to_string()).unwrap().block(0), Some("first".to_string()));
    assert_eq!(s.pdf_issue_date, 9);
    assert_eq!(s.struct_time(), 11);
}
