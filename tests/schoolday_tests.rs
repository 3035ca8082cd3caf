use substitution_pdf::schoolday::Schoolday;

const ALL: [Schoolday; 5] = [
    Schoolday::Monday,
    Schoolday::Tuesday,
    Schoolday::Wednesday,
    Schoolday::Thursday,
    Schoolday::Friday,
];

#[test]
fn next_day_wraps_after_friday() {
    assert_eq!(Schoolday::Monday.next_day(), Schoolday::Tuesday);
    assert_eq!(Schoolday::Thursday.next_day(), Schoolday::Friday);
    assert_eq!(Schoolday::Friday.next_day(), Schoolday::Monday);
}

#[test]
fn five_steps_return_to_start() {
    for d in ALL {
        assert_eq!(d.next_day().next_day().next_day().next_day().next_day(), d);
    }
}

#[test]
fn weekend_maps_to_monday() {
    assert_eq!(Schoolday::from_weekday(0), Schoolday::Monday);
    assert_eq!(Schoolday::from_weekday(2), Schoolday::Wednesday);
    assert_eq!(Schoolday::from_weekday(4), Schoolday::Friday);
    assert_eq!(Schoolday::from_weekday(5), Schoolday::Monday);
    assert_eq!(Schoolday::from_weekday(6), Schoolday::Monday);
}

#[test]
fn refresh_targets_are_current_and_next() {
    assert_eq!(Schoolday::refresh_targets(4), (Schoolday::Friday, Schoolday::Monday));
    assert_eq!(Schoolday::refresh_targets(6), (Schoolday::Monday, Schoolday::Tuesday));
    assert_eq!(Schoolday::refresh_targets(1), (Schoolday::Tuesday, Schoolday::Wednesday));
}

#[test]
fn names_and_indices() {
    let names: Vec<&str> = ALL.iter().map(|d| d.name()).collect();
    assert_eq!(names, vec!["Monday", "Tuesday", "Wednesday", "Thursday", "Friday"]);
    let idx: Vec<usize> = ALL.iter().map(|d| d.index()).collect();
    assert_eq!(idx, vec![0, 1, 2, 3, 4]);
}
