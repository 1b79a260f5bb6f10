use feed_bouncer::date::{abbreviate_weekday_names, old_date, OLD_DATE};

#[test]
fn test_old_date() {
    old_date();
}

#[test]
fn old_date_is_the_documented_instant() {
    let expected = chrono::DateTime::parse_from_rfc3339("1996-12-19T16:39:57-08:00")
        .unwrap()
        .timestamp();
    assert_eq!(old_date(), expected);
    assert_eq!(OLD_DATE, expected);
}

#[test]
fn weekday_names_are_abbreviated() {
    assert_eq!(
        abbreviate_weekday_names("Monday, 02 Jan 2023 10:00:00 +0000"),
        "Mon, 02 Jan 2023 10:00:00 +0000"
    );
    assert_eq!(abbreviate_weekday_names("Wednesday Sunday"), "Wed Sun");
    assert_eq!(abbreviate_weekday_names("Mon, 02 Jan"), "Mon, 02 Jan");
}
