use jp3_organiser::musicbrainz::{MIN_REQUEST_INTERVAL_MS, USER_AGENT};
use jp3_organiser::ranking::ReleaseDate;

#[test]
fn test_release_date_sorting() {
    let date1 = ReleaseDate {
        year: Some(1978),
        month: Some(11),
        day: Some(10),
    };
    let date2 = ReleaseDate {
        year: Some(1990),
        month: Some(1),
        day: Some(1),
    };

    assert!(date1.to_sortable_int() < date2.to_sortable_int());
}

#[test]
fn release_date_unknown_parts_sort_last() {
    let full = ReleaseDate { year: Some(1978), month: Some(11), day: Some(10) };
    assert_eq!(full.to_sortable_int(), 19781110);
    let year_only = ReleaseDate { year: Some(1978), month: None, day: None };
    assert_eq!(year_only.to_sortable_int(), 19781231);
    let unknown = ReleaseDate { year: None, month: None, day: None };
    assert_eq!(unknown.to_sortable_int(), 99991231);
}

#[test]
fn test_user_agent_format() {
    assert!(USER_AGENT.contains("JP3Organiser"));
    assert!(USER_AGENT.contains("/"));
    assert!(USER_AGENT.contains("("));
    assert!(USER_AGENT.contains(")"));
}

#[test]
fn test_rate_limit_constant() {
    assert!(MIN_REQUEST_INTERVAL_MS >= 1000);
}
