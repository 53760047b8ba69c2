use buzz::headers::{eq_ignoring_case, get_first_value, Header};

fn header(name: &str, value: &str) -> Header {
    Header { name: name.to_string(), value: value.to_string() }
}

#[test]
fn names_match_whatever_their_case() {
    assert!(eq_ignoring_case("Subject", "SUBJECT"));
    assert!(eq_ignoring_case("subject", "Subject"));
    assert!(eq_ignoring_case("", ""));
    assert!(!eq_ignoring_case("Subject", "Subjects"));
    assert!(!eq_ignoring_case("Date", "Data"));
    assert!(!eq_ignoring_case("é", "É"));
    assert!(!eq_ignoring_case("[", "{"));
    assert!(!eq_ignoring_case("@", "`"));
}

#[test]
fn name_matching_agrees_with_the_standard_library() {
    let samples = ["", "a", "A", "Z", "z", "[", "{", "@", "`", "Date", "dAtE", "ß", "K", "\u{212A}"];
    for a in samples {
        for b in samples {
            assert_eq!(eq_ignoring_case(a, b), a.eq_ignore_ascii_case(b), "{:?} {:?}", a, b);
        }
    }
}

#[test]
fn first_value_is_of_the_first_match() {
    let headers = vec![
        header("From", "a@example.org"),
        header("subject", "one"),
        header("Subject", "two"),
    ];
    assert_eq!(get_first_value(&headers, "Subject"), Some("one".to_string()));
    assert_eq!(get_first_value(&headers, "FROM"), Some("a@example.org".to_string()));
    assert_eq!(get_first_value(&headers, "Date"), None);
    assert_eq!(get_first_value(&Vec::new(), "Date"), None);
}
