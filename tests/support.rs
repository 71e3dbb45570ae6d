use circuit_bot::remote::remote_url;
use circuit_bot::reply::{lexicon_count_problem, Reply};

#[test]
fn remote_url_strips_every_scheme() {
    assert_eq!(
        remote_url("bob", "pw", "https://https://example.org/r.git"),
        "https://bob:pw@example.org/r.git"
    );
    assert_eq!(remote_url("bob", "pw", "example.org/r.git"), "https://bob:pw@example.org/r.git");
    assert_eq!(remote_url("", "", "http://x"), "https://:@http://x");
}

#[test]
fn fixed_replies() {
    let r = Reply::invalid_command();
    assert!(!r.success);
    assert_eq!(r.title, "Internal error");
    assert_eq!(r.text, "The command is invalid.");
    let r = Reply::unimplemented();
    assert!(!r.success);
    assert_eq!(r.text, "The command is not implemented.");
    let r = Reply::success("T".to_string(), "x".to_string());
    assert!(r.success);
    assert_eq!((r.title.as_str(), r.text.as_str()), ("T", "x"));
    let r = Reply::failure("F".to_string(), "y".to_string());
    assert!(!r.success);
}

#[test]
fn lexicon_counts() {
    assert_eq!(lexicon_count_problem(0).unwrap(), "No lexicons present");
    assert!(lexicon_count_problem(1).is_none());
    assert!(lexicon_count_problem(25).is_none());
    assert_eq!(lexicon_count_problem(26).unwrap(), "Too many lexicons (max. 25)");
}
