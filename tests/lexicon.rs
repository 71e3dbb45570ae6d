use circuit_bot::lexicon::{find_named, key_of, UpdateOutcome};
use circuit_bot::Lexicon;

fn sample() -> Lexicon {
    let mut l = Lexicon::new("main".to_string(), "words.ron".to_string(), "WORDS.md".to_string());
    for (w, d) in [("beta", "second"), ("alpha", "first"), ("bravo", "third"), ("ábc", "accented")] {
        let k = key_of(w);
        assert!(l.add(k, w.to_string(), d.to_string()));
    }
    l
}

#[test]
fn keys_are_upper_case_initials() {
    assert_eq!(key_of("apple"), 'A');
    assert_eq!(key_of("Zebra"), 'Z');
    assert_eq!(key_of("ßeta"), 'S');
    assert_eq!(key_of("élan"), 'É');
}

#[test]
fn entries_are_kept_in_order() {
    let l = sample();
    let order: Vec<(char, &str)> = l.entries.iter().map(|e| (e.key, e.word.as_str())).collect();
    assert_eq!(order, vec![('A', "alpha"), ('B', "beta"), ('B', "bravo"), ('Á', "ábc")]);
}

#[test]
fn adding_twice_is_refused() {
    let mut l = sample();
    assert!(!l.add('A', "alpha".to_string(), "other".to_string()));
    assert_eq!(l.query('A', "alpha").unwrap(), "first");
    assert_eq!(l.entries.len(), 4);
}

#[test]
fn query_finds_only_filed_words() {
    let l = sample();
    assert_eq!(l.query('B', "bravo").unwrap(), "third");
    assert!(l.query('B', "alpha").is_none());
    assert!(l.query('C', "charlie").is_none());
}

#[test]
fn update_outcomes() {
    let mut l = sample();
    assert_eq!(l.update('B', "beta", "second".to_string()), UpdateOutcome::Unchanged);
    assert_eq!(l.update('B', "beta", "2nd".to_string()), UpdateOutcome::Updated);
    assert_eq!(l.query('B', "beta").unwrap(), "2nd");
    assert_eq!(l.update('B', "gamma", "x".to_string()), UpdateOutcome::Missing);
}

#[test]
fn remove_takes_the_entry_out() {
    let mut l = sample();
    assert!(l.remove('A', "alpha"));
    assert!(!l.remove('A', "alpha"));
    assert!(l.query('A', "alpha").is_none());
    assert_eq!(l.entries.len(), 3);
}

#[test]
fn render_groups_by_key() {
    let mut l = Lexicon::new("n".to_string(), "f".to_string(), "t".to_string());
    assert!(l.add('B', "bb".to_string(), "two".to_string()));
    assert!(l.add('A', "aa".to_string(), "one".to_string()));
    assert!(l.add('B', "ba".to_string(), "three".to_string()));
    assert_eq!(
        l.render(),
        "<!--THIS FILE IS AUTOMATICALLY GENERATED - DO NOT EDIT-->\n\
         \n## A\n\n### aa\n\none\n\
         \n## B\n\n### ba\n\nthree\n\n### bb\n\ntwo\n"
    );
}

#[test]
fn render_of_empty_lexicon() {
    let l = Lexicon::new("n".to_string(), "f".to_string(), "t".to_string());
    assert_eq!(l.render(), "<!--THIS FILE IS AUTOMATICALLY GENERATED - DO NOT EDIT-->\n");
}

#[test]
fn names_are_found_first_first() {
    let names = vec!["a".to_string(), "b".to_string(), "b".to_string()];
    assert_eq!(find_named(&names, "b"), Some(1));
    assert_eq!(find_named(&names, "c"), None);
    assert_eq!(find_named(&[], "a"), None);
}
