use netflow_indexer::watchlist::{classify, eq_ignoring_case, watched};

const AAA: &str = "0xaaaaaaaaaaaaaaaaaaaaaaaaaaaaaaaaaaaaaaaa";
const BBB: &str = "0xbbbbbbbbbbbbbbbbbbbbbbbbbbbbbbbbbbbbbbbb";
const CCC: &str = "0xcccccccccccccccccccccccccccccccccccccccc";

fn list() -> Vec<String> {
    vec![AAA.to_string(), "0xF977814e90dA44bFA03b6295A0616a897441aceC".to_string()]
}

#[test]
fn self_transfer_of_a_watched_address_is_in_and_out() {
    assert_eq!(classify(AAA, AAA, &list()), (true, true));
}

#[test]
fn transfer_between_unwatched_addresses_is_neither() {
    assert_eq!(classify(BBB, CCC, &list()), (false, false));
    assert_eq!(classify(BBB, BBB, &list()), (false, false));
}

#[test]
fn the_first_flag_is_for_the_recipient() {
    assert_eq!(classify(BBB, AAA, &list()), (true, false));
    assert_eq!(classify(AAA, BBB, &list()), (false, true));
}

#[test]
fn case_does_not_matter() {
    let upper = "0xAAAAAAAAAAAAAAAAAAAAAAAAAAAAAAAAAAAAAAAA";
    assert_eq!(classify(upper, CCC, &list()), (false, true));
    assert_eq!(classify(CCC, "0xf977814e90da44bfa03b6295a0616a897441acec", &list()), (true, false));
    assert_eq!(classify(CCC, "0XF977814E90DA44BFA03B6295A0616A897441ACEC", &list()), (true, false));
}

#[test]
fn an_empty_list_watches_nothing() {
    assert_eq!(classify(AAA, AAA, &Vec::new()), (false, false));
    assert!(!watched(AAA, &Vec::new()));
}

#[test]
fn a_prefix_is_no_match() {
    assert!(!watched("0xaaaa", &list()));
    assert!(!watched("", &list()));
    assert!(watched(AAA, &list()));
}

#[test]
fn eq_ignoring_case_folds_ascii_letters_only() {
    assert!(eq_ignoring_case("", ""));
    assert!(eq_ignoring_case("aZ09", "Az09"));
    assert!(!eq_ignoring_case("a", "b"));
    assert!(!eq_ignoring_case("a", "aa"));
    assert!(!eq_ignoring_case("@", "`"));
    assert!(!eq_ignoring_case("[", "{"));
    assert!(eq_ignoring_case("é", "é"));
    assert!(!eq_ignoring_case("é", "É"));
}
