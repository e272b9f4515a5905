use word_scrambler::errors::ScrambleError;
use word_scrambler::kdf::{derive_key, KdfConfig};
use word_scrambler::password::{isallowedinput, ispasswordstrong};
use word_scrambler::scramble::scramblewords;
use word_scrambler::suggest::find_suggestions;
use word_scrambler::wordlist::{indices_to_words, lookupword, recoverwallet, words_to_indices};

fn test_config() -> KdfConfig {
    KdfConfig { t_cost: 1, m_cost: 8, p_cost: 1, rounds: 1 }
}

fn small_list() -> Vec<String> {
    [
        "able", "acid", "aim", "all", "ash", "bag", "ball", "band", "bar", "base", "bath", "bean",
        "bell", "belt", "bird", "blue",
    ]
    .iter()
    .map(|w| w.to_string())
    .collect()
}

#[test]
fn lookupword_finds_first_occurrence() {
    let list = vec!["alpha".to_string(), "beta".to_string(), "alpha".to_string()];
    assert_eq!(lookupword(&list, &"alpha".to_string()), Ok(0));
    assert_eq!(lookupword(&list, &"beta".to_string()), Ok(1));
    assert_eq!(
        lookupword(&list, &"gamma".to_string()),
        Err(ScrambleError::WordNotFound)
    );
}

#[test]
fn words_to_indices_round_trips() {
    let list = small_list();
    let indices: Vec<usize> = vec![3, 0, 15, 7, 7, 1];
    let words = indices_to_words(&indices, &list);
    assert_eq!(words, vec!["all", "able", "blue", "band", "band", "acid"]);
    assert_eq!(words_to_indices(&words, &list), Some(indices));
    let missing = vec!["able".to_string(), "nothere".to_string()];
    assert_eq!(words_to_indices(&missing, &list), None);
}

#[test]
fn recovery_picks_first_matching_language() {
    let lang_a = small_list();
    let lang_b: Vec<String> = small_list().iter().map(|w| format!("x{}", w)).collect();
    let registry = vec![lang_a.clone(), lang_b.clone()];
    let lines = vec!["bar".to_string(), "bird".to_string(), "able".to_string()];
    let (lang, idx) = recoverwallet(&lines, &registry).unwrap();
    assert_eq!(lang, 0);
    assert_eq!(idx, vec![8, 14, 0]);
    let lines_b = vec!["xbar".to_string(), "xbird".to_string()];
    let (lang, idx) = recoverwallet(&lines_b, &registry).unwrap();
    assert_eq!(lang, 1);
    assert_eq!(idx, vec![8, 14]);
    let nowhere = vec!["bar".to_string(), "xbird".to_string()];
    assert_eq!(
        recoverwallet(&nowhere, &registry),
        Err(ScrambleError::UnsupportedWalletFile)
    );
}

#[test]
fn recovery_round_trip_reproduces_wallet() {
    // Scramble, save as words, recover the lines, and scramble again with
    // the same password: the original indices come back.
    let cfg = test_config();
    let list = small_list();
    let registry = vec![list.clone()];
    let key = derive_key(b"Test1234!@#$", &cfg).unwrap();
    let wallet: Vec<usize> = vec![0, 3, 15, 7, 2, 9, 11, 1, 5, 14, 8, 4];
    let scrambled = scramblewords(&wallet, key, 16).unwrap();
    let saved_lines = indices_to_words(&scrambled, &list);
    let (lang, recovered) = recoverwallet(&saved_lines, &registry).unwrap();
    assert_eq!(lang, 0);
    assert_eq!(recovered, scrambled);
    let unscrambled = scramblewords(&recovered, key, 16).unwrap();
    assert_eq!(unscrambled, wallet);
}

#[test]
fn golden_scramble_vector() {
    // A fixed password, wallet and word list must keep producing this exact
    // scrambled sequence; any change to the derivation or packing breaks it.
    let cfg = test_config();
    let key = derive_key(b"Test1234!@#$", &cfg).unwrap();
    let wallet: Vec<usize> = vec![0, 1, 2, 3, 4, 5, 6, 7, 8, 9, 10, 11];
    let scrambled = scramblewords(&wallet, key, 16).unwrap();
    assert_eq!(scrambled, vec![1, 4, 3, 2, 11, 15, 7, 3, 8, 2, 6, 7]);
}

#[test]
fn suggestions_prefer_shared_prefix() {
    let list: Vec<String> = ["apple", "apricot", "appliance", "apply", "banana"]
        .iter()
        .map(|w| w.to_string())
        .collect();
    let sugg = find_suggestions(&"appll".to_string(), &list);
    assert_eq!(sugg, vec!["apple", "appliance", "apply"]);
}

#[test]
fn suggestions_rank_by_distance_then_alphabet() {
    // "abc" is too short for a prefix match, so distances decide: "abd" is
    // one edit away, "bcd" two, "zzz" three; "faraway" is beyond reach.
    let list: Vec<String> = ["zzz", "faraway", "bcd", "abd"].iter().map(|w| w.to_string()).collect();
    let sugg = find_suggestions(&"abc".to_string(), &list);
    assert_eq!(sugg, vec!["abd", "bcd", "zzz"]);
    // Equal distances fall back to alphabetical order.
    let ties: Vec<String> = ["abf", "abe"].iter().map(|w| w.to_string()).collect();
    let sugg = find_suggestions(&"abc".to_string(), &ties);
    assert_eq!(sugg, vec!["abe", "abf"]);
}

#[test]
fn suggestions_do_not_invent_words() {
    let list: Vec<String> = ["banana".to_string()].to_vec();
    let sugg = find_suggestions(&"qqqqqqqq".to_string(), &list);
    assert!(sugg.is_empty());
}

#[test]
fn password_strength_rules() {
    assert!(ispasswordstrong(b"Test1234!@#$"));
    assert!(!ispasswordstrong(b"weakpassword"));
    assert!(!ispasswordstrong(b"Test123!@#$"));
    assert!(!ispasswordstrong(b"TEST1234!@#$"));
    assert!(!ispasswordstrong(b"test1234!@#$"));
    assert!(!ispasswordstrong(b"TestTest!@#$"));
    assert!(!ispasswordstrong(b"Test12341234"));
}

#[test]
fn input_charset_check() {
    assert!(isallowedinput(b"abc", b"abcdef"));
    assert!(isallowedinput(b"", b"abcdef"));
    assert!(!isallowedinput(b"ab!", b"abcdef"));
    assert!(!isallowedinput(b"x", b""));
}
