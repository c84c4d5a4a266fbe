use fivemenu::filter::{
    answer_label, blank, filter, score_all, search, take_first, take_ranked,
};
use fivemenu::fuzzy::{score, MAX_SCORED_CHARS};
use fivemenu::ranking::rank;
use fivemenu::text::{char_is_whitespace, from_chars, to_chars};

fn names(list: &[&str]) -> Vec<String> {
    list.iter().map(|s| s.to_string()).collect()
}

#[test]
fn blank_input_shows_the_start_of_the_catalog() {
    let catalog = names(&["bash", "cat", "vim"]);
    assert_eq!(filter("", &catalog, 2, None), names(&["bash", "cat"]));
    assert_eq!(filter("  \t", &catalog, 2, None), names(&["bash", "cat"]));
    assert_eq!(filter("", &catalog, 5, None), names(&["bash", "cat", "vim"]));
    assert_eq!(filter("", &catalog, 3, None), names(&["bash", "cat", "vim"]));
    assert_eq!(filter("", &catalog, 0, None), Vec::<String>::new());
    assert_eq!(filter("", &Vec::new(), 4, None), Vec::<String>::new());
}

#[test]
fn blank_input_ignores_an_answer() {
    let catalog = names(&["bash", "cat", "vim"]);
    assert_eq!(filter(" ", &catalog, 2, Some("5")), names(&["bash", "cat"]));
}

#[test]
fn arithmetic_shows_the_answer_alone() {
    let catalog = names(&["bash", "cat", "vim"]);
    assert_eq!(filter("2+3", &catalog, 2, Some("5")), names(&["Answer: 5"]));
    assert_eq!(filter("a+t", &catalog, 4, Some("-0.5")), names(&["Answer: -0.5"]));
}

#[test]
fn search_for_v_finds_vim() {
    let catalog = names(&["bash", "cat", "vim"]);
    assert_eq!(filter("v", &catalog, 2, None), names(&["vim"]));
}

#[test]
fn search_without_a_match_is_empty() {
    let catalog = names(&["bash", "cat", "vim"]);
    assert_eq!(filter("xyz", &catalog, 2, None), Vec::<String>::new());
}

#[test]
fn search_keeps_at_most_max_entries() {
    let catalog = names(&["a1", "a2", "a3", "a4", "b"]);
    let shown = filter("a", &catalog, 3, None);
    assert_eq!(shown, names(&["a1", "a2", "a3"]));
    assert_eq!(search("a", &catalog, 0), Vec::<String>::new());
    assert_eq!(search("a", &catalog, 10), names(&["a1", "a2", "a3", "a4"]));
}

#[test]
fn search_puts_the_better_match_first() {
    let catalog = names(&["xa", "a"]);
    let first = score("xa", "a").unwrap();
    let second = score("a", "a").unwrap();
    assert!(second > first);
    assert_eq!(search("a", &catalog, 5), names(&["a", "xa"]));
}

#[test]
fn equal_scores_keep_the_order_of_the_catalog() {
    let catalog = names(&["ab", "ac", "ad", "ab"]);
    assert_eq!(score("ab", "a"), score("ac", "a"));
    assert_eq!(search("a", &catalog, 4), names(&["ab", "ac", "ad", "ab"]));
}

#[test]
fn score_is_the_matcher_s() {
    assert_eq!(score("abc", "abx"), None);
    assert_eq!(score("", "a"), None);
    assert_eq!(score("abcdefaghi", ""), Some(0));
    assert!(score("axbycz", "abc").is_some());
    assert!(score("axbycz", "xyz").is_some());
    assert!(score("vim", "v").unwrap() > 0);
    assert!(score("firefox", "ff").unwrap() > score("firefox", "fx").unwrap());
}

#[test]
fn score_is_case_insensitive_for_lower_case_patterns() {
    assert!(score("Firefox", "fire").is_some());
    assert_eq!(score("firefox", "Fire"), None);
}

#[test]
fn overlong_texts_match_nothing() {
    let long: String = "a".repeat(MAX_SCORED_CHARS + 1);
    assert_eq!(score(&long, "a"), None);
    assert_eq!(score("a", &long), None);
    assert_eq!(score(&long, &long), None);
}

#[test]
fn long_texts_are_scored() {
    let long: String = "b".repeat(100_000) + "a";
    assert!(score(&long, "a").is_some());
    assert!(score(&long, "ba").is_some());
    assert_eq!(score(&long, "ab"), None);
    let catalog = vec![long.clone(), "c".to_string()];
    assert_eq!(search("a", &catalog, 2), vec![long]);
}

#[test]
fn score_all_scores_each_entry() {
    let catalog = names(&["bash", "cat", "vim"]);
    let scores = score_all(&catalog, "a");
    assert_eq!(scores.len(), 3);
    assert_eq!(scores[0], score("bash", "a"));
    assert_eq!(scores[1], score("cat", "a"));
    assert_eq!(scores[2], None);
}

#[test]
fn rank_orders_by_score_then_place() {
    assert_eq!(rank(&vec![Some(5), None, Some(7), Some(5)]), vec![2, 0, 3]);
    assert_eq!(rank(&vec![None, None]), Vec::<usize>::new());
    assert_eq!(rank(&Vec::new()), Vec::<usize>::new());
    assert_eq!(rank(&vec![Some(1), Some(2), Some(3)]), vec![2, 1, 0]);
    assert_eq!(rank(&vec![Some(3), Some(2), Some(1)]), vec![0, 1, 2]);
    assert_eq!(rank(&vec![Some(0), Some(0), Some(0)]), vec![0, 1, 2]);
    assert_eq!(
        rank(&vec![Some(i64::MIN), Some(i64::MAX), None, Some(-1)]),
        vec![1, 3, 0]
    );
}

#[test]
fn take_ranked_follows_the_order() {
    let catalog = names(&["bash", "cat", "vim"]);
    assert_eq!(take_ranked(&catalog, &vec![2, 0, 1], 2), names(&["vim", "bash"]));
    assert_eq!(take_ranked(&catalog, &vec![2, 0, 1], 0), Vec::<String>::new());
    assert_eq!(take_first(&catalog, 1), names(&["bash"]));
    assert_eq!(take_first(&catalog, 3), catalog);
}

#[test]
fn answer_label_has_the_prefix() {
    assert_eq!(answer_label("5"), "Answer: 5");
    assert_eq!(answer_label(""), "Answer: ");
    assert_eq!(answer_label("inf"), "Answer: inf");
}

#[test]
fn blank_texts() {
    assert!(blank(""));
    assert!(blank(" \t\r\n"));
    assert!(blank("\u{00A0}\u{2003}\u{3000}"));
    assert!(!blank(" a "));
    assert!(!blank("\u{200B}"));
}

#[test]
fn whitespace_agrees_with_the_standard_library() {
    let mut n: u32 = 0;
    while n <= 0x10FFFF {
        if let Some(c) = char::from_u32(n) {
            assert_eq!(char_is_whitespace(c), c.is_whitespace(), "{}", n);
        }
        n += 1;
    }
}

#[test]
fn chars_and_back() {
    let chars = to_chars("héllo");
    assert_eq!(chars, vec!['h', 'é', 'l', 'l', 'o']);
    assert_eq!(from_chars(&chars, 1, 4), "éll");
    assert_eq!(from_chars(&chars, 2, 2), "");
    assert_eq!(from_chars(&chars, 0, 5), "héllo");
    assert_eq!(to_chars(""), Vec::<char>::new());
}
