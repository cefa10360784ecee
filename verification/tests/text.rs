use hwtwin::text::{chars_of, find_in, newline_ranges, str_eq, string_from, trim_range, words_in};

#[test]
fn chars_and_strings() {
    let cs = chars_of("héllo");
    assert_eq!(cs, vec!['h', 'é', 'l', 'l', 'o']);
    assert_eq!(string_from(&cs, 1, 4), "éll");
    assert_eq!(string_from(&cs, 2, 2), "");
}

#[test]
fn str_eq_compares_characters() {
    assert!(str_eq("Mac15,11", "Mac15,11"));
    assert!(!str_eq("Mac15,11", "Mac15,1"));
    assert!(str_eq("", ""));
}

#[test]
fn trim_and_words() {
    let cs = chars_of("  a  bc\td \r");
    assert_eq!(trim_range(&cs, 0, cs.len()), (2, 9));
    assert_eq!(words_in(&cs, 0, cs.len()), vec!["a".to_string(), "bc".to_string(), "d".to_string()]);
    let blank = chars_of(" \t ");
    let (a, b) = trim_range(&blank, 0, blank.len());
    assert_eq!(a, b);
    assert!(words_in(&blank, 0, blank.len()).is_empty());
}

#[test]
fn find_and_lines() {
    let cs = chars_of("ab:c:d");
    assert_eq!(find_in(&cs, 0, cs.len(), ':'), Some(2));
    assert_eq!(find_in(&cs, 3, cs.len(), ':'), Some(4));
    assert_eq!(find_in(&cs, 0, 2, ':'), None);
    let t = chars_of("x\n\nyz\n");
    assert_eq!(newline_ranges(&t), vec![(0, 1), (2, 2), (3, 5), (6, 6)]);
    assert_eq!(newline_ranges(&Vec::new()), vec![(0, 0)]);
}
