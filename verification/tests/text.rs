use commit_roller::roller::gitlog::{log_arguments, HistoryWindow};
use commit_roller::calendar::CalendarDate;
use commit_roller::text::{
    chars_of, find_from, has_substring, matches_at, push_str, replace_char, slice_of, split_lines,
    string_of,
};

fn chars(s: &str) -> Vec<char> {
    s.chars().collect()
}

#[test]
fn strings_and_characters_convert_both_ways() {
    assert_eq!(chars_of("héllo"), vec!['h', 'é', 'l', 'l', 'o']);
    assert_eq!(chars_of(""), Vec::<char>::new());
    assert_eq!(string_of(&vec!['a', 'ß', 'c']), "aßc");
    assert_eq!(string_of(&vec![]), "");
    let mut out = vec!['x'];
    push_str(&mut out, "yz");
    assert_eq!(out, vec!['x', 'y', 'z']);
}

#[test]
fn find_from_stops_at_the_first_hit_or_the_end() {
    let text = chars("ab cd ef");
    assert_eq!(find_from(&text, 0, ' '), 2);
    assert_eq!(find_from(&text, 2, ' '), 2);
    assert_eq!(find_from(&text, 3, ' '), 5);
    assert_eq!(find_from(&text, 6, ' '), 8);
    assert_eq!(find_from(&text, 8, ' '), 8);
}

#[test]
fn substrings_are_found_anywhere() {
    assert!(has_substring(&chars("Fix the bug"), &chars("the")));
    assert!(has_substring(&chars("Fix the bug"), &chars("Fix")));
    assert!(has_substring(&chars("Fix the bug"), &chars("bug")));
    assert!(has_substring(&chars("Fix the bug"), &chars("")));
    assert!(has_substring(&chars(""), &chars("")));
    assert!(!has_substring(&chars("Fix the bug"), &chars("bugs")));
    assert!(!has_substring(&chars("Fix"), &chars("Fix the bug")));
    assert!(!has_substring(&chars("aab"), &chars("abb")));
    assert!(matches_at(&chars("aab"), &chars("ab"), 1));
    assert!(!matches_at(&chars("aab"), &chars("ab"), 0));
}

#[test]
fn replace_and_slice() {
    assert_eq!(replace_char(&chars("a b  c"), ' ', '_'), chars("a_b__c"));
    assert_eq!(replace_char(&chars("abc"), ' ', '_'), chars("abc"));
    assert_eq!(slice_of(&chars("abcdef"), 2, 4), chars("cd"));
    assert_eq!(slice_of(&chars("abcdef"), 3, 3), chars(""));
}

#[test]
fn lines_end_at_line_feeds() {
    let rows = |s: &str| -> Vec<String> {
        split_lines(&chars(s)).iter().map(|r| r.iter().collect()).collect()
    };
    assert_eq!(rows(""), Vec::<String>::new());
    assert_eq!(rows("a"), vec!["a"]);
    assert_eq!(rows("a\n"), vec!["a"]);
    assert_eq!(rows("a\nb"), vec!["a", "b"]);
    assert_eq!(rows("a\r\nb\r\n"), vec!["a", "b"]);
    assert_eq!(rows("a\n\nb\n"), vec!["a", "", "b"]);
    assert_eq!(rows("\n"), vec![""]);
    assert_eq!(rows("a\rb\nc\r"), vec!["a\rb", "c\r"]);
    for s in ["", "a", "a\n", "a\nb", "a\r\nb\r\n", "a\n\nb\n", "\n", "a\rb\nc\r", "\r\n\r\n", "\r"] {
        let expected: Vec<String> = s.lines().map(|l| l.to_string()).collect();
        assert_eq!(rows(s), expected);
    }
}

#[test]
fn query_names_both_ends_of_the_window() {
    let window = HistoryWindow {
        start: CalendarDate { year: 2023, month: 3, day: 9 },
        end: CalendarDate { year: 2023, month: 3, day: 11 },
    };
    assert_eq!(
        log_arguments(&window),
        vec!["log", "--oneline", "--before", "2023-3-11", "--after", "2023-3-9"]
    );
}
