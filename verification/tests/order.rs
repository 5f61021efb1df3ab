use safepass::order::{sort_texts, text_le};

fn strings(items: &[&str]) -> Vec<String> {
    items.iter().map(|s| s.to_string()).collect()
}

#[test]
fn order_of_two_texts() {
    assert!(text_le("", ""));
    assert!(text_le("", "a"));
    assert!(!text_le("a", ""));
    assert!(text_le("a", "a"));
    assert!(text_le("a", "b"));
    assert!(!text_le("b", "a"));
    assert!(text_le("git", "github"));
    assert!(!text_le("github", "git"));
    assert!(text_le("B", "a"));
    assert!(text_le("github", "gitlab"));
    assert!(text_le("z", "é"));
    assert!(text_le("é", "🔓"));
    assert!(!text_le("🔓", "\u{FFFD}a"));
}

#[test]
fn order_agrees_with_the_standard_one() {
    let samples = ["", "a", "B", "ab", "a b", "é", "z", "🔐", "🔓", "github", "gitlab", "\u{FFFD}", "\u{D7FF}", "\u{E000}"];
    for a in samples {
        for b in samples {
            assert_eq!(text_le(a, b), a <= b);
        }
    }
}

#[test]
fn sorting_keeps_every_text() {
    let input = strings(&["pear", "apple", "fig", "apple", "", "Fig", "é", "zebra"]);
    let mut expected = input.clone();
    expected.sort();
    assert_eq!(sort_texts(&input), expected);
    assert_eq!(sort_texts(&input), strings(&["", "Fig", "apple", "apple", "fig", "pear", "zebra", "é"]));
    assert_eq!(sort_texts(&sort_texts(&input)), expected);
}

#[test]
fn sorting_nothing_and_one() {
    assert_eq!(sort_texts(&vec![]), Vec::<String>::new());
    assert_eq!(sort_texts(&strings(&["one"])), strings(&["one"]));
}
