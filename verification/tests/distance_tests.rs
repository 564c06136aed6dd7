use contact_dedup::{cluster_edit_distance, levenshtein_distance};

fn clusters(parts: &[&str]) -> Vec<String> {
    parts.iter().map(|part| part.to_string()).collect()
}

#[test]
fn test_levenshtein_distance() {
    assert_eq!(levenshtein_distance("kitten", "sitting"), 3);
    assert_eq!(levenshtein_distance("", ""), 0);
    assert_eq!(levenshtein_distance("abc", "abc"), 0);
    assert_eq!(levenshtein_distance("hello", "helo"), 1);
    assert_eq!(levenshtein_distance("saturday", "sunday"), 3);
}

#[test]
fn test_levenshtein_distance_edge_cases() {
    // Empty strings
    assert_eq!(levenshtein_distance("", ""), 0);
    assert_eq!(levenshtein_distance("", "abc"), 3);
    assert_eq!(levenshtein_distance("abc", ""), 3);

    // Unicode characters
    assert_eq!(levenshtein_distance("café", "cafe"), 1);
    assert_eq!(levenshtein_distance("über", "uber"), 1);
    assert_eq!(levenshtein_distance("🌟", "⭐"), 1);

    // Very different lengths
    assert_eq!(levenshtein_distance("a", "abcdef"), 5);
    assert_eq!(levenshtein_distance("abcdef", "a"), 5);
}

#[test]
fn distance_counts_a_combining_sequence_as_one_unit() {
    // A base letter with a combining accent is one cluster of two code points.
    assert_eq!(levenshtein_distance("e\u{301}", "a"), 1);
    assert_eq!(levenshtein_distance("e\u{301}", "e"), 1);
    assert_eq!(levenshtein_distance("e\u{301}", ""), 1);
    assert_eq!(levenshtein_distance("cafe\u{301}", "cafe"), 1);
}

#[test]
fn distance_counts_multi_codepoint_clusters_once() {
    // Two flags of two regional indicators each.
    assert_eq!(levenshtein_distance("\u{1F1F7}\u{1F1FA}\u{1F1F8}\u{1F1F9}", ""), 2);
    // A line break of carriage return and line feed.
    assert_eq!(levenshtein_distance("a\r\nb", "ab"), 1);
    // A family joined by zero-width joiners.
    assert_eq!(levenshtein_distance("\u{1F468}\u{200D}\u{1F469}\u{200D}\u{1F467}", "x"), 1);
}

#[test]
fn distance_to_itself_is_zero() {
    for text in ["", "a", "duplicate", "José García", "e\u{301}e\u{301}", "🌟⭐"] {
        assert_eq!(levenshtein_distance(text, text), 0);
    }
}

#[test]
fn distance_is_symmetric() {
    let texts = ["", "kitten", "sitting", "saturday", "sunday", "café", "cafe\u{301}"];
    for a in texts {
        for b in texts {
            assert_eq!(levenshtein_distance(a, b), levenshtein_distance(b, a));
        }
    }
}

#[test]
fn distance_from_empty_is_the_number_of_clusters() {
    assert_eq!(levenshtein_distance("", "hello"), 5);
    assert_eq!(levenshtein_distance("", "e\u{301}o\u{308}"), 2);
    assert_eq!(levenshtein_distance("e\u{301}o\u{308}", ""), 2);
}

#[test]
fn cluster_distance_on_given_clusters() {
    let kitten = clusters(&["k", "i", "t", "t", "e", "n"]);
    let sitting = clusters(&["s", "i", "t", "t", "i", "n", "g"]);
    assert_eq!(cluster_edit_distance(&kitten, &sitting), 3);
    assert_eq!(cluster_edit_distance(&sitting, &kitten), 3);
    assert_eq!(cluster_edit_distance(&kitten, &kitten), 0);
    assert_eq!(cluster_edit_distance(&kitten, &[]), 6);
    assert_eq!(cluster_edit_distance(&[], &sitting), 7);
    assert_eq!(cluster_edit_distance(&[], &[]), 0);
}

#[test]
fn cluster_distance_compares_whole_clusters() {
    let accented = clusters(&["e\u{301}", "t", "e\u{301}"]);
    let plain = clusters(&["e", "t", "e"]);
    assert_eq!(cluster_edit_distance(&accented, &plain), 2);
    let one = clusters(&["ab"]);
    let two = clusters(&["a", "b"]);
    assert_eq!(cluster_edit_distance(&one, &two), 2);
}

#[test]
fn distance_insertion_deletion_substitution() {
    assert_eq!(levenshtein_distance("abc", "abxc"), 1);
    assert_eq!(levenshtein_distance("abxc", "abc"), 1);
    assert_eq!(levenshtein_distance("abc", "axc"), 1);
    assert_eq!(levenshtein_distance("abc", "xyz"), 3);
    assert_eq!(levenshtein_distance("flaw", "lawn"), 2);
    assert_eq!(levenshtein_distance("intention", "execution"), 5);
}

#[test]
fn distance_of_long_texts() {
    let long = "abcdefghij".repeat(60);
    let mut changed = long.clone();
    changed.replace_range(300..301, "X");
    changed.push_str("tail");
    assert_eq!(levenshtein_distance(&long, &long), 0);
    assert_eq!(levenshtein_distance(&long, &changed), 5);
    assert_eq!(levenshtein_distance(&long, ""), 600);
    assert_eq!(levenshtein_distance(&long, &"z".repeat(250)), 600);
}
