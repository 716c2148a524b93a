use zed_core::snippet::{Snippet, SnippetError};

fn places(snippet: &Snippet) -> Vec<Vec<(isize, isize)>> {
    snippet.tabstops.iter().map(|stop| stop.places()).collect()
}

#[test]
fn text_without_tabstops_ends_in_one() {
    let snippet = Snippet::parse("one-two").unwrap();
    assert_eq!(snippet.text, "one-two");
    assert_eq!(places(&snippet), vec![vec![(7, 7)]]);
    assert_eq!(snippet.tabstops[0].choices, None);
    let empty = Snippet::parse("").unwrap();
    assert_eq!(empty.text, "");
    assert_eq!(places(&empty), vec![vec![(0, 0)]]);
}

#[test]
fn tabstops_are_ordered_by_number() {
    let snippet = Snippet::parse("one$1two$0three").unwrap();
    assert_eq!(snippet.text, "onetwothree");
    assert_eq!(places(&snippet), vec![vec![(3, 3)], vec![(6, 6)]]);
    let snippet = Snippet::parse("$3-$1-$2").unwrap();
    assert_eq!(snippet.text, "--");
    assert_eq!(
        places(&snippet),
        vec![vec![(1, 1)], vec![(2, 2)], vec![(0, 0)], vec![(2, 2)]]
    );
}

#[test]
fn last_tabstop_at_the_end_is_not_doubled() {
    let snippet = Snippet::parse("foo.$1").unwrap();
    assert_eq!(snippet.text, "foo.");
    assert_eq!(places(&snippet), vec![vec![(4, 4)]]);
    let snippet = Snippet::parse("for a in $1 {\n  $2\n}").unwrap();
    assert_eq!(places(&snippet), vec![vec![(9, 9)], vec![(14, 14)], vec![(16, 16)]]);
}

#[test]
fn placeholders_nest() {
    let snippet = Snippet::parse("for (${1:i} = 0, ${2:len = ${3:$1.length}}; $1 < $0)").unwrap();
    assert_eq!(snippet.text, "for (i = 0, len = .length;  < )");
    assert_eq!(
        places(&snippet),
        vec![
            vec![(5, 6), (18, 18), (27, 27)],
            vec![(12, 25)],
            vec![(18, 25)],
            vec![(30, 30)],
        ]
    );
}

#[test]
fn choices_put_in_the_first() {
    let snippet = Snippet::parse("type ${1|i32,u32|} = $2").unwrap();
    assert_eq!(snippet.text, "type i32 = ");
    assert_eq!(
        snippet.tabstops[0].choices,
        Some(vec!["i32".to_string(), "u32".to_string()])
    );
    assert_eq!(snippet.tabstops[1].choices, None);
    assert_eq!(places(&snippet), vec![vec![(5, 8)], vec![(11, 11)]]);
    // What is escaped is part of a choice, but only of the first.
    let snippet = Snippet::parse("${1|a\\,b,c\\|d|}").unwrap();
    assert_eq!(snippet.text, "a,b");
    assert_eq!(
        snippet.tabstops[0].choices,
        Some(vec!["a,b".to_string(), "cd".to_string()])
    );
}

#[test]
fn escaped_characters_stand_for_themselves() {
    let snippet = Snippet::parse("\"\\$schema\": $1").unwrap();
    assert_eq!(snippet.text, "\"$schema\": ");
    assert_eq!(places(&snippet), vec![vec![(11, 11)]]);
    let snippet = Snippet::parse("{a\\}\\\\b\\c}\\").unwrap();
    assert_eq!(snippet.text, "{a}\\b\\c}\\");
}

#[test]
fn places_count_bytes_and_lie_in_the_text() {
    let snippet = Snippet::parse("\u{e9}$1\u{1f600}${2:\u{20ac}}").unwrap();
    assert_eq!(snippet.text, "\u{e9}\u{1f600}\u{20ac}");
    assert_eq!(places(&snippet), vec![vec![(2, 2)], vec![(6, 9)], vec![(9, 9)]]);
    for stop in places(&snippet) {
        for (start, end) in stop {
            assert!(0 <= start && start <= end && end <= snippet.text.len() as isize);
        }
    }
}

#[test]
fn more_than_two_places_are_kept() {
    let snippet = Snippet::parse("$1-$1-$1-$1").unwrap();
    assert_eq!(places(&snippet), vec![vec![(0, 0), (1, 1), (2, 2), (3, 3)], vec![(3, 3)]]);
}

#[test]
fn faulty_snippets_are_refused() {
    assert!(matches!(Snippet::parse("a $b"), Err(SnippetError::ExpectedInteger)));
    assert!(matches!(Snippet::parse("$"), Err(SnippetError::ExpectedInteger)));
    assert!(matches!(
        Snippet::parse("$99999999999999999999999999"),
        Err(SnippetError::IntegerTooLarge)
    ));
    assert!(matches!(Snippet::parse("${1:x"), Err(SnippetError::ExpectedClosingBrace)));
    assert!(matches!(Snippet::parse("${1"), Err(SnippetError::ExpectedClosingBrace)));
    assert!(matches!(Snippet::parse("${1|a,b"), Err(SnippetError::MissingPipe)));
}
