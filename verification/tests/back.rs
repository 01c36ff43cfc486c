use textgen::back::{
    calculate_new_range, calculate_replacement_range, can_emit, get_file_content,
    new_range_fits, replacement_range_fits, to_output_tokens, TextGenError,
};
use textgen::files::{FileEntry, Files};
use textgen::{Position, Range, Symbol, SymbolTable, Token};

fn range(line: usize, start: usize, end: usize) -> Range {
    Range {
        start_pos: Position { line, column: start },
        end_pos: Position { line, column: end },
    }
}

#[test]
fn test_calculate_new_range_return_same_for_new_line() {
    let expected = Range {
        start_pos: Position { line: 6, column: 0 },
        end_pos: Position { line: 6, column: 4 },
    };
    assert_eq!(
        calculate_new_range(
            &Position { line: 5, column: 6 },
            &Position { line: 5, column: 4 },
            &expected
        ),
        expected
    );
    let expected = Range {
        start_pos: Position {
            line: 10,
            column: 0,
        },
        end_pos: Position {
            line: 10,
            column: 4,
        },
    };
    assert_eq!(
        calculate_new_range(
            &Position { line: 5, column: 6 },
            &Position { line: 5, column: 4 },
            &expected
        ),
        expected
    );
}

#[test]
fn test_calculate_new_range_return_same_for_no_change() {
    let expected = Range {
        start_pos: Position { line: 5, column: 6 },
        end_pos: Position { line: 5, column: 6 },
    };
    assert_eq!(
        calculate_new_range(
            &Position { line: 5, column: 6 },
            &Position { line: 5, column: 6 },
            &expected
        ),
        expected
    );
}

#[test]
fn test_calculate_new_range_when_cursor_is_ahead() {
    let actual = calculate_new_range(
        &Position { line: 5, column: 6 },
        &Position {
            line: 5,
            column: 10,
        },
        &Range {
            start_pos: Position { line: 5, column: 6 },
            end_pos: Position { line: 5, column: 7 },
        },
    );
    assert_eq!(
        actual,
        Range {
            start_pos: Position {
                line: 5,
                column: 10
            },
            end_pos: Position {
                line: 5,
                column: 11
            }
        }
    )
}

#[test]
fn test_calculate_new_range_when_cursor_is_behind() {
    let actual = calculate_new_range(
        &Position { line: 5, column: 6 },
        &Position { line: 5, column: 4 },
        &Range {
            start_pos: Position { line: 5, column: 6 },
            end_pos: Position { line: 5, column: 7 },
        },
    );
    assert_eq!(
        actual,
        Range {
            start_pos: Position { line: 5, column: 4 },
            end_pos: Position { line: 5, column: 5 }
        }
    )
}

#[test]
fn new_range_keeps_the_distance_to_the_symbol_before() {
    // The word stood 3 columns after the end of the symbol before it.
    let actual = calculate_new_range(
        &Position { line: 2, column: 10 },
        &Position { line: 2, column: 4 },
        &range(2, 13, 18),
    );
    assert_eq!(actual, range(2, 7, 12));
}

#[test]
fn new_range_where_the_word_starts_left_of_the_last_end() {
    let last_end = Position { line: 0, column: 9 };
    let cursor = Position { line: 0, column: 20 };
    let word = range(0, 4, 6);
    assert!(new_range_fits(&last_end, &cursor, &word));
    assert_eq!(calculate_new_range(&last_end, &cursor, &word), range(0, 15, 17));
}

#[test]
fn new_range_is_undefined_where_it_cannot_be_held() {
    let last_end = Position { line: 0, column: 9 };
    // The new start would be negative.
    assert!(!new_range_fits(&last_end, &Position { line: 0, column: 2 }, &range(0, 4, 6)));
    // The new end would be too large.
    assert!(!new_range_fits(
        &last_end,
        &Position { line: 0, column: usize::MAX - 1 },
        &range(0, 9, 12)
    ));
    // The word starts on a line before the cursor's.
    assert!(!new_range_fits(&last_end, &Position { line: 3, column: 2 }, &range(0, 9, 12)));
    // The range ends before it starts.
    assert!(!new_range_fits(&last_end, &Position { line: 0, column: 12 }, &range(0, 12, 10)));
    // Without drift anything goes.
    assert!(new_range_fits(&last_end, &last_end, &range(0, 12, 10)));
    // A word on a later line stays where it is.
    assert!(new_range_fits(&last_end, &Position { line: 0, column: 2 }, &range(1, 0, 6)));
}

#[test]
fn replacement_range_with_the_cursor_on_an_earlier_line() {
    let actual = calculate_replacement_range(
        &Position { line: 1, column: 30 },
        &Position { line: 3, column: 7 },
        &"world".to_string(),
    );
    assert_eq!(actual, range(3, 7, 12));
}

#[test]
fn replacement_range_with_the_cursor_on_the_same_line() {
    let actual = calculate_replacement_range(
        &Position { line: 3, column: 5 },
        &Position { line: 3, column: 7 },
        &"world".to_string(),
    );
    assert_eq!(actual, range(3, 7, 12));
}

#[test]
fn replacement_range_with_the_cursor_right_of_the_placeholder() {
    let actual = calculate_replacement_range(
        &Position { line: 3, column: 17 },
        &Position { line: 3, column: 15 },
        &"ab".to_string(),
    );
    assert_eq!(actual, range(3, 15, 17));
}

#[test]
fn replacement_range_with_the_cursor_on_a_later_line() {
    let actual = calculate_replacement_range(
        &Position { line: 4, column: 0 },
        &Position { line: 3, column: 15 },
        &"ab".to_string(),
    );
    assert_eq!(actual, range(4, 15, 17));
}

#[test]
fn replacement_range_counts_characters() {
    let actual = calculate_replacement_range(
        &Position { line: 0, column: 0 },
        &Position { line: 0, column: 1 },
        &"h\u{e9}llo".to_string(),
    );
    assert_eq!(actual, range(0, 1, 6));
}

#[test]
fn replacement_fits_up_to_the_last_column() {
    let start = Position { line: 0, column: usize::MAX - 3 };
    assert!(replacement_range_fits(&start, 3));
    assert!(!replacement_range_fits(&start, 4));
}

fn word(text: &str, line: usize, start: usize, end: usize) -> Symbol {
    Symbol::Word { text: text.to_string(), range: range(line, start, end) }
}

fn token(text: &str, line: usize, start: usize, end: usize) -> Token {
    Token::Word { text: text.to_string(), range: range(line, start, end) }
}

#[test]
fn words_alone_stay_where_they_are() {
    let symbols = vec![word("a", 0, 0, 1), word("bc", 0, 4, 6), word("d", 2, 3, 4)];
    let table = SymbolTable::new(&[]);
    let files = Files::new();
    assert!(can_emit(&symbols, &table, &files));
    let tokens = to_output_tokens(&symbols, &table, &files).unwrap();
    assert_eq!(tokens, vec![token("a", 0, 0, 1), token("bc", 0, 4, 6), token("d", 2, 3, 4)]);
}

#[test]
fn no_symbols_give_no_tokens() {
    let table = SymbolTable::new(&[]);
    let files = Files::new();
    assert!(can_emit(&[], &table, &files));
    assert_eq!(to_output_tokens(&[], &table, &files).unwrap(), vec![]);
}

#[test]
fn a_longer_value_moves_the_word_after_it_right() {
    // "x ${v} y" and, on the next line, "z"
    let symbols = vec![
        word("x", 0, 0, 1),
        Symbol::Replace { identifier: "v".to_string(), range: range(0, 2, 6) },
        word("y", 0, 7, 8),
        word("z", 1, 0, 1),
    ];
    let table = SymbolTable::new(&[("v", "123456")]);
    let files = Files::new();
    assert!(can_emit(&symbols, &table, &files));
    let tokens = to_output_tokens(&symbols, &table, &files).unwrap();
    assert_eq!(
        tokens,
        vec![
            token("x", 0, 0, 1),
            token("123456", 0, 2, 8),
            token("y", 0, 9, 10),
            token("z", 1, 0, 1),
        ]
    );
}

#[test]
fn an_unbound_placeholder_cannot_be_emitted() {
    let symbols = vec![Symbol::Replace { identifier: "v".to_string(), range: range(0, 2, 6) }];
    let table = SymbolTable::new(&[("w", "1")]);
    assert!(!can_emit(&symbols, &table, &Files::new()));
    let symbols = vec![Symbol::Spread { identifier: "v".to_string(), range: range(0, 2, 9) }];
    assert!(!can_emit(&symbols, &table, &Files::new()));
}

#[test]
fn a_value_that_ends_past_the_last_column_cannot_be_emitted() {
    let symbols = vec![Symbol::Replace {
        identifier: "v".to_string(),
        range: range(0, usize::MAX - 1, usize::MAX),
    }];
    assert!(can_emit(&symbols, &SymbolTable::new(&[("v", "1")]), &Files::new()));
    assert!(!can_emit(&symbols, &SymbolTable::new(&[("v", "12")]), &Files::new()));
}

#[test]
fn nothing_after_a_missing_file_has_to_be_defined() {
    let symbols = vec![
        Symbol::Spread { identifier: "f".to_string(), range: range(0, 0, 7) },
        Symbol::Replace { identifier: "unbound".to_string(), range: range(0, 8, 18) },
    ];
    let table = SymbolTable::new(&[("f", "nowhere.txt")]);
    let files = Files::new();
    assert!(can_emit(&symbols, &table, &files));
    assert_eq!(
        to_output_tokens(&symbols, &table, &files),
        Err(TextGenError::NoSuchFile(range(0, 0, 7)))
    );
}

#[test]
fn file_content_is_trimmed() {
    let mut files = Files::new();
    files.insert("a.txt".to_string(), FileEntry::Content("\n  Foo Bar\nBaz \t\n".to_string()));
    files.insert("b.txt".to_string(), FileEntry::Unreadable);
    let at = range(4, 1, 9);
    assert_eq!(get_file_content("a.txt", at, &files), Ok("Foo Bar\nBaz".to_string()));
    assert_eq!(get_file_content("b.txt", at, &files), Err(TextGenError::FailedToReadFile(at)));
    assert_eq!(get_file_content("c.txt", at, &files), Err(TextGenError::NoSuchFile(at)));
}

#[test]
fn the_first_failing_spread_is_reported() {
    let symbols = vec![
        Symbol::Spread { identifier: "a".to_string(), range: range(0, 0, 7) },
        Symbol::Spread { identifier: "b".to_string(), range: range(0, 8, 15) },
        Symbol::Spread { identifier: "c".to_string(), range: range(0, 16, 23) },
    ];
    let table = SymbolTable::new(&[("a", "a.txt"), ("b", "b.txt"), ("c", "c.txt")]);
    let mut files = Files::new();
    files.insert("a.txt".to_string(), FileEntry::Content("A".to_string()));
    files.insert("b.txt".to_string(), FileEntry::Unreadable);
    assert!(can_emit(&symbols, &table, &files));
    assert_eq!(
        to_output_tokens(&symbols, &table, &files),
        Err(TextGenError::FailedToReadFile(range(0, 8, 15)))
    );
}

#[test]
fn errors_are_described_with_their_range() {
    assert_eq!(
        TextGenError::NoSuchFile(range(3, 6, 17)).describe(),
        "3:6:3:17 : Invalid file path"
    );
    assert_eq!(
        TextGenError::FailedToReadFile(range(0, 0, 120)).describe(),
        "0:0:0:120 : Failed to read file at path"
    );
}
