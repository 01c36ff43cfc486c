use textgen::args::{check_args, parse_identifier, parse_variable, ArgError};
use textgen::back::{can_emit, to_output_tokens, TextGenError};
use textgen::files::{FileEntry, Files};
use textgen::front::{create_tokens, parse_tokens, reconstruct_text, tokenize_lines};
use textgen::{symbol_table_from_args, Position, Range, SymbolTable, Token};

#[test]
fn test_arg_parsing() {
    let args: Vec<String> = ["--var1", "1", "--var2", "\"2\""]
        .iter()
        .map(|each| each.to_string())
        .collect();
    let symbols = symbol_table_from_args(&args);
    assert_eq!(symbols.get_variable("var2").unwrap(), "2".to_string());
}

#[test]
fn test_roundtrip_replace_simple() {
    let symbol_table = SymbolTable::new(&[("var1", "world")]);
    let tokens = create_tokens("Hello ${var1}!".to_string(), 0).unwrap();
    let symbols = parse_tokens(&tokens, &symbol_table).unwrap();
    let output_tokens = to_output_tokens(&symbols, &symbol_table, &Files::new());
    let output = reconstruct_text(&output_tokens.unwrap());
    assert_eq!(output, "Hello world!".to_string())
}

fn strings(values: &[&str]) -> Vec<String> {
    values.iter().map(|each| each.to_string()).collect()
}

fn render(lines: &[&str], table: &SymbolTable, files: &Files) -> String {
    let tokens = tokenize_lines(&strings(lines)).unwrap();
    let symbols = parse_tokens(&tokens, table).unwrap();
    assert!(can_emit(&symbols, table, files));
    reconstruct_text(&to_output_tokens(&symbols, table, files).unwrap())
}

#[test]
fn a_document_without_placeholders_comes_out_as_it_went_in() {
    let lines = ["# Title", "", "  some text, with (punctuation)!", "\u{e9}t\u{e9}   $ 5 {x}"];
    let table = SymbolTable::new(&[("x", "unused")]);
    assert_eq!(render(&lines, &table, &Files::new()), lines.join("\n"));
}

#[test]
fn an_empty_document_comes_out_empty() {
    assert_eq!(render(&[], &SymbolTable::new(&[]), &Files::new()), "");
    assert_eq!(render(&[""], &SymbolTable::new(&[]), &Files::new()), "");
}

#[test]
fn empty_lines_at_the_end_are_not_written() {
    assert_eq!(render(&["a", "", ""], &SymbolTable::new(&[]), &Files::new()), "a");
}

#[test]
fn a_shorter_value_moves_the_rest_of_its_line_left() {
    let table = SymbolTable::new(&[("v", "XYZ")]);
    let tokens = create_tokens("a ${v}b c".to_string(), 0).unwrap();
    let symbols = parse_tokens(&tokens, &table).unwrap();
    let output = to_output_tokens(&symbols, &table, &Files::new()).unwrap();
    let word = |text: &str, start: usize, end: usize| Token::Word {
        text: text.to_string(),
        range: Range {
            start_pos: Position { line: 0, column: start },
            end_pos: Position { line: 0, column: end },
        },
    };
    // "${v}" has 4 characters and "XYZ" has 3: "b" and "c" move by 3 - 4.
    assert_eq!(
        output,
        vec![word("a", 0, 1), word("XYZ", 2, 5), word("b", 5, 6), word("c", 7, 8)]
    );
    assert_eq!(reconstruct_text(&output), "a XYZb c");
}

#[test]
fn a_longer_value_moves_the_rest_of_its_line_right() {
    let table = SymbolTable::new(&[("name", "a much longer value")]);
    assert_eq!(
        render(&["x = ${name};  // set", "y = 1;"], &table, &Files::new()),
        "x = a much longer value;  // set\ny = 1;"
    );
}

#[test]
fn drift_ends_with_the_line() {
    let table = SymbolTable::new(&[("a", "1"), ("b", "22")]);
    assert_eq!(
        render(&["${a}   x", "  ${b}   y", "    z"], &table, &Files::new()),
        "1   x\n  22   y\n    z"
    );
}

#[test]
fn a_value_starts_at_the_column_of_its_placeholder() {
    // Words move with the drift of their line; a value does not.
    let table = SymbolTable::new(&[("a", "1"), ("b", "twenty-two")]);
    assert_eq!(
        render(&["(${a}, ${a}, ${b}) end"], &table, &Files::new()),
        "(1,    1,    twenty-two) end"
    );
}

#[test]
fn a_value_left_of_the_cursor_follows_at_once() {
    let table = SymbolTable::new(&[("a", "1"), ("b", "twenty-two")]);
    let tokens = create_tokens("${b}${a} x".to_string(), 0).unwrap();
    let symbols = parse_tokens(&tokens, &table).unwrap();
    assert!(can_emit(&symbols, &table, &Files::new()));
    let output = to_output_tokens(&symbols, &table, &Files::new()).unwrap();
    assert_eq!(
        output[1],
        Token::Word {
            text: "1".to_string(),
            range: Range {
                start_pos: Position { line: 0, column: 4 },
                end_pos: Position { line: 0, column: 5 },
            },
        }
    );
    assert_eq!(reconstruct_text(&output), "twenty-two1x");
}

#[test]
fn an_empty_value_leaves_the_spaces_around_it() {
    let table = SymbolTable::new(&[("a", "")]);
    assert_eq!(render(&["x ${a} y"], &table, &Files::new()), "x  y");
}

#[test]
fn a_spread_is_replaced_by_the_content_of_its_file() {
    let table = SymbolTable::new(&[("file1", "./test_corpus/spread_content.txt")]);
    let mut files = Files::new();
    files.insert(
        "./test_corpus/spread_content.txt".to_string(),
        FileEntry::Content("Foo Bar\nBaz\n".to_string()),
    );
    assert_eq!(render(&["bb aa ${...file1} cc"], &table, &files), "bb aa Foo Bar\nBaz cc");
}

#[test]
fn a_newline_in_a_spread_counts_as_one_column() {
    let table = SymbolTable::new(&[("f", "f.txt")]);
    let mut files = Files::new();
    files.insert("f.txt".to_string(), FileEntry::Content("A\nB".to_string()));
    let tokens = create_tokens("x ${...f} y".to_string(), 0).unwrap();
    let symbols = parse_tokens(&tokens, &table).unwrap();
    let output = to_output_tokens(&symbols, &table, &files).unwrap();
    assert_eq!(
        output[2],
        Token::Word {
            text: "y".to_string(),
            range: Range {
                start_pos: Position { line: 0, column: 6 },
                end_pos: Position { line: 0, column: 7 },
            },
        }
    );
    assert_eq!(reconstruct_text(&output), "x A\nB y");
}

#[test]
fn a_spread_of_a_missing_file_fails_at_its_range() {
    let table = SymbolTable::new(&[("file1", "missing.txt")]);
    let tokens = create_tokens("bb aa ${...file1} cc".to_string(), 0).unwrap();
    let symbols = parse_tokens(&tokens, &table).unwrap();
    assert_eq!(
        to_output_tokens(&symbols, &table, &Files::new()),
        Err(TextGenError::NoSuchFile(Range {
            start_pos: Position { line: 0, column: 6 },
            end_pos: Position { line: 0, column: 17 },
        }))
    );
}

#[test]
fn a_spread_of_an_unreadable_file_fails_at_its_range() {
    let table = SymbolTable::new(&[("f", "locked.txt")]);
    let mut files = Files::new();
    files.insert("locked.txt".to_string(), FileEntry::Unreadable);
    let tokens = create_tokens("${...f}".to_string(), 3).unwrap();
    let symbols = parse_tokens(&tokens, &table).unwrap();
    assert_eq!(
        to_output_tokens(&symbols, &table, &files),
        Err(TextGenError::FailedToReadFile(Range {
            start_pos: Position { line: 3, column: 0 },
            end_pos: Position { line: 3, column: 7 },
        }))
    );
}

#[test]
fn the_last_binding_of_a_name_holds() {
    let table = SymbolTable::new(&[("a", "1"), ("b", "2"), ("a", "3")]);
    assert_eq!(table.get_variable("a"), Some("3".to_string()));
    assert_eq!(table.get_variable("b"), Some("2".to_string()));
    assert_eq!(table.get_variable("c"), None);
    assert!(table.has_variable("b"));
    assert!(!table.has_variable(""));
}

#[test]
fn arguments_are_read_in_pairs() {
    let args = strings(&["--a", "1", "--b", "\"two words\"", "--a", "--x", "--", "\"\""]);
    assert_eq!(check_args(&args), None);
    let table = symbol_table_from_args(&args);
    assert_eq!(table.get_variable("a"), Some("--x".to_string()));
    assert_eq!(table.get_variable("b"), Some("two words".to_string()));
    assert_eq!(table.get_variable(""), Some(String::new()));
    assert_eq!(table.get_variable("x"), None);
}

#[test]
fn no_arguments_give_an_empty_table() {
    assert_eq!(check_args(&[]), None);
    assert!(!symbol_table_from_args(&[]).has_variable("a"));
}

#[test]
fn the_first_bad_argument_is_reported() {
    assert_eq!(check_args(&strings(&["--a"])), Some(ArgError::InvalidSymbol(0)));
    assert_eq!(
        check_args(&strings(&["--a", "1", "b"])),
        Some(ArgError::InvalidSymbol(2))
    );
    assert_eq!(
        check_args(&strings(&["--a", "1", "-b", "\"2"])),
        Some(ArgError::InvalidName(2))
    );
    assert_eq!(
        check_args(&strings(&["--a", "\"1", "b", "2"])),
        Some(ArgError::UnterminatedValue(1))
    );
    assert_eq!(
        check_args(&strings(&["--a", "1", "--b", "\""])),
        Some(ArgError::UnterminatedValue(3))
    );
    assert_eq!(check_args(&strings(&["", "1"])), Some(ArgError::InvalidName(0)));
}

#[test]
fn names_lose_their_dashes_and_values_their_quotes() {
    assert_eq!(parse_identifier("--name"), "name");
    assert_eq!(parse_identifier("---"), "-");
    assert_eq!(parse_identifier("--"), "");
    assert_eq!(parse_variable("plain"), "plain");
    assert_eq!(parse_variable(""), "");
    assert_eq!(parse_variable("\"quoted\""), "quoted");
    assert_eq!(parse_variable("\"\""), "");
    assert_eq!(parse_variable("end\""), "end\"");
    assert_eq!(parse_variable("\"\u{e9}\""), "\u{e9}");
}
