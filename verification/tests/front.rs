use textgen::front::{
    create_token, create_tokens, parse_tokens, reconstruct_text, tokenize_lines, ParseError,
};
use textgen::{Position, Range, Symbol, SymbolTable, Token};

#[test]
fn test_tokenize_simple_line() {
    let l = "Hello world!".to_string();
    let tokens = create_tokens(l, 0).unwrap();
    let expected = vec![
        create_word("Hello", 0),
        create_word("world", "Hello".len() + 1),
        create_punctuation("!", "Hello world".len()),
    ];
    println!("{:?}", tokens);
    assert_eq!(expected.len(), tokens.len());
    for i in 0..expected.len() {
        assert_eq!(tokens[i], expected[i]);
    }
}

#[test]
fn test_roundtrip_simple_line() {
    let l = "Hello world!".to_string();
    let tokens = create_tokens(l.clone(), 0).unwrap();
    let r = reconstruct_text(&tokens);
    assert_eq!(r, l);
}

#[test]
fn test_parsing_just_text() {
    let symbols = parse_tokens(
        &create_tokens("Hello world!".to_string(), 0).unwrap(),
        &SymbolTable::new(&[]),
    )
    .unwrap();
    assert_eq!(
        symbols,
        vec![
            Symbol::Word {
                text: "Hello".to_string(),
                range: range("", "Hello")
            },
            Symbol::Word {
                text: "world".to_string(),
                range: range("Hello ", "world")
            },
            Symbol::Word {
                text: "!".to_string(),
                range: range("Hello world", "!")
            }
        ]
    );
}

#[test]
fn test_parsing_replace() {
    let symbols = parse_tokens(
        &create_tokens("Hello ${var1}! ${var2}".to_string(), 0).unwrap(),
        &SymbolTable::new(&[("var1", ""), ("var2", "")]),
    )
    .unwrap();
    assert_eq!(
        symbols,
        vec![
            Symbol::Word {
                text: "Hello".to_string(),
                range: range("", "Hello")
            },
            Symbol::Replace {
                identifier: "var1".to_string(),
                range: range("Hello ", "${var1}")
            },
            Symbol::Word {
                text: "!".to_string(),
                range: range("Hello ${var1}", "!")
            },
            Symbol::Replace {
                identifier: "var2".to_string(),
                range: range("Hello ${var1}! ", "${var2}")
            }
        ]
    );
}

#[test]
fn test_parsing_replace_err() {
    let symbols = parse_tokens(
        &create_tokens("Hello ${var1}! ${var2}".to_string(), 0).unwrap(),
        &SymbolTable::new(&[]),
    );
    let err_pos: Range = (
        &Position { line: 0, column: 6 },
        &Position {
            line: 0,
            column: 12,
        },
    )
        .into();
    if let Err(ParseError::VariableNotFound(r)) = symbols {
        assert_eq!(r, err_pos)
    } else {
        panic!("Expected an error");
    }
}

#[test]
fn test_parsing_spread_err() {
    let symbols = parse_tokens(
        &create_tokens("Hello ${...var1}! ${var2}".to_string(), 0).unwrap(),
        &SymbolTable::new(&[]),
    );
    let err_pos: Range = (
        &Position { line: 0, column: 6 },
        &Position {
            line: 0,
            column: 15,
        },
    )
        .into();
    if let Err(ParseError::FileNotFound(r)) = symbols {
        assert_eq!(r, err_pos);
    } else {
        panic!("Expected an error");
    }
}

#[test]
fn test_parsing_spread() {
    let symbols = parse_tokens(
        &create_tokens("Hello ${...var1}! ${...var2}".to_string(), 0).unwrap(),
        &SymbolTable::new(&[("var1", "Path1"), ("var2", "Path2")]),
    )
    .unwrap();
    assert_eq!(
        symbols,
        vec![
            Symbol::Word {
                text: "Hello".to_string(),
                range: range("", "Hello")
            },
            Symbol::Spread {
                identifier: "var1".to_string(),
                range: range("Hello ", "${...var1}")
            },
            Symbol::Word {
                text: "!".to_string(),
                range: range("Hello ${...var1}", "!")
            },
            Symbol::Spread {
                identifier: "var2".to_string(),
                range: range("Hello ${...var1}! ", "${...var2}")
            }
        ]
    );
}

fn create_word(t: &str, start: usize) -> Token {
    let text = t.to_string();
    let start_pos = Position {
        line: 0,
        column: start,
    };
    let end_pos = Position {
        line: 0,
        column: start + text.len(),
    };
    Token::Word {
        text,
        range: Range { start_pos, end_pos },
    }
}

fn create_punctuation(t: &str, start: usize) -> Token {
    let chars = t.chars().take(1).collect::<Vec<char>>();
    let value = chars[0];
    let pos = Position {
        column: start,
        line: 0,
    };
    Token::Punctuation { value, pos }
}

fn range(prefix: &str, word: &str) -> Range {
    let line = 0;
    Range {
        start_pos: Position {
            line,
            column: prefix.len(),
        },
        end_pos: Position {
            line,
            column: prefix.len() + word.len(),
        },
    }
}

fn word_at(text: &str, line: usize, start: usize) -> Token {
    Token::Word {
        text: text.to_string(),
        range: Range {
            start_pos: Position { line, column: start },
            end_pos: Position { line, column: start + text.chars().count() },
        },
    }
}

fn punctuation_at(value: char, line: usize, column: usize) -> Token {
    Token::Punctuation { value, pos: Position { line, column } }
}

#[test]
fn an_empty_line_has_no_tokens() {
    assert_eq!(create_tokens(String::new(), 3), Ok(vec![]));
}

#[test]
fn a_line_of_spaces_has_no_tokens() {
    assert_eq!(create_tokens("    ".to_string(), 0), Ok(vec![]));
}

#[test]
fn every_punctuation_character_is_a_token() {
    let tokens = create_tokens("a,b::(c)".to_string(), 2).unwrap();
    assert_eq!(
        tokens,
        vec![
            word_at("a", 2, 0),
            punctuation_at(',', 2, 1),
            word_at("b", 2, 2),
            punctuation_at(':', 2, 3),
            punctuation_at(':', 2, 4),
            punctuation_at('(', 2, 5),
            word_at("c", 2, 6),
            punctuation_at(')', 2, 7),
        ]
    );
}

#[test]
fn a_single_punctuation_character_is_punctuation() {
    assert_eq!(create_tokens("$".to_string(), 0), Ok(vec![punctuation_at('$', 0, 0)]));
    assert_eq!(create_tokens("x".to_string(), 0), Ok(vec![word_at("x", 0, 0)]));
}

#[test]
fn spaces_part_words_and_keep_their_columns() {
    let tokens = create_tokens("  ab   cd e".to_string(), 7).unwrap();
    assert_eq!(tokens, vec![word_at("ab", 7, 2), word_at("cd", 7, 7), word_at("e", 7, 10)]);
}

#[test]
fn columns_count_characters() {
    let tokens = create_tokens("\u{e9}t\u{e9} \u{4e16}\u{754c}!".to_string(), 0).unwrap();
    assert_eq!(
        tokens,
        vec![
            word_at("\u{e9}t\u{e9}", 0, 0),
            word_at("\u{4e16}\u{754c}", 0, 4),
            punctuation_at('!', 0, 6),
        ]
    );
    assert_eq!(reconstruct_text(&tokens), "\u{e9}t\u{e9} \u{4e16}\u{754c}!");
}

#[test]
fn a_word_at_the_end_of_the_line_is_flushed() {
    let tokens = create_tokens("(end".to_string(), 0).unwrap();
    assert_eq!(tokens, vec![punctuation_at('(', 0, 0), word_at("end", 0, 1)]);
}

#[test]
fn other_whitespace_is_refused_with_its_position() {
    assert_eq!(
        create_tokens("ab\tcd".to_string(), 4),
        Err(ParseError::UnexpectedToken(Position { line: 4, column: 2 }))
    );
    assert_eq!(
        create_tokens("a b \u{a0}\t".to_string(), 0),
        Err(ParseError::UnexpectedToken(Position { line: 0, column: 4 }))
    );
    assert_eq!(
        create_tokens("\n".to_string(), 9),
        Err(ParseError::UnexpectedToken(Position { line: 9, column: 0 }))
    );
}

#[test]
fn a_buffer_makes_one_token_or_none() {
    assert_eq!(create_token(&[], 0, 5, 5), None);
    assert_eq!(create_token(&['!'], 1, 5, 6), Some(punctuation_at('!', 1, 5)));
    assert_eq!(create_token(&['a'], 1, 5, 6), Some(word_at("a", 1, 5)));
    assert_eq!(create_token(&['a', '!'], 1, 5, 7), Some(word_at("a!", 1, 5)));
}

#[test]
fn the_tokens_of_a_line_part_it() {
    let line = "  fn main() { let x = a_b + 1; }";
    let tokens = create_tokens(line.to_string(), 0).unwrap();
    let chars: Vec<char> = line.chars().collect();
    let mut covered = vec![false; chars.len()];
    let mut last_end = 0;
    for token in &tokens {
        let (start, end, text) = match token {
            Token::Word { text, range } => {
                (range.start_pos.column, range.end_pos.column, text.clone())
            }
            Token::Punctuation { value, pos } => (pos.column, pos.column + 1, value.to_string()),
        };
        assert!(last_end <= start);
        assert!(start < end);
        assert_eq!(chars[start..end].iter().collect::<String>(), text);
        for at in start..end {
            covered[at] = true;
        }
        last_end = end;
    }
    for at in 0..chars.len() {
        assert_eq!(covered[at], chars[at] != ' ');
    }
}

#[test]
fn lines_are_numbered_from_zero() {
    let lines = vec!["a b".to_string(), String::new(), " c!".to_string()];
    let tokens = tokenize_lines(&lines).unwrap();
    assert_eq!(
        tokens,
        vec![
            word_at("a", 0, 0),
            word_at("b", 0, 2),
            word_at("c", 2, 1),
            punctuation_at('!', 2, 2),
        ]
    );
}

#[test]
fn the_first_bad_line_ends_the_tokenizing() {
    let lines = vec!["a b".to_string(), "c\td".to_string(), "\te".to_string()];
    assert_eq!(
        tokenize_lines(&lines),
        Err(ParseError::UnexpectedToken(Position { line: 1, column: 1 }))
    );
}

#[test]
fn no_lines_give_no_tokens() {
    assert_eq!(tokenize_lines(&[]), Ok(vec![]));
}

#[test]
fn a_document_without_placeholders_is_written_as_it_was() {
    let lines = vec![
        "fn main() {".to_string(),
        "    let total = a + b;   // sum".to_string(),
        String::new(),
        "  }".to_string(),
    ];
    let tokens = tokenize_lines(&lines).unwrap();
    assert_eq!(reconstruct_text(&tokens), lines.join("\n"));
}

#[test]
fn spaces_at_the_end_of_a_line_are_not_written() {
    let tokens = create_tokens("a b  ".to_string(), 0).unwrap();
    assert_eq!(reconstruct_text(&tokens), "a b");
}

#[test]
fn a_token_left_of_the_text_follows_at_once() {
    let tokens = vec![word_at("abc", 0, 2), word_at("d", 0, 3), word_at("e", 0, 10)];
    assert_eq!(reconstruct_text(&tokens), "  abcd    e");
}

#[test]
fn a_token_on_an_earlier_line_follows_at_once() {
    let tokens = vec![word_at("abc", 2, 1), word_at("d", 0, 0), word_at("e", 1, 6)];
    assert_eq!(reconstruct_text(&tokens), "\n\n abcd e");
}

#[test]
fn newlines_in_a_token_do_not_move_the_column() {
    let tokens = vec![word_at("a\nb", 0, 0), word_at("c", 0, 5)];
    assert_eq!(reconstruct_text(&tokens), "a\nb  c");
}

#[test]
fn nothing_is_written_for_no_tokens() {
    assert_eq!(reconstruct_text(&[]), "");
}

#[test]
fn a_dollar_alone_is_a_word() {
    let tokens = create_tokens("$ $a {a} ${} $}".to_string(), 0).unwrap();
    let symbols = parse_tokens(&tokens, &SymbolTable::new(&[("a", "1")])).unwrap();
    let texts: Vec<String> = symbols
        .iter()
        .map(|symbol| match symbol {
            Symbol::Word { text, .. } => text.clone(),
            _ => panic!("a placeholder"),
        })
        .collect();
    assert_eq!(texts, vec!["$", "$", "a", "{", "a", "}", "$", "{", "}", "$", "}"]);
}

#[test]
fn the_word_of_a_placeholder_need_not_touch_its_braces() {
    // The parser reads tokens: the space between `{` and the name is no token.
    let tokens = vec![
        punctuation_at('$', 0, 0),
        punctuation_at('{', 0, 1),
        word_at("a", 0, 3),
        punctuation_at('}', 0, 5),
    ];
    let symbols = parse_tokens(&tokens, &SymbolTable::new(&[("a", "1")])).unwrap();
    assert_eq!(
        symbols,
        vec![Symbol::Replace {
            identifier: "a".to_string(),
            range: Range {
                start_pos: Position { line: 0, column: 0 },
                end_pos: Position { line: 0, column: 6 },
            },
        }]
    );
}

#[test]
fn two_dots_make_no_spread() {
    let tokens = create_tokens("${..a}".to_string(), 0).unwrap();
    let symbols = parse_tokens(&tokens, &SymbolTable::new(&[])).unwrap();
    assert_eq!(symbols.len(), 6);
    assert!(symbols.iter().all(|symbol| matches!(symbol, Symbol::Word { .. })));
}

#[test]
fn the_first_unknown_placeholder_is_reported() {
    let tokens = create_tokens("${a} ${b} ${...c}".to_string(), 5).unwrap();
    let table = SymbolTable::new(&[("a", "1")]);
    assert_eq!(
        parse_tokens(&tokens, &table),
        Err(ParseError::VariableNotFound(Range {
            start_pos: Position { line: 5, column: 5 },
            end_pos: Position { line: 5, column: 8 },
        }))
    );
}

#[test]
fn parsing_without_placeholders_does_not_need_the_table() {
    let tokens = create_tokens("let x = y.z;".to_string(), 0).unwrap();
    let with_none = parse_tokens(&tokens, &SymbolTable::new(&[])).unwrap();
    let with_some = parse_tokens(&tokens, &SymbolTable::new(&[("x", "1"), ("y", "2")])).unwrap();
    assert_eq!(with_none, with_some);
    assert_eq!(with_none.len(), tokens.len());
}

#[test]
fn parsing_looks_at_names_only() {
    let tokens = create_tokens("${x} ${...y}".to_string(), 0).unwrap();
    let one = parse_tokens(&tokens, &SymbolTable::new(&[("x", "1"), ("y", "2")]));
    let other = parse_tokens(&tokens, &SymbolTable::new(&[("y", ""), ("x", "no such file")]));
    assert!(one.is_ok());
    assert_eq!(one, other);
}

#[test]
fn parse_errors_are_described_with_their_place() {
    assert_eq!(
        ParseError::UnexpectedToken(Position { line: 12, column: 0 }).describe(),
        "12:0 : Unexpected token"
    );
    assert_eq!(ParseError::InvalidFilePath.describe(), ": Invalid file path");
    assert_eq!(ParseError::FailedToOpenFile.describe(), ": Failed to open file");
    assert_eq!(ParseError::FailedToReadLine(305).describe(), "305: Failed to read line");
    let at = Range {
        start_pos: Position { line: 0, column: 6 },
        end_pos: Position { line: 0, column: 12 },
    };
    assert_eq!(ParseError::VariableNotFound(at).describe(), "0:6:0:12 : variable not found");
    assert_eq!(ParseError::FileNotFound(at).describe(), "0:6:0:12 : file not found");
}
