use kvforge::tokenize::{is_whitespace, tokenize};

#[test]
fn splits_on_whitespace() {
    assert_eq!(tokenize("SET a 1").unwrap(), vec!["SET", "a", "1"]);
}

#[test]
fn collapses_repeated_whitespace() {
    assert_eq!(tokenize("SET   a    1").unwrap(), vec!["SET", "a", "1"]);
}

#[test]
fn empty_line_yields_no_tokens() {
    assert_eq!(tokenize("").unwrap(), Vec::<String>::new());
    assert_eq!(tokenize("   ").unwrap(), Vec::<String>::new());
}

#[test]
fn double_quotes_group_a_value_with_spaces() {
    assert_eq!(
        tokenize(r#"SET greeting "hello world""#).unwrap(),
        vec!["SET", "greeting", "hello world"]
    );
}

#[test]
fn single_quotes_group_a_value_with_spaces() {
    assert_eq!(
        tokenize("SET greeting 'hello world'").unwrap(),
        vec!["SET", "greeting", "hello world"]
    );
}

#[test]
fn quoted_value_can_be_adjacent_to_other_text() {
    assert_eq!(tokenize(r#"SET a "1"2"#).unwrap(), vec!["SET", "a", "12"]);
}

#[test]
fn unterminated_quote_is_an_error() {
    assert!(tokenize(r#"SET a "unterminated"#).is_err());
}

#[test]
fn empty_quoted_value_yields_an_empty_token() {
    assert_eq!(tokenize(r#"SET a """#).unwrap(), vec!["SET", "a", ""]);
}

#[test]
fn whitespace_is_what_unicode_says() {
    for n in 0..=0x10ffffu32 {
        if let Some(c) = char::from_u32(n) {
            assert_eq!(is_whitespace(c), c.is_whitespace(), "{n:x}");
        }
    }
}

#[test]
fn a_quote_of_the_other_kind_is_part_of_the_word() {
    assert_eq!(tokenize(r#""it's" '"'"#).unwrap(), vec!["it's", "\""]);
    assert_eq!(tokenize(r#"a'b c'"d 'e"f"#).unwrap(), vec!["ab cd 'ef"]);
}

#[test]
fn any_whitespace_separates_words() {
    assert_eq!(tokenize("\ta\u{3000}b\r\n\u{a0}c ").unwrap(), vec!["a", "b", "c"]);
    assert_eq!(tokenize("'\t' \"\u{3000}\"").unwrap(), vec!["\t", "\u{3000}"]);
}

#[test]
fn an_open_quote_is_reported() {
    for line in ["'", "a \"b c", "'a\" b", "a' 'b' c d"] {
        assert_eq!(tokenize(line), Err("unterminated quote".to_string()));
    }
}

#[test]
fn what_is_written_is_read() {
    let texts = ["", "plain", "two words", "it's", "say \"so\"", "\\n", "\u{e9}\u{3000}"];
    let mut line = String::new();
    for text in texts {
        let quote = if text.contains('"') { '\'' } else { '"' };
        line.push(quote);
        line.push_str(text);
        line.push(quote);
        line.push(' ');
    }
    assert_eq!(tokenize(&line).unwrap(), texts);
    assert_eq!(tokenize(&format!("\t \n{line}last")).unwrap().len(), texts.len() + 1);
}

#[test]
fn joined_lines_have_the_words_of_both() {
    for (line, more) in [("a 'b c'", " d"), ("", "x"), ("x\t", ""), ("'\"' y", "\"'\" z")] {
        let mut both = tokenize(line).unwrap();
        both.extend(tokenize(more).unwrap());
        assert_eq!(tokenize(&format!("{line} {more}")).unwrap(), both);
    }
    assert!(tokenize("a 'b").is_err());
    assert_eq!(tokenize("a 'b ' c").unwrap(), vec!["a", "b ", "c"]);
}
