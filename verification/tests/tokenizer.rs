//! Splitting source text into tokens and statements.
use sqlite_rs::parser::keyword::{keyword_at, Keyword, KEYWORD_COUNT};
use sqlite_rs::parser::tokenizer::{
    ends_with_semicolon, split_statements, Param, TokenKind, Tokenizer,
};

#[test]
fn split_statements_splits_on_top_level_semicolons_and_trims_whitespace() {
    let stmts = split_statements("BEGIN;  UPDATE t SET a = 99 ;ROLLBACK");
    assert_eq!(stmts, vec!["BEGIN", "UPDATE t SET a = 99", "ROLLBACK"]);
}

#[test]
fn split_statements_ignores_semicolons_inside_string_literals() {
    let stmts = split_statements("INSERT INTO t VALUES ('a;b'); SELECT 1");
    assert_eq!(
        stmts,
        vec![
            "INSERT INTO t VALUES ('a;b')".to_string(),
            "SELECT 1".to_string()
        ]
    );
}

#[test]
fn split_statements_drops_empty_and_whitespace_only_statements() {
    let stmts = split_statements("  ; BEGIN ;  ; ROLLBACK ; ");
    assert_eq!(stmts, vec!["BEGIN", "ROLLBACK"]);
}

#[test]
fn ends_with_semicolon_true_for_a_trailing_top_level_semicolon() {
    assert!(ends_with_semicolon("SELECT * FROM t;"));
    assert!(ends_with_semicolon("SELECT * FROM t ; -- trailing comment"));
}

#[test]
fn ends_with_semicolon_false_when_no_trailing_semicolon() {
    assert!(!ends_with_semicolon("SELECT * FROM t"));
    assert!(!ends_with_semicolon(""));
    assert!(!ends_with_semicolon("   "));
}

#[test]
fn ends_with_semicolon_ignores_a_semicolon_inside_a_string_literal() {
    assert!(!ends_with_semicolon("SELECT 'a;b'"));
    assert!(ends_with_semicolon("SELECT 'a;b';"));
}

fn kinds(src: &str) -> Vec<TokenKind> {
    Tokenizer::tokenize(src)
        .into_iter()
        .map(|t| t.kind)
        .collect()
}

#[test]
fn test_tokenize_select() {
    let got = kinds("SELECT a, b FROM t WHERE x > 10");
    assert_eq!(
        got,
        vec![
            TokenKind::Keyword(Keyword::SELECT),
            TokenKind::Identifier("a".to_string()),
            TokenKind::Comma,
            TokenKind::Identifier("b".to_string()),
            TokenKind::Keyword(Keyword::FROM),
            TokenKind::Identifier("t".to_string()),
            TokenKind::Keyword(Keyword::WHERE),
            TokenKind::Identifier("x".to_string()),
            TokenKind::Gt,
            TokenKind::Integer(10),
            TokenKind::Eof,
        ]
    );
}

#[test]
fn test_tokenize_string_literal_escaping() {
    let got = kinds("'hello''world'");
    assert_eq!(
        got,
        vec![TokenKind::String("hello'world".to_string()), TokenKind::Eof]
    );
}

#[test]
fn test_tokenize_blob_literal() {
    let got = kinds("X'48454C4C4F'");
    assert_eq!(
        got,
        vec![TokenKind::Blob(vec![72, 69, 76, 76, 79]), TokenKind::Eof]
    );
}

#[test]
fn test_tokenize_parameters() {
    let got = kinds("?, ?1, :name, @var, $param");
    assert_eq!(
        got,
        vec![
            TokenKind::Param(Param::Anonymous),
            TokenKind::Comma,
            TokenKind::Param(Param::Numbered(1)),
            TokenKind::Comma,
            TokenKind::Param(Param::Colon("name".to_string())),
            TokenKind::Comma,
            TokenKind::Param(Param::At("var".to_string())),
            TokenKind::Comma,
            TokenKind::Param(Param::Dollar("param".to_string())),
            TokenKind::Eof,
        ]
    );
}

#[test]
fn test_nulls_keyword() {
    assert_eq!(
        kinds("NULLS FIRST"),
        vec![
            TokenKind::Keyword(Keyword::NULLS),
            TokenKind::Keyword(Keyword::FIRST),
            TokenKind::Eof,
        ]
    );
}

#[test]
fn test_keyword_lookup_is_case_insensitive() {
    assert_eq!(kinds("select"), kinds("SELECT"));
    assert_eq!(kinds("SeLeCt"), kinds("SELECT"));
}

#[test]
fn test_quoted_bracketed_backticked_identifiers() {
    assert_eq!(
        kinds(r#""a b""c""#),
        vec![TokenKind::Identifier("a b\"c".to_string()), TokenKind::Eof]
    );
    assert_eq!(
        kinds("[my col]"),
        vec![TokenKind::Identifier("my col".to_string()), TokenKind::Eof]
    );
    assert_eq!(
        kinds("`a``b`"),
        vec![TokenKind::Identifier("a`b".to_string()), TokenKind::Eof]
    );
}

#[test]
fn test_null_true_false_are_literals_not_identifiers() {
    assert_eq!(
        kinds("NULL true FALSE"),
        vec![
            TokenKind::Null,
            TokenKind::True,
            TokenKind::False,
            TokenKind::Eof
        ]
    );
}

#[test]
fn test_float_forms() {
    assert_eq!(kinds("1e5"), vec![TokenKind::Float(1e5f64.to_bits()), TokenKind::Eof]);
    assert_eq!(kinds(".5"), vec![TokenKind::Float(0.5f64.to_bits()), TokenKind::Eof]);
    assert_eq!(kinds("1."), vec![TokenKind::Float(1.0f64.to_bits()), TokenKind::Eof]);
    assert_eq!(
        kinds("1.5e-3"),
        vec![TokenKind::Float(1.5e-3f64.to_bits()), TokenKind::Eof]
    );
}

#[test]
fn test_hex_integer() {
    assert_eq!(kinds("0x1F"), vec![TokenKind::Integer(31), TokenKind::Eof]);
}

#[test]
fn test_hex_integer_wraps_above_i64_max() {
    assert_eq!(
        kinds("0xFFFFFFFFFFFFFFFF"),
        vec![TokenKind::Integer(-1), TokenKind::Eof]
    );
}

#[test]
fn test_keywords_table_is_sorted() {
    let keywords: Vec<&str> = (0..KEYWORD_COUNT).map(|i| keyword_at(i).text()).collect();
    assert!(keywords.windows(2).all(|w| w[0] < w[1]));
}

#[test]
fn test_operators_and_punctuation() {
    assert_eq!(
        kinds("|| -> ->> <= >= <> != == <<>>"),
        vec![
            TokenKind::Concat,
            TokenKind::Arrow,
            TokenKind::ArrowArrow,
            TokenKind::Le,
            TokenKind::Ge,
            TokenKind::Ne,
            TokenKind::Ne,
            TokenKind::Eq,
            TokenKind::Shl,
            TokenKind::Shr,
            TokenKind::Eof,
        ]
    );
}

#[test]
fn test_comments_are_skipped() {
    assert_eq!(
        kinds("SELECT 1 -- trailing comment\nFROM t /* block\ncomment */ WHERE 1"),
        vec![
            TokenKind::Keyword(Keyword::SELECT),
            TokenKind::Integer(1),
            TokenKind::Keyword(Keyword::FROM),
            TokenKind::Identifier("t".to_string()),
            TokenKind::Keyword(Keyword::WHERE),
            TokenKind::Integer(1),
            TokenKind::Eof,
        ]
    );
}

#[test]
fn test_malformed_input_never_panics() {
    let inputs = [
        "'unterminated",
        "X'ABC'",
        "X'ZZ'",
        "\"unterminated",
        "`unterminated",
        "/* unterminated",
        ":",
        "@",
        "$",
        "!",
        "\u{1}",
        "?4294967296000",
    ];
    for input in inputs {
        let toks = Tokenizer::tokenize(input);
        assert!(
            toks.iter().any(|t| matches!(t.kind, TokenKind::Error(_))),
            "expected an Error token for {input:?}, got {toks:?}"
        );
    }
}

#[test]
fn test_spans_track_line_and_column() {
    let toks = Tokenizer::tokenize("SELECT 1\nFROM t");
    let select = &toks[0];
    assert_eq!(select.span.line, 1);
    assert_eq!(select.span.column, 1);
    assert_eq!(select.span.offset, 0);
    let from = &toks[2];
    assert_eq!(from.span.line, 2);
    assert_eq!(from.span.column, 1);
}

#[test]
#[allow(non_snake_case)]
fn mcdc__tokenizer_783__v1_lowercase_x() {
    assert_eq!(
        kinds("x'41'"),
        vec![TokenKind::Blob(vec![0x41]), TokenKind::Eof]
    );
}

#[test]
#[allow(non_snake_case)]
fn mcdc__tokenizer_783__v2_neither_x_nor_capital_x() {
    assert_eq!(
        kinds("y"),
        vec![TokenKind::Identifier("y".to_string()), TokenKind::Eof]
    );
}

#[test]
#[allow(non_snake_case)]
fn mcdc__tokenizer_783__v3_uppercase_x() {
    assert_eq!(
        kinds("X'41'"),
        vec![TokenKind::Blob(vec![0x41]), TokenKind::Eof]
    );
}

#[test]
#[allow(non_snake_case)]
fn mcdc__tokenizer_831__v1_odd_digit_count() {
    assert!(matches!(kinds("x'411'")[0], TokenKind::Error(_)));
}

#[test]
#[allow(non_snake_case)]
fn mcdc__tokenizer_831__v2_valid_hex() {
    assert_eq!(
        kinds("x'41'"),
        vec![TokenKind::Blob(vec![0x41]), TokenKind::Eof]
    );
}

#[test]
#[allow(non_snake_case)]
fn mcdc__tokenizer_831__v3_even_length_non_hex_digit() {
    assert!(matches!(kinds("x'4g'")[0], TokenKind::Error(_)));
}

#[test]
#[allow(non_snake_case)]
fn mcdc__tokenizer_888__v1_escaped_doubled_delimiter() {
    assert_eq!(
        kinds(r#""a""b""#),
        vec![TokenKind::Identifier("a\"b".to_string()), TokenKind::Eof]
    );
}

#[test]
#[allow(non_snake_case)]
fn mcdc__tokenizer_888__v2_bracket_identifier_does_not_escape() {
    assert_eq!(
        kinds("[abc]"),
        vec![TokenKind::Identifier("abc".to_string()), TokenKind::Eof]
    );
}

#[test]
#[allow(non_snake_case)]
fn mcdc__tokenizer_888__v3_unescaped_double_quoted() {
    assert_eq!(
        kinds("\"abc\""),
        vec![TokenKind::Identifier("abc".to_string()), TokenKind::Eof]
    );
}

#[test]
#[allow(non_snake_case)]
fn mcdc__tokenizer_947__v1_hex_prefix() {
    assert_eq!(kinds("0x1A"), vec![TokenKind::Integer(26), TokenKind::Eof]);
}

#[test]
#[allow(non_snake_case)]
fn mcdc__tokenizer_947__v2_not_leading_zero() {
    assert_eq!(kinds("123"), vec![TokenKind::Integer(123), TokenKind::Eof]);
}

#[test]
#[allow(non_snake_case)]
fn mcdc__tokenizer_947__v3_leading_zero_not_hex() {
    assert_eq!(kinds("05"), vec![TokenKind::Integer(5), TokenKind::Eof]);
}

#[test]
fn float_tokens_hold_the_nearest_double() {
    for (src, value) in [("1e5", 1e5), (".5", 0.5), ("1.", 1.0), ("1.5e-3", 1.5e-3)] {
        match &kinds(src)[0] {
            TokenKind::Float(bits) => assert_eq!(f64::from_bits(*bits), value),
            other => panic!("expected a float, got {other:?}"),
        }
    }
    assert_eq!(
        kinds("9223372036854775808")[0],
        TokenKind::Float(9223372036854775808f64.to_bits())
    );
    assert_eq!(kinds("9223372036854775807")[0], TokenKind::Integer(i64::MAX));
}

#[test]
fn every_token_list_ends_in_one_end_marker() {
    for src in ["", "  ", "SELECT", "'open", "a;b;", "-- only a comment"] {
        let got = kinds(src);
        assert_eq!(got.iter().filter(|k| **k == TokenKind::Eof).count(), 1);
        assert_eq!(got.last(), Some(&TokenKind::Eof));
    }
}

#[test]
fn letters_of_any_script_make_identifiers() {
    assert_eq!(
        kinds("größe \u{3b1}\u{3b2}1 \u{a0}x"),
        vec![
            TokenKind::Identifier("größe".to_string()),
            TokenKind::Identifier("\u{3b1}\u{3b2}1".to_string()),
            TokenKind::Identifier("x".to_string()),
            TokenKind::Eof,
        ]
    );
}

#[test]
fn errors_name_what_they_found() {
    assert_eq!(
        kinds("x'4g'")[0],
        TokenKind::Error("invalid blob literal hex digits: \"4g\"".to_string())
    );
    assert_eq!(
        kinds("#")[0],
        TokenKind::Error("unexpected character '#'".to_string())
    );
    assert_eq!(
        kinds("\"open")[0],
        TokenKind::Error("unterminated quoted identifier starting with '\"'".to_string())
    );
    assert_eq!(
        kinds("?4294967296")[0],
        TokenKind::Error("parameter number out of range: 4294967296".to_string())
    );
}

#[test]
fn keywords_are_found_by_their_names() {
    for i in 0..KEYWORD_COUNT {
        let keyword = keyword_at(i);
        let lower = keyword.text().to_lowercase();
        assert_eq!(kinds(&lower)[0], TokenKind::Keyword(keyword));
    }
}

#[test]
fn a_script_without_a_top_level_semicolon_is_one_statement() {
    assert_eq!(
        split_statements("  SELECT ';', x'3B' /* ; */ -- ;"),
        vec!["SELECT ';', x'3B' /* ; */ -- ;"]
    );
    assert!(split_statements(" \t\n").is_empty());
    assert_eq!(split_statements("-- ;"), vec!["-- ;"]);
}

#[test]
fn statements_split_again_into_themselves() {
    let script = "SELECT ';' -- a;b\n ; /* c;d */ x'3B';;\t[q;r] \u{3000};\"s;;\"\"\" + 1e;- ; 'open ; ";
    let statements = split_statements(script);
    assert_eq!(
        statements,
        [
            "SELECT ';' -- a;b",
            "/* c;d */ x'3B'",
            "[q;r]",
            "\"s;;\"\"\" + 1e",
            "-",
            "'open ;"
        ]
    );
    for statement in &statements {
        assert_eq!(split_statements(statement), [statement.as_str()]);
    }
    assert_eq!(split_statements(&statements.join("\n;\n")), statements);
}

#[test]
fn what_follows_the_last_semicolon_is_not_looked_at() {
    for sql in [
        "SELECT 1;", "SELECT 1", "", ";", ";-", "SELECT ';", "a /* ;", "-- x", "; -- x", "1e", "x'",
        ";[", "; /* c */",
    ] {
        let answer = ends_with_semicolon(sql);
        for space in ["", " ", "\n", " \t\r\n", "\u{3000}\u{a0}"] {
            assert_eq!(ends_with_semicolon(&format!("{sql}{space}")), answer, "{sql:?} {space:?}");
        }
        for comment in ["-- x", "-- ;", "-- x\n  -- y;\n"] {
            let longer = format!("{sql}\n{comment}");
            assert_eq!(ends_with_semicolon(&longer), answer, "{longer:?}");
        }
    }
    assert!(ends_with_semicolon("SELECT 1;\n/* it's ; */ -- \"x"));
    // A comment cannot stand where a text in quotes is still open.
    assert!(!ends_with_semicolon("SELECT '"));
    assert!(ends_with_semicolon("SELECT '\n-- ';"));
}

#[test]
fn spans_are_ordered_and_leave_out_only_blanks_and_comments() {
    let src = "  SELECT /* ; */ 'a b',x'00' -- end\n ;\n-- last";
    let tokens = Tokenizer::tokenize(src);
    let mut at = 0;
    let mut between = Vec::new();
    for token in &tokens {
        let begin = token.span.offset as usize;
        assert!(begin >= at);
        between.push(&src[at..begin]);
        at = begin + token.span.len as usize;
    }
    assert_eq!(at, src.len());
    assert_eq!(
        between,
        ["  ", " /* ; */ ", "", "", " -- end\n ", "\n-- last"]
    );
}
