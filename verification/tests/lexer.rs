use turso_mysql::parser::lexer::Lexer;
use turso_mysql::parser::token::Token;

fn first_string(sql: &str) -> String {
    let tokens = Lexer::new(sql.as_bytes()).tokenize().unwrap();
    tokens
        .into_iter()
        .find_map(|(t, _)| match t {
            Token::Str(s) | Token::QuotedIdent(s) => Some(s),
            _ => None,
        })
        .expect("a string token")
}

#[test]
fn lexes_system_variable() {
    // `@@name` becomes a `SystemVar` token holding the bare name.
    assert_eq!(
        tokens("@@max_allowed_packet"),
        vec![Token::SystemVar("max_allowed_packet".to_string())]
    );
    // The `session.` / `global.` / `local.` scope prefix is stripped.
    assert_eq!(
        tokens("@@global.autocommit"),
        vec![Token::SystemVar("autocommit".to_string())]
    );
    assert_eq!(
        tokens("@@SESSION.sql_mode"),
        vec![Token::SystemVar("sql_mode".to_string())]
    );
    // It composes with operators: `@@x > 0`.
    assert_eq!(
        tokens("@@version_compile_os>0"),
        vec![
            Token::SystemVar("version_compile_os".to_string()),
            Token::Gt,
            Token::Num("0".to_string()),
        ]
    );
    // A single `@` (a user variable) is not a system variable.
    assert_eq!(tokens("@x"), vec![Token::Other('@'), Token::Word("x".to_string())]);
}

#[test]
fn multibyte_string_literals_survive() {
    // UTF-8 multi-byte characters are preserved, not split into bytes.
    assert_eq!(first_string("SELECT 'café'"), "café");
    assert_eq!(first_string("SELECT 'naïve résumé'"), "naïve résumé");
    // Backtick-quoted identifiers too.
    assert_eq!(first_string("SELECT `tëst`"), "tëst");
    // Escapes and doubled quotes still work.
    assert_eq!(first_string(r"SELECT 'a\tb'"), "a\tb");
    assert_eq!(first_string("SELECT 'it''s'"), "it's");
}

#[test]
fn double_quoted_token_is_a_string_not_an_identifier() {
    // In MySQL's default mode `"..."` is a string literal (Str), while a
    // backtick token stays an identifier (QuotedIdent).
    assert_eq!(tokens(r#""hi""#), vec![Token::Str("hi".into())]);
    assert_eq!(tokens("`hi`"), vec![Token::QuotedIdent("hi".into())]);
    // The delimiter is escaped by doubling (`""`) or a backslash (`\"`).
    assert_eq!(first_string(r#"SELECT "a""b""#), "a\"b");
    assert_eq!(first_string(r#"SELECT "a\"b""#), "a\"b");
    // Backslash escapes and embedded single quotes behave as in a
    // single-quoted string.
    assert_eq!(first_string(r#"SELECT "a\tb""#), "a\tb");
    assert_eq!(first_string(r#"SELECT "it's""#), "it's");
}

fn tokens(sql: &str) -> Vec<Token> {
    Lexer::new(sql.as_bytes())
        .tokenize()
        .unwrap()
        .into_iter()
        .map(|(t, _)| t)
        .collect()
}

#[test]
fn json_arrow_operators_lex() {
    // `->>` and `->` are distinct tokens; a bare `-` and `- -` are unaffected.
    assert_eq!(tokens("a ->> b"), vec![word("a"), Token::ArrowDouble, word("b")]);
    assert_eq!(tokens("a -> b"), vec![word("a"), Token::Arrow, word("b")]);
    assert_eq!(tokens("a - b"), vec![word("a"), Token::Minus, word("b")]);
    assert_eq!(
        tokens("5 - -2"),
        vec![Token::Num("5".into()), Token::Minus, Token::Minus, Token::Num("2".into())]
    );
}

fn word(w: &str) -> Token {
    Token::Word(w.to_string())
}

#[test]
fn version_gated_executable_comments_run_their_contents() {
    // `/*! ... */` and `/*!##### ... */` (a gate at most the reported 8.0)
    // lex their contents as SQL; the opener, version, and closing `*/` are
    // skipped, so a wholly wrapped statement is not empty.
    assert_eq!(tokens("/*!40100 SELECT 7 */"), vec![word("SELECT"), Token::Num("7".into())]);
    assert_eq!(tokens("/*! SELECT 7 */"), vec![word("SELECT"), Token::Num("7".into())]);
    // Mid-statement contents splice into the surrounding tokens (`1 + 2`).
    assert_eq!(
        tokens("1 /*!40101 + 2 */"),
        vec![Token::Num("1".into()), Token::Plus, Token::Num("2".into())]
    );
    // A gate above the reported server version is discarded like a comment.
    assert_eq!(tokens("1 /*!99999 + 2 */"), vec![Token::Num("1".into())]);
    // A plain `/* ... */` comment is still discarded entirely.
    assert_eq!(tokens("1 /* + 2 */"), vec![Token::Num("1".into())]);
    // The markers are lexical, so an identical sequence inside a string
    // literal is left untouched.
    assert_eq!(first_string("SELECT '/*!40101 x */'"), "/*!40101 x */");
}

#[test]
fn unquoted_identifiers_admit_multibyte_characters() {
    // A multibyte UTF-8 character is consumed whole as one identifier word,
    // matching MySQL's Unicode unquoted identifiers.
    assert_eq!(tokens("café"), vec![word("café")]);
    assert_eq!(tokens("naïve"), vec![word("naïve")]);
    assert_eq!(tokens("Ω"), vec![word("Ω")]);
    assert_eq!(tokens("текст"), vec![word("текст")]);
    // An identifier may mix ASCII and multibyte characters, and stops at a
    // separator just like an ASCII one.
    assert_eq!(
        tokens("SELECT café AS x"),
        vec![word("SELECT"), word("café"), word("AS"), word("x")]
    );
    // A `.` still separates a qualified name (it is not an identifier byte).
    assert_eq!(
        tokens("tÄble.cölumn"),
        vec![word("tÄble"), Token::Dot, word("cölumn")]
    );
}

#[test]
fn hex_literals_lex_to_blob() {
    // `0x..` and `X'..'` / `x'..'` are hex (blob) literals, not `0` + `x..`.
    assert_eq!(tokens("0x41"), vec![Token::Blob("41".into())]);
    assert_eq!(tokens("0X4142"), vec![Token::Blob("4142".into())]);
    assert_eq!(tokens("X'41'"), vec![Token::Blob("41".into())]);
    assert_eq!(tokens("x'4142'"), vec![Token::Blob("4142".into())]);
    // An odd number of `0x` digits is left-padded to even (as MySQL does).
    assert_eq!(tokens("0xABC"), vec![Token::Blob("0ABC".into())]);
    // `0x` with no hex digit is a plain `0` followed by an identifier.
    assert_eq!(tokens("0xZ"), vec![Token::Num("0".into()), word("xZ")]);
    // A space breaks the `x'..'` form into an identifier and a string.
    assert_eq!(tokens("x '41'"), vec![word("x"), Token::Str("41".into())]);
    // An odd-length `X'..'` is rejected.
    assert!(Lexer::new(b"X'4'").tokenize().is_err());
}

#[test]
fn bit_literals_lex_to_byte_blob() {
    // `0b..` and `b'..'` / `B'..'` are bit-value literals, lexed to the blob
    // of their byte representation (left-padded to whole bytes like MySQL).
    assert_eq!(tokens("0b101"), vec![Token::Blob("05".into())]);
    assert_eq!(tokens("b'1111'"), vec![Token::Blob("0F".into())]);
    assert_eq!(tokens("B'1000001'"), vec![Token::Blob("41".into())]); // 'A'
    // Nine bits span two bytes.
    assert_eq!(tokens("0b101000001"), vec![Token::Blob("0141".into())]);
    // An empty `b''` is a valid empty blob.
    assert_eq!(tokens("b''"), vec![Token::Blob(String::new())]);
    // `0b` with no binary digit is a plain `0` followed by an identifier, and
    // a `b` not adjacent to a quote stays an identifier.
    assert_eq!(tokens("0b2"), vec![Token::Num("0".into()), word("b2")]);
    assert_eq!(tokens("b '101'"), vec![word("b"), Token::Str("101".into())]);
    assert_eq!(tokens("bar"), vec![word("bar")]);
    // A non-binary digit inside `b'..'` breaks the literal (unterminated).
    assert!(Lexer::new(b"b'102'").tokenize().is_err());
}

#[test]
fn leading_dot_float_literal() {
    // `.5` is one numeric literal.
    assert_eq!(
        tokens("SELECT .5"),
        vec![Token::Word("SELECT".into()), Token::Num(".5".into())]
    );
    // The dot in a qualified name is still a Dot token.
    assert_eq!(
        tokens("a.b"),
        vec![Token::Word("a".into()), Token::Dot, Token::Word("b".into())]
    );
    // `tbl.*` keeps the dot too.
    assert_eq!(
        tokens("t.*"),
        vec![Token::Word("t".into()), Token::Dot, Token::Star]
    );
}

#[test]
fn mysql_backslash_escapes() {
    // `\%` and `\_` keep the backslash; other C escapes apply.
    assert_eq!(first_string(r"SELECT '\%'"), r"\%");
    assert_eq!(first_string(r"SELECT '\_'"), r"\_");
    assert_eq!(first_string(r"SELECT '\b'"), "\u{0008}"); // backspace
    assert_eq!(first_string(r"SELECT '\Z'"), "\u{001A}"); // ctrl-Z
    assert_eq!(first_string(r"SELECT '\0'"), "\0");
    // An unknown escape drops the backslash.
    assert_eq!(first_string(r"SELECT 'a\xb'"), "axb");
}

#[test]
fn two_dashes_need_white_space_to_open_a_comment() {
    let five = || Token::Num("5".into());
    let two = || Token::Num("2".into());
    assert_eq!(
        Lexer::new(b"5--2").tokenize().unwrap(),
        vec![(five(), 0), (Token::Minus, 1), (Token::Minus, 2), (two(), 3)]
    );
    assert_eq!(tokens("5 -- 2"), vec![five()]);
    assert_eq!(tokens("5--\t2\n2"), vec![five(), two()]);
    assert_eq!(tokens("5--\n2"), vec![five(), two()]);
    assert_eq!(tokens("5--"), vec![five()]);
    assert_eq!(
        tokens("5--->2"),
        vec![five(), Token::Minus, Token::Minus, Token::Arrow, two()]
    );
}

#[test]
fn a_version_of_any_length_is_compared() {
    assert_eq!(tokens("1 /*!9999999999 + 2 */"), vec![Token::Num("1".into())]);
    assert_eq!(tokens("1 /*!99999999999999999999999 + 2 */"), vec![Token::Num("1".into())]);
    assert_eq!(
        tokens("/*!00000000000000000000000080000 7 */"),
        vec![Token::Num("7".into())]
    );
    assert_eq!(tokens("/*!80001 7 */"), Vec::<Token>::new());
}
