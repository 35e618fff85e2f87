use safa_shell::lexer::{tokenize, Lexer, Token};

fn kinds_and_contents(input: &str) -> Vec<(&'static str, String)> {
    tokenize(input)
        .iter()
        .map(|t| match t {
            Token::Word(s) => ("word", s.to_string()),
            Token::Str(s) => ("str", s.to_string()),
            Token::Var(s) => ("var", s.to_string()),
        })
        .collect()
}

#[test]
fn whitespace_only_yields_no_tokens() {
    assert!(tokenize("").is_empty());
    assert!(tokenize("   ").is_empty());
    assert!(tokenize(" \t \n  \r ").is_empty());
}

#[test]
fn lexer_next_stays_exhausted() {
    let mut lx = Lexer::new("  \t ");
    assert!(lx.next().is_none());
    assert!(lx.next().is_none());
}

#[test]
fn word_and_quoted_string() {
    let toks = kinds_and_contents("echo \"hello world\"");
    assert_eq!(
        toks,
        vec![
            ("word", "echo".to_string()),
            ("str", "hello world".to_string()),
        ]
    );
}

#[test]
fn single_quotes_close_at_first_match() {
    // Each quote closes at the next matching quote: `'it'` then `'s'`.
    // The two string tokens stay adjacent and separate, never merged.
    let toks = kinds_and_contents("echo 'it''s'");
    assert_eq!(
        toks,
        vec![
            ("word", "echo".to_string()),
            ("str", "it".to_string()),
            ("str", "s".to_string()),
        ]
    );
}

#[test]
fn empty_quoted_string_stands_alone() {
    let toks = kinds_and_contents("echo '' s");
    assert_eq!(
        toks,
        vec![
            ("word", "echo".to_string()),
            ("str", "".to_string()),
            ("word", "s".to_string()),
        ]
    );
}

#[test]
fn adjacent_tokens_are_never_merged() {
    let toks = kinds_and_contents("'ab'cd");
    assert_eq!(
        toks,
        vec![("str", "ab".to_string()), ("word", "cd".to_string())]
    );
}

#[test]
fn unterminated_quote_runs_to_end_of_input() {
    let toks = kinds_and_contents("echo \"abc");
    assert_eq!(
        toks,
        vec![("word", "echo".to_string()), ("str", "abc".to_string())]
    );
}

#[test]
fn bare_sigil_has_empty_name() {
    let toks = kinds_and_contents("$");
    assert_eq!(toks, vec![("var", "".to_string())]);
}

#[test]
fn variable_token_runs_to_whitespace() {
    let toks = kinds_and_contents("echo $HOME tail");
    assert_eq!(
        toks,
        vec![
            ("word", "echo".to_string()),
            ("var", "HOME".to_string()),
            ("word", "tail".to_string()),
        ]
    );
}

#[test]
fn quotes_inside_words_stay_in_the_word() {
    let toks = kinds_and_contents("a\"b");
    assert_eq!(toks, vec![("word", "a\"b".to_string())]);
}

#[test]
fn double_quotes_keep_single_quotes_verbatim() {
    let toks = kinds_and_contents("\"it's\"");
    assert_eq!(toks, vec![("str", "it's".to_string())]);
}
