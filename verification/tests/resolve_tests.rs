use safa_shell::lexer::Token;
use safa_shell::resolve::{str_eq, Env};

#[test]
fn unset_variable_resolves_to_empty_string() {
    let env = Env::new();
    let t = Token::Var("UNDEFINED_VAR");
    assert_eq!(t.as_str(&env), "");
}

#[test]
fn set_variable_resolves_to_its_exact_value() {
    let mut env = Env::new();
    env.set("HOME".to_string(), "/home/user".to_string());
    let t = Token::Var("HOME");
    assert_eq!(t.as_str(&env), "/home/user");
}

#[test]
fn later_binding_wins() {
    let mut env = Env::new();
    env.set("X".to_string(), "one".to_string());
    env.set("X".to_string(), "two".to_string());
    let t = Token::Var("X");
    assert_eq!(t.as_str(&env), "two");
}

#[test]
fn words_and_strings_resolve_to_their_literal_text() {
    let mut env = Env::new();
    env.set("echo".to_string(), "not used".to_string());
    assert_eq!(Token::Word("echo").as_str(&env), "echo");
    assert_eq!(Token::Str("a $b c").as_str(&env), "a $b c");
}

#[test]
fn env_get_distinguishes_names() {
    let mut env = Env::new();
    env.set("AB".to_string(), "1".to_string());
    assert!(env.get("AB").is_some());
    assert!(env.get("A").is_none());
    assert!(env.get("ABC").is_none());
    assert!(env.get("").is_none());
}

#[test]
fn str_eq_compares_contents() {
    assert!(str_eq("", ""));
    assert!(str_eq("abc", "abc"));
    assert!(!str_eq("abc", "abd"));
    assert!(!str_eq("abc", "ab"));
    assert!(str_eq("héllo", "héllo"));
    assert!(!str_eq("héllo", "hello"));
}
