use vantage::state::{expand_word, Environment};

fn env_with(home: Option<&str>, vars: &[(&str, &str)]) -> Environment {
    Environment::new(
        home.map(|h| h.to_string()),
        vars.iter().map(|(k, v)| (k.to_string(), v.to_string())).collect(),
    )
}

#[test]
fn test_expand_word_no_expansion() {
    assert_eq!(expand_word("hello", &env_with(Some("/home/u"), &[])), "hello");
}

#[test]
fn test_expand_word_tilde() {
    let home = "/home/u";
    let env = env_with(Some(home), &[("HOME", home)]);
    assert_eq!(expand_word("~/test", &env), format!("{}/test", home));
}

#[test]
fn test_expand_word_env_var() {
    let env = env_with(None, &[("TEST_VAR", "value")]);
    assert_eq!(expand_word("$TEST_VAR", &env), "value");
    assert_eq!(expand_word("${TEST_VAR}", &env), "value");
    assert_eq!(expand_word("prefix_$TEST_VAR", &env), "prefix_value");
}

#[test]
fn test_expand_word_mixed() {
    let home = "/home/u";
    let env = env_with(Some(home), &[("FOO", "bar"), ("HOME", home)]);
    assert_eq!(expand_word("~/$FOO", &env), format!("{}/bar", home));
}

#[test]
fn test_expand_word_empty_var() {
    assert_eq!(expand_word("$NON_EXISTENT_VAR", &env_with(None, &[])), "");
}

#[test]
fn expand_lone_dollar_stays() {
    let env = env_with(None, &[]);
    assert_eq!(expand_word("$", &env), "$");
    assert_eq!(expand_word("a$-b", &env), "a$-b");
    assert_eq!(expand_word("${}", &env), "$");
}

#[test]
fn expand_unclosed_brace_takes_the_rest() {
    let env = env_with(None, &[("AB", "x")]);
    assert_eq!(expand_word("${AB", &env), "x");
    assert_eq!(expand_word("${A}B", &env), "B");
}

#[test]
fn expand_bare_name_stops_at_non_name_char() {
    let env = env_with(None, &[("A", "1"), ("AB", "2")]);
    assert_eq!(expand_word("$A.$AB/x", &env), "1.2/x");
    assert_eq!(expand_word("$A$A", &env), "11");
}

#[test]
fn expand_unicode_letters_belong_to_names() {
    let env = env_with(None, &[("é", "accent"), ("X", "plain")]);
    assert_eq!(expand_word("$é!", &env), "accent!");
    assert_eq!(expand_word("$Xé", &env), "");
}

#[test]
fn expand_tilde_without_home_is_kept() {
    assert_eq!(expand_word("~/x", &env_with(None, &[])), "~/x");
}

#[test]
fn expand_tilde_only_at_start() {
    let env = env_with(Some("/h"), &[]);
    assert_eq!(expand_word("a~b", &env), "a~b");
    assert_eq!(expand_word("~user", &env), "/huser");
    assert_eq!(expand_word("~", &env), "/h");
}

#[test]
fn expand_variables_inside_home() {
    let env = env_with(Some("/h/$V"), &[("V", "v")]);
    assert_eq!(expand_word("~/x", &env), "/h/v/x");
}

#[test]
fn expand_first_binding_wins() {
    let env = env_with(None, &[("K", "first"), ("K", "second")]);
    assert_eq!(expand_word("$K", &env), "first");
}

#[test]
fn capture_keeps_the_given_variables() {
    let env = Environment::capture(vec![("K".to_string(), "v".to_string())]);
    assert_eq!(env.vars, vec![("K".to_string(), "v".to_string())]);
    assert_eq!(expand_word("$K", &env), "v");
}

#[test]
fn environment_get_finds_a_variable() {
    let env = env_with(None, &[("A", "1")]);
    assert_eq!(env.get(&"A".to_string()), Some(&"1".to_string()));
    assert_eq!(env.get(&"B".to_string()), None);
}
