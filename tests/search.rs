use minigrep::{
    is_substring, lowercase, search, search_case_insensitive, search_with, split_lines, Config,
    ConfigError,
};

#[test]
fn one_result() {
    let query = "duct";
    let contents = "\
Rust:
safe, fast, productive.
Pick three.";

    assert_eq!(vec!["safe, fast, productive."], search(query, contents));
}

#[test]
fn case_insensitive() {
    let query = "rUsT";
    let contents = "\
Rust:
safe, fast, productive.
Pick three.
Trust me.";

    assert_eq!(vec!["Rust:", "Trust me."], search_case_insensitive(query, contents));
}

#[test]
fn absent_query_finds_nothing() {
    let contents = "Rust:\nsafe, fast, productive.\nPick three.";
    assert!(search("xyz", contents).is_empty());
    assert!(search_case_insensitive("xyz", contents).is_empty());
}

#[test]
fn exact_search_respects_case() {
    let contents = "Rust:\nsafe, fast, productive.\nPick three.\nTrust me.";
    assert_eq!(vec!["Trust me."], search("rust", contents));
    assert!(search("rUsT", contents).is_empty());
}

#[test]
fn line_with_repeated_query_appears_once() {
    assert_eq!(vec!["abab", "ab"], search("ab", "abab\ncd\nab"));
}

#[test]
fn equal_lines_are_all_kept() {
    assert_eq!(vec!["x", "x"], search("x", "x\ny\nx"));
}

#[test]
fn empty_query_returns_every_line() {
    let contents = "one\n\ntwo";
    assert_eq!(vec!["one", "", "two"], search("", contents));
    assert_eq!(vec!["one", "", "two"], search_case_insensitive("", contents));
}

#[test]
fn empty_body_returns_nothing() {
    assert!(search("a", "").is_empty());
    assert!(search("", "").is_empty());
    assert!(search_case_insensitive("", "").is_empty());
}

#[test]
fn repeated_calls_agree() {
    let contents = "Rust:\nsafe, fast, productive.\nPick three.\nTrust me.";
    assert_eq!(search("t", contents), search("t", contents));
    assert_eq!(
        search_case_insensitive("RU", contents),
        search_case_insensitive("RU", contents)
    );
}

#[test]
fn case_insensitive_contains_exact_matches() {
    let contents = "Rust:\nsafe, fast, productive.\nPick three.\nTrust me.";
    let exact = search("st", contents);
    let folded = search_case_insensitive("st", contents);
    assert_eq!(vec!["Rust:", "safe, fast, productive.", "Trust me."], exact);
    for line in exact {
        assert!(folded.contains(&line));
    }
}

#[test]
fn case_insensitive_keeps_original_text() {
    let found = search_case_insensitive("hello", "HeLLo World\nbye");
    assert_eq!(vec!["HeLLo World"], found);
}

#[test]
fn lines_split_on_newlines_and_crlf() {
    assert_eq!(vec!["a", "b", "c"], split_lines("a\r\nb\nc"));
    assert_eq!(vec!["a", ""], split_lines("a\n\n"));
    assert_eq!(vec![""], split_lines("\n"));
    assert_eq!(vec!["a\r"], split_lines("a\r"));
    assert!(split_lines("").is_empty());
}

#[test]
fn search_ignores_carriage_returns_at_line_ends() {
    assert_eq!(vec!["one"], search("one", "one\r\ntwo\r\n"));
}

#[test]
fn substring_test_on_characters() {
    let hay: Vec<char> = "productive".chars().collect();
    let duct: Vec<char> = "duct".chars().collect();
    let dust: Vec<char> = "dust".chars().collect();
    let longer: Vec<char> = "productives".chars().collect();
    assert!(is_substring(&hay, &duct));
    assert!(!is_substring(&hay, &dust));
    assert!(!is_substring(&hay, &longer));
    assert!(is_substring(&hay, &[]));
    assert!(is_substring(&[], &[]));
    assert!(!is_substring(&[], &['a']));
}

#[test]
fn lowercase_maps_each_character() {
    assert_eq!(vec!['r', 'u', 's', 't', '!'], lowercase("rUsT!"));
    assert_eq!(vec!['\u{e9}', 't', '\u{e9}'], lowercase("\u{c9}T\u{c9}"));
    assert!(lowercase("").is_empty());
}

#[test]
fn build_without_parameters_fails_on_query() {
    assert!(matches!(Config::build(vec![], false), Err(ConfigError::MissingQuery)));
}

#[test]
fn build_with_one_parameter_fails_on_path() {
    let r = Config::build(vec!["needle".to_string()], true);
    assert!(matches!(r, Err(ConfigError::MissingPath)));
}

#[test]
fn build_takes_query_and_path_and_ignores_the_rest() {
    let params = vec!["needle".to_string(), "hay.txt".to_string(), "extra".to_string()];
    let config = Config::build(params, false).unwrap();
    assert_eq!("needle", config.query);
    assert_eq!("hay.txt", config.path);
    assert!(!config.case_insensitive);
}

#[test]
fn build_records_case_toggle() {
    let params = vec!["".to_string(), "hay.txt".to_string()];
    let config = Config::build(params, true).unwrap();
    assert_eq!("", config.query);
    assert!(config.case_insensitive);
}

#[test]
fn search_with_follows_configuration() {
    let contents = "Rust:\nsafe, fast, productive.\nPick three.\nTrust me.";
    let params = vec!["rUsT".to_string(), "poem.txt".to_string()];
    let folded = Config::build(params.clone(), true).unwrap();
    let exact = Config::build(params, false).unwrap();
    assert_eq!(vec!["Rust:", "Trust me."], search_with(&folded, contents));
    assert!(search_with(&exact, contents).is_empty());
}
