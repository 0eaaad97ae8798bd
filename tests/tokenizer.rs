use distribution::pair::Pair;
use distribution::rank::rank_top;
use distribution::settings::{PreTallied, Settings};
use distribution::tokenizer::{
    LineTokenizer, PreTalliedTokenizer, RegexTokenizer, TokenizeError, Tokenizer,
};

fn lines(text: &str) -> Vec<String> {
    text.lines().map(String::from).collect()
}

fn ranked(mut pairs: Vec<Pair>) -> Vec<Pair> {
    let n = pairs.len();
    rank_top(&mut pairs, n);
    pairs
}

#[test]
fn key_value_tokenize_empty_reader() {
    let t = PreTalliedTokenizer::key_value_tokenizer();
    let c = lines("");
    assert_eq!(t.tokenize(&c).unwrap(), vec![]);
}

#[test]
fn key_value_tokenize_single_line() {
    let t = PreTalliedTokenizer::key_value_tokenizer();
    let c = lines("a 1\n");
    assert_eq!(t.tokenize(&c).unwrap(), vec![Pair::new(1, "a")]);
}

#[test]
fn key_value_tokenize_multiple_lines() {
    let t = PreTalliedTokenizer::key_value_tokenizer();
    let c = lines("aa 1\nab 2\nba 1");
    assert_eq!(
        t.tokenize(&c).unwrap(),
        vec![Pair::new(1, "aa"), Pair::new(2, "ab"), Pair::new(1, "ba")]
    );
}

#[test]
fn value_key_tokenize_empty_reader() {
    let t = PreTalliedTokenizer::value_key_tokenizer();
    let c = lines("");
    assert_eq!(t.tokenize(&c).unwrap(), vec![]);
}

#[test]
fn value_key_tokenize_single_line() {
    let t = PreTalliedTokenizer::value_key_tokenizer();
    let c = lines("1 a\n");
    assert_eq!(t.tokenize(&c).unwrap(), vec![Pair::new(1, "a")]);
}

#[test]
fn value_key_tokenize_multiple_lines() {
    let t = PreTalliedTokenizer::value_key_tokenizer();
    let c = lines("1 aa\n2 ab\n1 ba");
    assert_eq!(
        t.tokenize(&c).unwrap(),
        vec![Pair::new(1, "aa"), Pair::new(2, "ab"), Pair::new(1, "ba")]
    );
}

#[test]
fn line_tokenize_empty_reader() {
    let t = LineTokenizer::new(r".").unwrap();
    let c = lines("");
    assert_eq!(t.tokenize(&c), vec![]);
}

#[test]
fn line_tokenize_single_line() {
    let t = LineTokenizer::new(r".").unwrap();
    let c = lines("1 a\n");
    assert_eq!(t.tokenize(&c), vec![Pair::new(1, "1 a")]);
}

#[test]
fn line_tokenize_multiple_lines() {
    let t = LineTokenizer::new(r".").unwrap();
    let c = lines("1 aa\n2 ab\n1 ba");
    let mut actual = t.tokenize(&c);

    actual.sort_by(|a, b| b.cmp(&a));
    assert_eq!(actual, vec![Pair::new(1, "2 ab"), Pair::new(1, "1 ba"), Pair::new(1, "1 aa")]);
}

#[test]
fn regex_tokenizer() {
    let t = RegexTokenizer::new(r"/", r".+").unwrap();
    let c = lines("/var/log/apparmor\n/var/log/dmesg.1.gz");
    let mut actual = t.tokenize(&c);

    actual.sort_by(|a, b| b.cmp(&a));
    assert_eq!(
        actual,
        vec![
            Pair::new(2, "var"),
            Pair::new(2, "log"),
            Pair::new(1, "dmesg.1.gz"),
            Pair::new(1, "apparmor"),
        ]
    );
}

#[test]
fn pre_tallied_round_trip_keeps_order() {
    let t = PreTalliedTokenizer::value_key_tokenizer();
    let c = lines("3 a\n1 b\n");
    assert_eq!(t.tokenize(&c).unwrap(), vec![Pair::new(3, "a"), Pair::new(1, "b")]);
}

#[test]
fn pre_tallied_keeps_duplicates() {
    let t = PreTalliedTokenizer::value_key_tokenizer();
    let c = lines("2 a\n5 a\n");
    assert_eq!(t.tokenize(&c).unwrap(), vec![Pair::new(2, "a"), Pair::new(5, "a")]);
}

#[test]
fn pre_tallied_leading_space_and_greedy_key() {
    let t = PreTalliedTokenizer::key_value_tokenizer();
    let c = lines("  a b 12");
    assert_eq!(t.tokenize(&c).unwrap(), vec![Pair::new(12, "a b")]);
}

#[test]
fn pre_tallied_malformed_line() {
    let t = PreTalliedTokenizer::key_value_tokenizer();
    let c = lines("a 1\nnot a tally line x\nb 2");
    assert_eq!(t.tokenize(&c), Err(TokenizeError::MalformedLine(1)));
}

#[test]
fn pre_tallied_count_too_large() {
    let t = PreTalliedTokenizer::value_key_tokenizer();
    let c = lines("18446744073709551616 a");
    assert_eq!(t.tokenize(&c), Err(TokenizeError::MalformedLine(0)));
    let c = lines("18446744073709551615 a");
    assert_eq!(t.tokenize(&c).unwrap(), vec![Pair::new(u64::MAX, "a")]);
}

#[test]
fn regex_tokenizer_ranked_order() {
    let t = RegexTokenizer::new("/", ".+").unwrap();
    let c = lines("/var/log/apparmor\n/var/log/dmesg.1.gz");
    let actual = ranked(t.tokenize(&c));
    assert_eq!(
        actual,
        vec![
            Pair::new(2, "var"),
            Pair::new(2, "log"),
            Pair::new(1, "dmesg.1.gz"),
            Pair::new(1, "apparmor"),
        ]
    );
}

#[test]
fn regex_tokenizer_white_and_word() {
    let t = RegexTokenizer::new("white", "word").unwrap();
    let c = lines("the cat 42 the\n  dog the  ");
    let actual = ranked(t.tokenize(&c));
    assert_eq!(actual, vec![Pair::new(3, "the"), Pair::new(1, "dog"), Pair::new(1, "cat")]);
}

#[test]
fn regex_tokenizer_num_matcher() {
    let t = RegexTokenizer::new("word", "num").unwrap();
    let c = lines("a:1,b:22;1");
    let actual = ranked(t.tokenize(&c));
    assert_eq!(actual, vec![Pair::new(2, "1"), Pair::new(1, "22")]);
}

#[test]
fn regex_tokenizer_trims_line_end() {
    let t = RegexTokenizer::new("x", ".").unwrap();
    let c = lines("ab   \nab");
    assert_eq!(t.tokenize(&c), vec![Pair::new(2, "ab")]);
}

#[test]
fn line_tokenizer_counts_only_matching_lines() {
    let t = LineTokenizer::new("^a").unwrap();
    let c = lines("ab\nba\nab\nac\n");
    let actual = ranked(t.tokenize(&c));
    assert_eq!(actual, vec![Pair::new(2, "ab"), Pair::new(1, "ac")]);
    let total: u64 = actual.iter().map(|p| p.value()).sum();
    assert!(total <= 4);
}

#[test]
fn line_tokenizer_total_equals_lines_when_all_match() {
    let t = LineTokenizer::new(".").unwrap();
    let c = lines("x\ny\nx\nz\nx");
    let total: u64 = t.tokenize(&c).iter().map(|p| p.value()).sum();
    assert_eq!(total, 5);
}

#[test]
fn invalid_pattern_is_an_error() {
    assert!(matches!(LineTokenizer::new("("), Err(TokenizeError::InvalidPattern)));
    assert!(matches!(RegexTokenizer::new("(", "."), Err(TokenizeError::InvalidPattern)));
    assert!(matches!(RegexTokenizer::new("/", "["), Err(TokenizeError::InvalidPattern)));
}

#[test]
fn empty_input_gives_no_pairs() {
    let c: Vec<String> = Vec::new();
    assert!(LineTokenizer::new(".").unwrap().tokenize(&c).is_empty());
    assert!(RegexTokenizer::new("white", ".").unwrap().tokenize(&c).is_empty());
    assert!(PreTalliedTokenizer::key_value_tokenizer().tokenize(&c).unwrap().is_empty());
}

fn settings(opts: &[&str]) -> Settings {
    let mut args = vec!["test".to_string(), "--rcfile=/dev/null".to_string()];
    for o in opts {
        args.push(o.to_string());
    }
    Settings::new(&args, &Vec::new()).unwrap()
}

#[test]
fn tokenizer_from_settings() {
    let c = lines("2 b\n1 a");
    let t = Tokenizer::from_settings(&settings(&["--graph"])).unwrap();
    assert_eq!(t.tokenize(&c).unwrap(), vec![Pair::new(2, "b"), Pair::new(1, "a")]);

    let c = lines("b 2\na 1");
    let t = Tokenizer::from_settings(&settings(&["--graph=kv"])).unwrap();
    assert_eq!(t.tokenize(&c).unwrap(), vec![Pair::new(2, "b"), Pair::new(1, "a")]);

    let c = lines("a-b\na");
    let t = Tokenizer::from_settings(&settings(&["-t=-"])).unwrap();
    assert_eq!(ranked(t.tokenize(&c).unwrap()), vec![Pair::new(2, "a"), Pair::new(1, "b")]);

    let t = Tokenizer::from_settings(&settings(&[])).unwrap();
    assert_eq!(ranked(t.tokenize(&c).unwrap()), vec![Pair::new(1, "a-b"), Pair::new(1, "a")]);
    assert_eq!(settings(&[]).graph_values(), &PreTallied::NA);
}

#[test]
fn regex_tokenizer_total_counts_kept_tokens() {
    // "/var/log/apparmor" splits into "", "var", "log", "apparmor": the
    // empty pieces fail ".+" and are not counted
    let t = RegexTokenizer::new("/", ".+").unwrap();
    let c = lines("/var/log/apparmor\n/var/log/dmesg.1.gz");
    let total: u64 = t.tokenize(&c).iter().map(|p| p.value()).sum();
    assert_eq!(total, 6);
    let t = RegexTokenizer::new("/", ".*").unwrap();
    let total: u64 = t.tokenize(&c).iter().map(|p| p.value()).sum();
    assert_eq!(total, 8);
}

#[test]
fn word_matcher_keeps_only_alphabetic_tokens() {
    let t = RegexTokenizer::new("white", "word").unwrap();
    let c = lines("ab a,b c1\n");
    assert_eq!(t.tokenize(&c), vec![Pair::new(1, "ab")]);
}

#[test]
fn line_tokenizer_from_settings_uses_match_pattern() {
    let t = Tokenizer::from_settings(&settings(&["-m=^a"])).unwrap();
    let c = lines("ab\nba\nab");
    assert_eq!(t.tokenize(&c).unwrap(), vec![Pair::new(2, "ab")]);
}
