use utilization_profile::tokens::tokenize;

fn tokens(name: &str) -> Vec<String> {
    tokenize(name).as_slice().iter().map(|token| token.to_string()).collect()
}

fn std_split(name: &str) -> Vec<String> {
    name.split(&['-', '/']).map(|token| token.to_string()).collect()
}

#[test]
fn splits_at_hyphens() {
    assert_eq!(tokens("test-tp6m-essential-fenix"), vec!["test", "tp6m", "essential", "fenix"]);
}

#[test]
fn splits_at_slashes() {
    assert_eq!(tokens("perftest/linux/opt"), vec!["perftest", "linux", "opt"]);
}

#[test]
fn hyphen_and_slash_are_the_same_separator() {
    assert_eq!(tokens("test-speedometer3/opt"), vec!["test", "speedometer3", "opt"]);
    assert_eq!(tokens("a/b-c"), tokens("a-b/c"));
}

#[test]
fn a_name_without_separator_is_one_token() {
    assert_eq!(tokens("benchmark"), vec!["benchmark"]);
}

#[test]
fn the_empty_name_is_one_empty_token() {
    assert_eq!(tokens(""), vec![""]);
}

#[test]
fn neighbouring_separators_give_empty_tokens() {
    assert_eq!(tokens("a--b"), vec!["a", "", "b"]);
    assert_eq!(tokens("a-/b"), vec!["a", "", "b"]);
    assert_eq!(tokens("a///b"), vec!["a", "", "", "b"]);
}

#[test]
fn separators_at_the_ends_give_empty_tokens() {
    assert_eq!(tokens("-a"), vec!["", "a"]);
    assert_eq!(tokens("a/"), vec!["a", ""]);
    assert_eq!(tokens("-"), vec!["", ""]);
    assert_eq!(tokens("/-"), vec!["", "", ""]);
}

#[test]
fn tokens_are_not_trimmed() {
    assert_eq!(tokens(" a - b "), vec![" a ", " b "]);
}

#[test]
fn other_punctuation_does_not_separate() {
    assert_eq!(tokens("tp6m_fenix.opt e10s"), vec!["tp6m_fenix.opt e10s"]);
}

#[test]
fn characters_of_several_bytes_are_kept_whole() {
    assert_eq!(tokens("\u{e9}t\u{e9}-\u{65e5}\u{672c}/\u{1f980}"), vec![
        "\u{e9}t\u{e9}",
        "\u{65e5}\u{672c}",
        "\u{1f980}"
    ]);
    assert_eq!(tokens("\u{2013}"), vec!["\u{2013}"]);
}

#[test]
fn names_of_more_tokens_than_fit_inline() {
    let name = "a-b-c-d-e-f-g-h-i-j-k-l-m-n";
    let found = tokens(name);
    assert_eq!(found.len(), 14);
    assert_eq!(found, vec!["a", "b", "c", "d", "e", "f", "g", "h", "i", "j", "k", "l", "m", "n"]);
}

#[test]
fn one_more_token_than_separators() {
    for name in ["", "-", "a-b", "a//b-", "no separator here", "-/-/-"] {
        let separators = name.chars().filter(|c| *c == '-' || *c == '/').count();
        assert_eq!(tokens(name).len(), separators + 1);
    }
}

#[test]
fn no_token_holds_a_separator() {
    for name in ["test-tp6m/essential-fenix", "--", "/a-", "a"] {
        for token in tokens(name) {
            assert!(!token.contains('-'));
            assert!(!token.contains('/'));
        }
    }
}

#[test]
fn agrees_with_the_standard_split() {
    for name in [
        "",
        "-",
        "a",
        "a-b",
        "a/b",
        "test-tp6m-essential-fenix",
        "source-test-mozlint-py-flake8",
        "browsertime//tp6m--chrome-",
        "\u{e9}-\u{fc}/\u{65e5}",
    ] {
        assert_eq!(tokens(name), std_split(name));
    }
}

#[test]
fn tokens_borrow_from_the_name() {
    let name = String::from("left-right");
    let buffer = tokenize(&name);
    let found = buffer.as_slice();
    assert_eq!(found.len(), 2);
    assert_eq!(found[0].as_ptr(), name.as_ptr());
    assert_eq!(found[1], &name[5..]);
}
