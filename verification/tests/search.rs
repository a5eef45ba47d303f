use minigrep_pack::search;
use minigrep_pack::search_case_insensitive;

#[test]
fn one_result() {
    let query = "duct";
    let contents = "\
            Rust:
            safe, fast, production
            Forget Guy";

    assert_eq!(vec!["safe, fast, production"], search(query, contents))
}

#[test]
fn case_insensitive_search_finds_matches() {
    let query = "rUsT";
    let contents = "\
            Rust:
            safe, fast, production
            Forget Guy";
    assert_eq!(vec!["Rust:"], search_case_insensitive(query, contents));
}

#[test]
fn search_finds_the_one_line_that_holds_the_query() {
    let contents = "Rust:\nsafe, fast, production\nForget Guy";
    assert_eq!(search("duct", contents), vec!["safe, fast, production"]);
}

#[test]
fn mixed_case_query_finds_the_line_without_regard_to_case() {
    let contents = "Rust:\nsafe, fast, production\nForget Guy";
    assert_eq!(search_case_insensitive("rUsT", contents), vec!["Rust:"]);
}

#[test]
fn case_sensitive_search_tells_case_apart() {
    let contents = "Rust:\nsafe, fast, production\nForget Guy";
    assert!(search("rUsT", contents).is_empty());
    assert!(search("rust", contents).is_empty());
    assert_eq!(search("Rust", contents), vec!["Rust:"]);
}

#[test]
fn empty_query_returns_every_line_trimmed() {
    let contents = "  one \n\ttwo\r\n\nthree  ";
    assert_eq!(search("", contents), vec!["one", "two", "", "three"]);
    assert_eq!(search_case_insensitive("", contents), vec!["one", "two", "", "three"]);
}

#[test]
fn empty_contents_have_no_lines() {
    assert!(search("a", "").is_empty());
    assert!(search("", "").is_empty());
    assert!(search_case_insensitive("", "").is_empty());
}

#[test]
fn lone_line_feed_is_one_empty_line() {
    assert_eq!(search("", "\n"), vec![""]);
    assert_eq!(search("", "\n\n"), vec!["", ""]);
    assert_eq!(search("", "a\n"), vec!["a"]);
}

#[test]
fn no_match_is_an_empty_result() {
    assert!(search("zebra", "lion\ntiger\n").is_empty());
    assert!(search_case_insensitive("zebra", "lion\ntiger\n").is_empty());
}

#[test]
fn matches_keep_their_order_and_repeat() {
    let contents = "b1\na\nb2\nb1\n";
    assert_eq!(search("b", contents), vec!["b1", "b2", "b1"]);
}

#[test]
fn every_result_holds_the_query_and_every_holding_line_is_found() {
    let query = "an";
    let contents = "banana\n  an apple\ncherry\nAN\nplan  \n";
    let found = search(query, contents);
    for line in &found {
        assert!(line.contains(query));
    }
    let expected: Vec<&str> =
        contents.lines().filter(|line| line.contains(query)).map(|line| line.trim()).collect();
    assert_eq!(found, expected);
    assert_eq!(found, vec!["banana", "an apple", "plan"]);
}

#[test]
fn query_with_whitespace_at_its_edge_may_not_survive_trimming() {
    assert_eq!(search(" a", " a"), vec!["a"]);
    assert_eq!(search("a ", "xa \nya"), vec!["xa"]);
}

#[test]
fn query_is_looked_for_before_the_line_is_trimmed() {
    assert_eq!(search("  x", "  x\n x\n"), vec!["x"]);
}

#[test]
fn case_insensitive_result_holds_the_case_sensitive_one() {
    let contents = "Apple pie\napple tart\nAPPLE JUICE\nbanana\n";
    let exact = search("apple", contents);
    let folded = search_case_insensitive("apple", contents);
    assert_eq!(exact, vec!["apple tart"]);
    assert_eq!(folded, vec!["Apple pie", "apple tart", "APPLE JUICE"]);
    for line in &exact {
        assert!(folded.contains(line));
    }
}

#[test]
fn final_sigma_is_lowercased_by_its_place_in_the_word() {
    let query = "\u{391}\u{3A3}";
    let contents = "\u{391}\u{3A3}\u{391}\n\u{391}\u{3A3}\n";
    assert_eq!(search(query, contents), vec!["\u{391}\u{3A3}\u{391}", "\u{391}\u{3A3}"]);
    assert_eq!(search_case_insensitive(query, contents), vec!["\u{391}\u{3A3}"]);
}

#[test]
fn searching_twice_gives_the_same() {
    let contents = "one\ntwo\none two\n";
    assert_eq!(search("one", contents), search("one", contents));
    assert_eq!(
        search_case_insensitive("ONE", contents),
        search_case_insensitive("ONE", contents)
    );
    assert_eq!(search("one", contents), vec!["one", "one two"]);
}

#[test]
fn results_carry_no_whitespace_at_their_ends() {
    let contents = "\t key = 1 \r\n\u{3000}key\u{a0}\n key \u{2003}\u{85}\nother\n";
    let found = search("key", contents);
    assert_eq!(found, vec!["key = 1", "key", "key"]);
    for line in &found {
        assert_eq!(*line, line.trim());
    }
}

#[test]
fn carriage_return_before_line_feed_is_part_of_the_terminator() {
    assert_eq!(search("a", "a\r\nb\r\n"), vec!["a"]);
    assert!(search("\r", "a\r\nb\r\n").is_empty());
    assert_eq!(search("\r", "a\r\r\nb"), vec!["a"]);
    assert_eq!(search("\r", "a\nb\r"), vec!["b"]);
    assert_eq!(search("\r", "a\rb\n"), vec!["a\rb"]);
}

#[test]
fn query_of_several_bytes_per_character_is_found() {
    let contents = "na\u{ef}ve caf\u{e9}\n\u{65e5}\u{672c}\u{8a9e}\nplain\n\u{1f600} smile\n";
    assert_eq!(search("\u{e9}", contents), vec!["na\u{ef}ve caf\u{e9}"]);
    assert_eq!(search("\u{672c}", contents), vec!["\u{65e5}\u{672c}\u{8a9e}"]);
    assert_eq!(search("\u{1f600}", contents), vec!["\u{1f600} smile"]);
    assert_eq!(search_case_insensitive("CAF\u{c9}", contents), vec!["na\u{ef}ve caf\u{e9}"]);
}

#[test]
fn results_are_parts_of_the_contents() {
    let contents = String::from("first\n  second  \nthird");
    let found = search("second", &contents);
    assert_eq!(found, vec!["second"]);
    let start = contents.as_ptr() as usize;
    let at = found[0].as_ptr() as usize;
    assert_eq!(at - start, 8);
}

#[test]
fn search_agrees_with_the_standard_library() {
    let texts = [
        "",
        "\n",
        "\r\n",
        "\r",
        "a\rb",
        "one\ntwo\r\nthree\n\nfour\r",
        "  lead\n trail  \n\t both \t\n",
        "\u{3000}wide\u{3000}\n\u{2028}sep\u{2029}\n\u{feff}bom\n",
        "caf\u{e9}\nCAF\u{c9}\n\u{130}stanbul\nSTRASSE\nstra\u{df}e\n",
        "x\u{85}\n\u{a0}y\n\u{1680}z\u{205f}\n",
    ];
    let queries = ["", "a", "o", "\r", " ", "\t", "e", "\u{e9}", "ss", "\u{3000}", "i", "R"];
    for text in texts {
        for query in queries {
            let exact: Vec<&str> =
                text.lines().filter(|line| line.contains(query)).map(|line| line.trim()).collect();
            assert_eq!(search(query, text), exact, "{:?} in {:?}", query, text);
            let lowered = query.to_lowercase();
            let folded: Vec<&str> = text
                .lines()
                .filter(|line| line.to_lowercase().contains(&lowered))
                .map(|line| line.trim())
                .collect();
            assert_eq!(search_case_insensitive(query, text), folded, "{:?} in {:?}", query, text);
        }
    }
}

fn next(state: &mut u64) -> usize {
    *state = state.wrapping_mul(6364136223846793005).wrapping_add(1442695040888963407);
    (*state >> 33) as usize
}

fn generated(state: &mut u64, alphabet: &[char], longest: usize) -> String {
    let len = next(state) % (longest + 1);
    (0..len).map(|_| alphabet[next(state) % alphabet.len()]).collect()
}

#[test]
fn search_agrees_with_the_standard_library_on_generated_texts() {
    let alphabet = [
        'a', 'b', 'A', 'B', ' ', '\t', '\n', '\n', '\r', '\u{a0}', '\u{3000}', '\u{e9}', '\u{c9}',
        '\u{3a3}', '\u{3c3}', '\u{3c2}', '\u{1f600}', '\u{130}',
    ];
    let mut state: u64 = 2024;
    for _ in 0..4000 {
        let text = generated(&mut state, &alphabet, 24);
        let query = generated(&mut state, &alphabet, 3);
        let exact: Vec<&str> =
            text.lines().filter(|line| line.contains(&query)).map(|line| line.trim()).collect();
        assert_eq!(search(&query, &text), exact, "{:?} in {:?}", query, text);
        let lowered = query.to_lowercase();
        let folded: Vec<&str> = text
            .lines()
            .filter(|line| line.to_lowercase().contains(&lowered))
            .map(|line| line.trim())
            .collect();
        assert_eq!(search_case_insensitive(&query, &text), folded, "{:?} in {:?}", query, text);
    }
}
