use minigrep::{search, search_case_insensitive, search_lines};

#[test]
fn one_result() {
    let query = "万";
    let contents = "北国风光，千里冰封，万里雪飘。\n望长城内外，惟余莽莽；大河上下，顿失滔滔。";
    assert_eq!(
        vec!["北国风光，千里冰封，万里雪飘。"],
        search(query, contents)
    );
}

#[test]
fn case_insensitive() {
    let query = "RusT";
    let contents = "Rust\nrUst\nrus";
    assert_eq!(
        search_case_insensitive(query, contents),
        vec!["Rust", "rUst"]
    );
}

#[test]
fn empty_document_yields_no_matches() {
    let empty: Vec<&str> = Vec::new();
    assert_eq!(search("anything", ""), empty);
    assert_eq!(search_case_insensitive("anything", ""), empty);
    assert_eq!(search_lines("anything", "", true), empty);
    assert_eq!(search_lines("anything", "", false), empty);
}

#[test]
fn repeated_search_yields_identical_output() {
    let query = "st";
    let contents = "Rust\nrUst\nrus\nstone";
    assert_eq!(search(query, contents), search(query, contents));
    assert_eq!(
        search_case_insensitive(query, contents),
        search_case_insensitive(query, contents)
    );
}

#[test]
fn case_insensitive_matches_at_least_as_much() {
    let query = "RusT";
    let contents = "Rust\nrUst\nrus";
    let exact = search(query, contents);
    let folded = search_case_insensitive(query, contents);
    assert!(exact.len() <= folded.len());
    assert_eq!(exact.len(), 0);
    assert_eq!(folded.len(), 2);
}

#[test]
fn exact_search_keeps_document_order() {
    let contents = "safe, fast, productive.\nPick three.\nfast cars";
    assert_eq!(
        search("fast", contents),
        vec!["safe, fast, productive.", "fast cars"]
    );
}

#[test]
fn empty_query_matches_every_line() {
    assert_eq!(search("", "a\nb"), vec!["a", "b"]);
    let empty: Vec<&str> = Vec::new();
    assert_eq!(search("", ""), empty);
}

#[test]
fn line_terminator_handling() {
    // A terminator on the last line adds no empty line after it.
    assert_eq!(search("", "a\nb\r\nc\n"), vec!["a", "b", "c"]);
    // A carriage return without a line feed splits nothing.
    assert_eq!(search("", "a\r"), vec!["a\r"]);
    // Empty lines between terminators are kept.
    assert_eq!(search("", "\n\n"), vec!["", ""]);
}

#[test]
fn repeated_occurrences_yield_the_line_once() {
    assert_eq!(search("aa", "aaa aa"), vec!["aaa aa"]);
}

#[test]
fn query_longer_than_line_does_not_match() {
    let empty: Vec<&str> = Vec::new();
    assert_eq!(search("abcd", "ab\ncd"), empty);
}

#[test]
fn search_lines_follows_the_case_policy() {
    let query = "RusT";
    let contents = "Rust\nrUst\nrus";
    assert_eq!(search_lines(query, contents, false), search(query, contents));
    assert_eq!(
        search_lines(query, contents, true),
        search_case_insensitive(query, contents)
    );
}
