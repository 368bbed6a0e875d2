use minigrep::render_report;
use minigrep::report::decimal_string;

#[test]
fn decimal_rendering() {
    assert_eq!(decimal_string(0), "0");
    assert_eq!(decimal_string(7), "7");
    assert_eq!(decimal_string(10), "10");
    assert_eq!(decimal_string(12345), "12345");
    assert_eq!(decimal_string(1000), "1000");
}

#[test]
fn report_when_nothing_was_found() {
    let results: Vec<&str> = Vec::new();
    assert_eq!(render_report(&results), vec!["未找到".to_string()]);
}

#[test]
fn report_lists_matches_and_count() {
    let results = vec!["first match", "second match"];
    assert_eq!(
        render_report(&results),
        vec![
            "搜索结果 : ".to_string(),
            "first match".to_string(),
            "second match".to_string(),
            "共计出现 : 2 次".to_string(),
        ]
    );
}

#[test]
fn report_of_a_single_match() {
    let results = vec!["只此一行"];
    assert_eq!(
        render_report(&results),
        vec![
            "搜索结果 : ".to_string(),
            "只此一行".to_string(),
            "共计出现 : 1 次".to_string(),
        ]
    );
}
