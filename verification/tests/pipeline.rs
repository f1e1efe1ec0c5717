use xan::pipeline::parse_pipeline;

fn strings(v: &[&str]) -> Vec<String> {
    v.iter().map(|s| s.to_string()).collect()
}

#[test]
fn pipeline_commands() {
    assert_eq!(
        parse_pipeline("search -s name john | count").unwrap(),
        vec![strings(&["search", "-s", "name", "john"]), strings(&["count"])]
    );
    assert_eq!(
        parse_pipeline("xan search -es Category |xan count").unwrap(),
        vec![strings(&["search", "-es", "Category"]), strings(&["count"])]
    );
    assert_eq!(
        parse_pipeline("progress |search -es Category").unwrap(),
        vec![strings(&["progress"]), strings(&["search", "-es", "Category"])]
    );
    assert_eq!(
        parse_pipeline("progress| search").unwrap(),
        vec![strings(&["progress"]), strings(&["search"])]
    );
    assert_eq!(parse_pipeline("'a b' c").unwrap(), vec![strings(&["a b", "c"])]);
    assert_eq!(parse_pipeline("").unwrap(), vec![Vec::<String>::new()]);
}

#[test]
fn pipeline_errors() {
    assert_eq!(
        parse_pipeline("search 'unclosed"),
        Err("could not parse pipeline: search 'unclosed".to_string())
    );
}

#[test]
fn pipeline_from_shell_words() {
    let words: Vec<String> = ["xan", "search", "-s", "name", "john|", "count", "|sort", "|", "xan", "view"]
        .iter()
        .map(|w| w.to_string())
        .collect();
    let commands = xan::pipeline::pipeline_from_words(words);
    assert_eq!(
        commands,
        vec![
            vec!["search".to_string(), "-s".to_string(), "name".to_string(), "john".to_string()],
            vec!["count".to_string()],
            vec!["sort".to_string()],
            vec!["view".to_string()],
        ]
    );
}
