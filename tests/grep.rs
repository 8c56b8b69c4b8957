use text_tools::grep::{search, search_case_insensitive, Config};

#[test]
fn config_build_success() {
    let config = Config::build(vec![
        "rust_file_name".to_string(),
        "query".to_string(),
        "file.txt".to_string(),
    ]);
    assert!(matches!(
        config,
        Ok(Config {
            query: _,
            file_path: _,
            ignore_case: _
        })
    ));
}

#[test]
fn one_result() {
    let query = "duct";
    let contents = "\
Rust:
safe, fast, productive.
Pick three.";

    assert_eq!(vec!["safe, fast, productive."], search(query, contents));
}

#[test]
fn case_insensitive() {
    let query = "rUsT";
    let contents = "\
Rust:
safe, fast, productive.
Pick three.
Trust me.";

    assert_eq!(
        vec!["Rust:", "Trust me."],
        search_case_insensitive(query, contents)
    );
}

#[test]
fn config_build_fields_and_flag() {
    let c = Config::build(vec!["p".to_string(), "q".to_string(), "f.txt".to_string()]).unwrap();
    assert_eq!(c.query, "q");
    assert_eq!(c.file_path, "f.txt");
    assert!(!c.ignore_case);
    let c = Config::build(vec![
        "p".to_string(),
        "q".to_string(),
        "f.txt".to_string(),
        "true".to_string(),
        "extra".to_string(),
    ])
    .unwrap();
    assert!(c.ignore_case);
    let c = Config::build(vec!["p".to_string(), "q".to_string(), "f".to_string(), "false".to_string()]).unwrap();
    assert!(!c.ignore_case);
}

#[test]
fn config_build_errors() {
    assert!(matches!(Config::build(vec![]), Err("Didn't get a query string")));
    assert!(matches!(Config::build(vec!["p".to_string()]), Err("Didn't get a query string")));
    assert!(matches!(
        Config::build(vec!["p".to_string(), "q".to_string()]),
        Err("Didn't get a file path")
    ));
    assert!(matches!(
        Config::build(vec!["p".to_string(), "q".to_string(), "f".to_string(), "TRUE".to_string()]),
        Err("Could not interpret `ignore_case` argument. Argument should be `true` or `false`.")
    ));
}

#[test]
fn search_edges() {
    assert_eq!(search("", "a\nb"), vec!["a", "b"]);
    assert_eq!(search("x", "a\r\nbx\r\n"), vec!["bx"]);
    assert!(search("longer than text", "short").is_empty());
    assert!(search("Rust", "rust").is_empty());
    assert_eq!(search_case_insensitive("ÄB", "xäbx\nab"), vec!["xäbx"]);
}
