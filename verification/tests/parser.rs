use markdownfs::cmd::parser::{parse_pipeline, tokenize};

#[test]
fn test_tokenize_simple() {
    assert_eq!(tokenize("ls -la /foo"), vec!["ls", "-la", "/foo"]);
}

#[test]
fn test_tokenize_quotes() {
    assert_eq!(
        tokenize(r#"grep "hello world" file.md"#),
        vec!["grep", "hello world", "file.md"]
    );
}

#[test]
fn test_pipeline() {
    let pipeline = parse_pipeline("grep TODO notes/ | head -5 | wc -l");
    assert_eq!(pipeline.commands.len(), 3);
    assert_eq!(pipeline.commands[0].program, "grep");
    assert_eq!(pipeline.commands[1].program, "head");
    assert_eq!(pipeline.commands[2].program, "wc");
}
