use steampipe::commands::edit::{
    delete_line_in_text, embedding_provider_kind, write_line_in_text, EditError, EmbeddingProviderKind,
};

#[test]
fn test_write_and_delete() {
    let content = "line 1\nline 2\nline 3".to_string();

    let content = write_line_in_text(&content, 1, Some("inserted line 1".to_string())).unwrap();
    assert_eq!(content, "inserted line 1\nline 1\nline 2\nline 3");

    let content = write_line_in_text(&content, 2, Some("println!(\"hello\");".to_string())).unwrap();
    assert_eq!(content, "inserted line 1\nprintln!(\"hello\");\nline 1\nline 2\nline 3");

    let content = write_line_in_text(&content, 8, Some("appended line 8".to_string())).unwrap();
    assert_eq!(
        content,
        "inserted line 1\nprintln!(\"hello\");\nline 1\nline 2\nline 3\n\n\nappended line 8"
    );

    let content = delete_line_in_text(&content, 1);
    assert_eq!(content, "println!(\"hello\");\nline 1\nline 2\nline 3\n\n\nappended line 8");

    let content = delete_line_in_text(&content, 1);
    assert_eq!(content, "line 1\nline 2\nline 3\n\n\nappended line 8");
}

#[test]
fn line_zero_is_refused() {
    assert_eq!(write_line_in_text("a", 0, None), Err(EditError::LineZero));
    assert_eq!(EditError::LineZero.message(), "Line number must be 1 or greater");
}

#[test]
fn write_without_content_inserts_empty_line() {
    assert_eq!(write_line_in_text("a\nb", 2, None).unwrap(), "a\n\nb");
    assert_eq!(write_line_in_text("", 1, Some("x".to_string())).unwrap(), "x");
}

#[test]
fn delete_out_of_range_keeps_lines() {
    assert_eq!(delete_line_in_text("a\nb", 0), "a\nb");
    assert_eq!(delete_line_in_text("a\nb", 3), "a\nb");
    assert_eq!(delete_line_in_text("a\r\nb\n", 3), "a\nb");
}

#[test]
fn delete_undoes_write() {
    let text = "one\ntwo\nthree";
    for line in 1..=4 {
        let written = write_line_in_text(text, line, Some("new".to_string())).unwrap();
        assert_eq!(delete_line_in_text(&written, line), text);
    }
}

#[test]
fn written_line_reads_back() {
    let written = write_line_in_text("a\nb\nc", 2, Some("x".to_string())).unwrap();
    let lines: Vec<&str> = written.lines().collect();
    assert_eq!(lines[1], "x");
}

#[test]
fn embedding_providers_by_name() {
    assert_eq!(embedding_provider_kind("openai"), EmbeddingProviderKind::OpenAi);
    assert_eq!(embedding_provider_kind("ollama"), EmbeddingProviderKind::Ollama);
    assert_eq!(embedding_provider_kind("fastembed"), EmbeddingProviderKind::FastEmbed);
    assert_eq!(embedding_provider_kind("voyageai"), EmbeddingProviderKind::VoyageAi);
    assert_eq!(embedding_provider_kind("cohere"), EmbeddingProviderKind::Cohere);
    assert_eq!(embedding_provider_kind("none"), EmbeddingProviderKind::Null);
    assert_eq!(embedding_provider_kind("OpenAI"), EmbeddingProviderKind::Null);
}

#[test]
fn deleting_a_written_line_gives_the_text_back() {
    for (text, line, content) in [("a\nb", 2, "x"), ("a\nb", 3, ""), ("", 1, ""), ("one", 1, "zero")] {
        let written = write_line_in_text(text, line, Some(content.to_string())).expect("line is at least 1");
        assert_eq!(delete_line_in_text(&written, line), text);
    }
}
