use guardian::compress::estimate_tokens;

#[test]
fn test_estimate_tokens_english() {
    let text = "Hello world, this is a test sentence with some words.";
    let tokens = estimate_tokens(text);
    assert!(tokens > 0);
    assert!(tokens < 100);
}

#[test]
fn test_estimate_tokens_empty() {
    let tokens = estimate_tokens("");
    assert_eq!(tokens, 1);
}

#[test]
fn test_estimate_tokens_long_text() {
    let text = "word ".repeat(1000);
    let tokens = estimate_tokens(&text);
    assert!(tokens >= 1000);
}
