use mdbook_merjong::preprocessor::preprocess;

#[test]
fn test_preprocess() {
    let content = r#"
# Chapter 1

```merjong
234m-234m-234m-222p-5m-5m
````

"#;
    let result = preprocess(&content.as_bytes().to_vec());
    let result = String::from_utf8(result).expect("preprocess failed");
    println!("test_preprocess' s Result: {}", result);
}

#[test]
fn single_block_becomes_pre_element() {
    let input = "```merjong\n234m-234m\n```";
    let output = preprocess(&input.as_bytes().to_vec());
    assert_eq!(output, b"<pre class=\"merjong\">234m-234m</pre>".to_vec());
}

#[test]
fn empty_block_becomes_empty_pre_element() {
    let input = "```merjong\n```";
    let output = preprocess(&input.as_bytes().to_vec());
    assert_eq!(output, b"<pre class=\"merjong\"></pre>".to_vec());
}

#[test]
fn document_without_target_blocks_is_unchanged() {
    let input = "# Title\n\nplain text, one `inline` span, and\n\n```rust\nlet x = 1;\n```\n";
    let output = preprocess(&input.as_bytes().to_vec());
    assert_eq!(output, input.as_bytes().to_vec());
}

#[test]
fn second_pass_over_transformed_output_is_identity() {
    let input = "before\n\n```merjong\n234m-234m\n```\n\nafter\n";
    let once = preprocess(&input.as_bytes().to_vec());
    let twice = preprocess(&once);
    assert_eq!(twice, once);
}

#[test]
fn surrounding_content_is_untouched() {
    let input = "intro line\n\n```merjong\n111m\n```\n\noutro line\n";
    let output = preprocess(&input.as_bytes().to_vec());
    let output = String::from_utf8(output).unwrap();
    assert_eq!(
        output,
        "intro line\n\n<pre class=\"merjong\">111m</pre>\n\noutro line\n"
    );
}

#[test]
fn two_blocks_in_one_document() {
    let input = "```merjong\n111m\n```\n\nmiddle\n\n```merjong\n222p\n```\n";
    let output = preprocess(&input.as_bytes().to_vec());
    let output = String::from_utf8(output).unwrap();
    assert_eq!(
        output,
        "<pre class=\"merjong\">111m</pre>\n\nmiddle\n\n<pre class=\"merjong\">222p</pre>\n"
    );
}

#[test]
fn empty_block_after_full_block() {
    let input = "```merjong\n111m\n```\n\n```merjong\n```\n";
    let output = preprocess(&input.as_bytes().to_vec());
    let output = String::from_utf8(output).unwrap();
    assert_eq!(
        output,
        "<pre class=\"merjong\">111m</pre>\n\n<pre class=\"merjong\"></pre>\n"
    );
}

#[test]
fn crlf_payload_is_normalized() {
    let input = "```merjong\n111m\r\n222p\n```";
    let output = preprocess(&input.as_bytes().to_vec());
    assert_eq!(output, b"<pre class=\"merjong\">111m\n222p</pre>".to_vec());
}
