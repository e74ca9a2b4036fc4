use codehealth::shingles::{
    ast_path_tokens, canonical_node_token, control_flow_tokens, lexical_tokens, shingle_strings,
    statement_regions,
};

fn strings(values: &[&str]) -> Vec<String> {
    values.iter().map(|v| v.to_string()).collect()
}

#[test]
fn lexical_tokens_split_words_and_marks() {
    assert_eq!(
        lexical_tokens("if (Foo_bar >= 10) { return x; }"),
        strings(&["if", "(", "foo_bar", ">", "=", "10", ")", "{", "return", "x", ";", "}"])
    );
    assert!(lexical_tokens("  \n\t").is_empty());
    assert_eq!(lexical_tokens("é"), strings(&["é"]));
}

#[test]
fn ast_paths_keep_the_last_four_canonical_nodes() {
    assert!(canonical_node_token("call"));
    assert!(!canonical_node_token("Call"));
    assert_eq!(
        ast_path_tokens("Function(Params, Block(Return(Call(Member(Identifier)))))"),
        strings(&[
            "function",
            "function>params",
            "function>params>block",
            "function>params>block>return",
            "params>block>return>call",
            "block>return>call>member",
            "return>call>member>identifier",
        ])
    );
}

#[test]
fn control_flow_tokens_keep_branching_keywords() {
    let tokens = strings(&["if", "x", "else", "return", "?", "foo", "await"]);
    assert_eq!(control_flow_tokens(&tokens), strings(&["if", "else", "return", "?", "await"]));
}

#[test]
fn shingles_are_distinct_sorted_windows() {
    let tokens = strings(&["b", "a", "b", "a"]);
    assert_eq!(shingle_strings(&tokens, 2), strings(&["a b", "b a"]));
    assert_eq!(shingle_strings(&tokens, 0), strings(&["a", "b"]));
    assert_eq!(shingle_strings(&tokens, 9), strings(&["b a b a"]));
    assert!(shingle_strings(&[], 3).is_empty());
}

#[test]
fn statement_regions_skip_braces_and_blank_lines() {
    let body = "{\n    let x = 1;\n\n    if x {\n    }\n    return   x;\n}";
    let regions = statement_regions(body, 10);
    let found: Vec<(usize, &str)> = regions.iter().map(|r| (r.line, r.normalized.as_str())).collect();
    assert_eq!(found, vec![(11, "let x = 1"), (13, "if x"), (15, "return x")]);
}
