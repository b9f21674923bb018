use o_lang::escape::{escape_body, unescape_body};
use o_lang::unlink::{registered_backends, unlink_source};

/// The text of the first block of a document.
fn first_block_text(document: &str) -> String {
    let marked = format!("# ── block ──\n{document}");
    let entries = unlink_source(&marked).unwrap();
    assert_eq!(entries.len(), 1);
    entries[0].1.clone()
}

#[test]
fn escape_is_identity_for_plain_code() {
    let backends = registered_backends();
    let src = "x = 1 + 2\nprint(x)\n";
    assert_eq!(escape_body(src, ")_python", &backends), src);
}

#[test]
fn escapes_opener_and_closer_collisions() {
    let backends = registered_backends();
    let src = "s = \"python^(1)_python\"";
    let escaped = escape_body(src, ")_python", &backends);
    assert_eq!(escaped, "s = \"\\python^(1\\)_python\"");
}

#[test]
fn escaped_body_round_trips_through_parser() {
    let backends = registered_backends();
    let inner = "doc = \"use python^( ... )_python blocks\"\nx = 2 ^ (3 + 1)\n";
    let escaped = escape_body(inner, ")_python", &backends);
    let combined = format!("python^(\n{})_python\n", escaped);
    let body = first_block_text(&combined);
    assert_eq!(body.trim_start_matches('\n'), inner);
}

#[test]
fn indexed_closer_escaping_is_exact() {
    let backends = registered_backends();
    let inner = ")_python stays literal; )_python[0] is the real closer";
    let escaped = escape_body(inner, ")_python[0]", &backends);
    assert!(escaped.starts_with(")_python stays literal"));
    assert!(escaped.contains("\\)_python[0]"));
    let combined = format!("python[0]^(\n{escaped})_python[0]\n");
    let body = first_block_text(&combined);
    assert_eq!(body.trim_start_matches('\n'), inner);
}

#[test]
fn environment_closer_attribute_prefix_is_not_escaped_and_round_trips() {
    let backends = registered_backends();
    let inner = "value = ')_python[*]{defer}'\n";
    let escaped = escape_body(inner, ")_python[*]", &backends);
    assert_eq!(escaped, inner, "a longer tag prefix is literal text");

    let combined = format!("python[*]^(\n{escaped})_python[*]\n");
    let body = first_block_text(&combined);
    assert_eq!(body.trim_start_matches('\n'), inner);
}

#[test]
fn bare_closer_identifier_continuations_are_not_escaped_and_round_trip() {
    let backends = registered_backends();
    let inner = ")_pythonista )_python2 )_python_suffix\n";
    let escaped = escape_body(inner, ")_python", &backends);
    assert_eq!(escaped, inner, "identifier continuations extend a bare tag");

    let combined = format!("python^(\n{escaped})_python\n");
    let body = first_block_text(&combined);
    assert_eq!(body.trim_start_matches('\n'), inner);
}

#[test]
fn environment_closer_followed_by_identifier_is_exact_and_round_trips() {
    let backends = registered_backends();
    let inner = ")_python[*]tail\n";
    let escaped = escape_body(inner, ")_python[*]", &backends);
    assert_eq!(escaped, "\\)_python[*]tail\n");

    let combined = format!("python[*]^(\n{escaped})_python[*]\n");
    let body = first_block_text(&combined);
    assert_eq!(body.trim_start_matches('\n'), inner);
}

#[test]
fn foreign_closers_are_left_alone() {
    let backends = registered_backends();
    let src = "html closer: )_html stays literal";
    assert_eq!(escape_body(src, ")_python", &backends), src);
}

#[test]
fn env_and_attr_openers_are_escaped() {
    let backends = registered_backends();
    let src = "python[3]^(x)_python[3] and python{lazy}^(y)_python{lazy}";
    let escaped = escape_body(src, ")_bash", &backends);
    assert!(escaped.contains("\\python[3]^("));
    assert!(escaped.contains("\\python{lazy}^("));
}

#[test]
fn unregistered_idents_are_not_escaped() {
    let backends = registered_backends();
    let src = "result = pow2^(n) if weird else 2 ^ (x+1)";
    assert_eq!(escape_body(src, ")_python", &backends), src);
}

#[test]
fn dollar_ident_splices_are_escaped() {
    let backends = registered_backends();
    let src = "echo $HOME and $PATH";
    let escaped = escape_body(src, ")_bash", &backends);
    assert_eq!(escaped, "echo \\$HOME and \\$PATH");
}

#[test]
fn dollar_non_ident_is_left_alone() {
    let backends = registered_backends();
    // $1, $@, or $? are no splices, so they need no escaping.
    let src = "echo $1 $@ $? $$";
    assert_eq!(escape_body(src, ")_bash", &backends), src);
}

#[test]
fn dollar_ident_round_trips_through_parser() {
    let backends = registered_backends();
    let inner = "echo $HOME\ncd $PATH/bin\n";
    let escaped = escape_body(inner, ")_bash[0]", &backends);
    assert!(escaped.contains("\\$HOME"));
    assert!(escaped.contains("\\$PATH"));
    let combined = format!("bash[0]^(\n{})_bash[0]\n", escaped);
    let body = first_block_text(&combined);
    assert_eq!(body.trim_start_matches('\n'), inner);
}

#[test]
fn escaping_is_undone_for_awkward_bodies() {
    let backends = registered_backends();
    let closer = ")_python[*]";
    let closer_chars: Vec<char> = closer.chars().collect();
    for body in [
        "",
        "\\",
        "\\\\$HOME",
        "\\python^(",
        "\\\\python^( \\)_python[*]",
        "$x$y \\$z",
        ")_python[*])_python[*]",
        "python[*]^()_python[*]",
        "é $é \\é",
    ] {
        let escaped: Vec<char> = escape_body(body, closer, &backends).chars().collect();
        assert_eq!(unescape_body(&escaped, &closer_chars, &backends), body);
    }
}

#[test]
fn blocks_of_every_marker_hold_their_text() {
    let backends = registered_backends();
    let inner = "a \\) $HOME \\$x bash[2]{defer}^( )_python )_pythonic )_python[*] {b}^(\n";
    for tag in ["python", "python[*]", "python[7]"] {
        let closer = format!(")_{tag}");
        let escaped = escape_body(inner, &closer, &backends);
        let body = first_block_text(&format!("{tag}^(\n{escaped}{closer}\n"));
        assert_eq!(body.trim_start_matches('\n'), inner, "{tag}");
        let chars: Vec<char> = escaped.chars().collect();
        let ends: Vec<char> = closer.chars().collect();
        assert_eq!(unescape_body(&chars, &ends, &backends), inner, "{tag}");
    }
}

#[test]
fn openers_behind_a_bare_closer_complete_it() {
    let backends = registered_backends();
    assert_eq!(
        escape_body(")_pythonbash^(x", ")_python", &backends),
        ")_python\\bash^(x"
    );
    assert_eq!(
        escape_body(")_python[*]bash^(x", ")_python[*]", &backends),
        "\\)_python[*]\\bash^(x"
    );
}
