use o_lang::unlink::{find_path_marker, parse_path_marker, unlink_source, UnlinkError};

#[test]
fn parse_path_marker_basic() {
    let line = "# ── src/hello.py ──\n";
    let path = parse_path_marker(line).unwrap();
    assert_eq!(path, "src/hello.py");
}

#[test]
fn parse_path_marker_no_subdirectory() {
    let line = "# ── main.sh ──\n";
    let path = parse_path_marker(line).unwrap();
    assert_eq!(path, "main.sh");
}

#[test]
fn find_path_marker_finds_first_occurrence() {
    let text = "some text\n# ── a.py ──\nmore text\n# ── b.py ──\n";
    let idx = find_path_marker(text).unwrap() as usize;
    // `# ── ` is 9 bytes: '#', ' ', then two U+2500 box-drawing chars
    // (3 bytes each), then ' '.
    assert!(text[idx..].starts_with("# ── "), "expected marker at idx {}", idx);
    // Verify the text before the marker is what we expect.
    assert_eq!(&text[..idx], "some text\n");
}

#[test]
fn find_path_marker_returns_none_when_absent() {
    let text = "# Linked by o-link\nsome raw text\n";
    assert!(find_path_marker(text).is_none());
}

#[test]
fn roundtrip_python_file_with_dollar_vars() {
    let combined = "# Linked by o-link — single-file .O program\n\
                    \n\
                    # ── script.py ──\n\
                    python[0]^(\n\
                    import os\n\
                    home = os.environ.get(\"HOME\")\n\
                    )_python[0]\n";

    let entries = unlink_source(combined).unwrap();
    assert_eq!(entries.len(), 1, "should recover exactly one file");
    let (path, content) = &entries[0];
    assert_eq!(path, "script.py");
    assert!(content.contains("import os"), "got: {:?}", content);
    assert!(content.contains("HOME"), "got: {:?}", content);
}

#[test]
fn roundtrip_dollar_escape_resolved() {
    let combined = "# ── env.sh ──\nbash[0]^(\necho \\$HOME\n)_bash[0]\n";
    let entries = unlink_source(combined).unwrap();
    assert_eq!(entries.len(), 1);
    let (_, content) = &entries[0];
    // The escaped \$HOME in the source should be decoded to literal $HOME.
    assert!(content.contains("$HOME"), "\\$HOME should decode to $HOME; got: {:?}", content);
    assert!(!content.contains("\\$"), "no backslash should remain; got: {:?}", content);
}

#[test]
fn roundtrip_multiple_languages() {
    let combined = format!(
        "{}{}{}{}{}{}{}{}{}{}{}",
        "# Linked by o-link — single-file .O program\n",
        "\n",
        "# ── app.py ──\n",
        "python[0]^(\n",
        "print('hello')\n",
        ")_python[0]\n",
        "\n",
        "# ── run.sh ──\n",
        "bash[0]^(\n",
        "echo hello\n",
        ")_bash[0]\n",
    );

    let entries = unlink_source(&combined).unwrap();
    assert_eq!(entries.len(), 2);

    let paths: Vec<&str> = entries.iter().map(|(p, _)| p.as_str()).collect();
    assert!(paths.contains(&"app.py"));
    assert!(paths.contains(&"run.sh"));

    for (path, content) in &entries {
        if path == "app.py" {
            assert!(content.contains("print('hello')"));
        } else {
            assert!(content.contains("echo hello"));
        }
    }
}

#[test]
fn roundtrip_escaped_opener_and_closer() {
    // A Python file whose source contains a literal `python^(` and `)_python`.
    let combined = format!(
        "{}{}{}{}",
        "# ── demo.py ──\n",
        "python[0]^(\n",
        "doc = \"use \\python^( ... \\)_python blocks\"\n",
        ")_python[0]\n",
    );

    let entries = unlink_source(&combined).unwrap();
    assert_eq!(entries.len(), 1);
    let (_, content) = &entries[0];
    assert!(
        content.contains("python^("),
        "opener escape should resolve; got: {:?}", content
    );
    assert!(
        content.contains(")_python"),
        "closer escape should resolve; got: {:?}", content
    );
}

#[test]
fn roundtrip_filesystem_link_then_unlink() {
    let py_content = "def greet(name):\n    return f\"Hello {name}\"\n";
    let sh_content = "#!/bin/bash\necho $HOME\n";
    let combined = format!(
        "# Linked by o-link — single-file .O program\n\n# ── {py} ──\npython[0]^(\n{py_body})_python[0]\n\n# ── {sh} ──\nbash[0]^(\n{sh_body})_bash[0]\n",
        py = "/work/e2e/greet.py",
        py_body = py_content,
        sh = "/work/e2e/run.sh",
        sh_body = sh_content.replace("$HOME", "\\$HOME"),
    );

    let entries = unlink_source(&combined).unwrap();
    assert_eq!(entries.len(), 2, "should recover both files");
    let find = |key: &str| {
        entries
            .iter()
            .find(|(path, _)| path == key)
            .map(|(_, content)| content.clone())
            .unwrap()
    };
    assert_eq!(find("/work/e2e/greet.py").trim_end(), py_content.trim_end());
    assert_eq!(find("/work/e2e/run.sh").trim_end(), sh_content.trim_end());
}

#[test]
fn empty_combined_returns_empty_vec() {
    let combined = "# Linked by o-link — single-file .O program\n";
    let entries = unlink_source(combined).unwrap();
    assert!(entries.is_empty());
}

#[test]
fn unterminated_blocks_are_reported() {
    let combined = "# ── env.sh ──\nbash[0]^(\necho hi\n";
    let error: UnlinkError = unlink_source(combined).unwrap_err();
    assert!(matches!(error, UnlinkError::UnterminatedBlock { .. }));
}
