use directives::registry::Registry;
use directives::source::{join_documents, ContentSource};
use directives::text::{fallback_notice, SEPARATOR};

fn strings(items: &[&str]) -> Vec<String> {
    items.iter().map(|s| s.to_string()).collect()
}

fn sample_registry() -> Registry {
    let mut reg = Registry::new();
    let table: [(&str, &[&str], &str); 8] = [
        ("Go", &["golang"], "Go guidance placeholder"),
        ("Python", &["py"], "Python guidance"),
        ("Rust", &["rs"], "Rust guidance placeholder"),
        ("C", &["cpp", "c++", "objc", "objective-c"], "C-based languages guidance placeholder"),
        (
            "Web",
            &["javascript", "js", "typescript", "ts", "html", "css", "svelte", "react", "vue"],
            "Web technologies guidance placeholder",
        ),
        ("Kotlin", &["java", "kt"], "Kotlin guidance placeholder"),
        ("Container", &["docker", "podman", "dockerfile"], "Container technologies guidance placeholder"),
        (
            "SystemTool",
            &["system", "tool", "rg", "ripgrep", "eza", "fd", "fzf", "bat", "exa"],
            "System tools guidance placeholder",
        ),
    ];
    for (name, aliases, text) in table.iter() {
        reg.register(name.to_string(), strings(aliases), text.to_string());
    }
    reg
}

#[test]
fn python_alias_and_unknown_identifier() {
    let mut reg = Registry::new();
    reg.register("Python".to_string(), strings(&["py"]), "PY-GUIDE".to_string());
    let out = reg.compose("BASE", &strings(&["py", "unknownlang"]));
    assert_eq!(
        out,
        "BASE\n\n---\n\nPY-GUIDE\n\n---\n\nNote: No specific guidance available for language: 'unknownlang'."
    );
}

#[test]
fn canonical_names_resolve_in_lowercase() {
    let reg = sample_registry();
    assert!(reg.is_unambiguous());
    for id in 0..reg.len() {
        let lowered = reg.name(id).to_lowercase();
        assert_eq!(reg.resolve(&lowered), Some(id));
        assert_eq!(reg.resolve(reg.name(id)), Some(id));
    }
    assert_eq!(reg.resolve("systemtool"), Some(7));
    assert_eq!(reg.resolve("SYSTEMTOOL"), Some(7));
}

#[test]
fn aliases_resolve_in_any_casing() {
    let reg = sample_registry();
    assert_eq!(reg.resolve("py"), Some(1));
    assert_eq!(reg.resolve("PY"), Some(1));
    assert_eq!(reg.resolve("Py"), Some(1));
    assert_eq!(reg.resolve("GoLang"), Some(0));
    assert_eq!(reg.resolve("C++"), Some(3));
    assert_eq!(reg.resolve("Objective-C"), Some(3));
    assert_eq!(reg.resolve("TypeScript"), Some(4));
    assert_eq!(reg.resolve("JAVA"), Some(5));
    assert_eq!(reg.resolve("DockerFile"), Some(6));
    assert_eq!(reg.resolve("RipGrep"), Some(7));
    // The Kelvin sign lowercases to a plain 'k'.
    assert_eq!(reg.resolve("\u{212A}T"), Some(5));
}

#[test]
fn resolution_does_not_trim() {
    let reg = sample_registry();
    assert_eq!(reg.resolve(" rust"), None);
    assert_eq!(reg.resolve("rust "), None);
    assert_eq!(reg.resolve(""), None);
}

#[test]
fn resolve_lowered_compares_literally() {
    let reg = sample_registry();
    assert_eq!(reg.resolve_lowered("rust"), Some(2));
    assert_eq!(reg.resolve_lowered("rs"), Some(2));
    assert_eq!(reg.resolve_lowered("RUST"), None);
    assert_eq!(reg.resolve_lowered("Rust"), None);
}

#[test]
fn unregistered_identifier_gives_notice() {
    let reg = sample_registry();
    assert_eq!(reg.resolve("haskell"), None);
    let out = reg.compose("core", &strings(&["Haskell"]));
    assert_eq!(
        out,
        format!("core{}Note: No specific guidance available for language: 'Haskell'.", SEPARATOR)
    );
}

#[test]
fn notice_quotes_identifier_as_supplied() {
    assert_eq!(
        fallback_notice(" Zig "),
        "Note: No specific guidance available for language: ' Zig '."
    );
    let reg = sample_registry();
    assert_eq!(
        reg.section_for("ZIG"),
        "Note: No specific guidance available for language: 'ZIG'."
    );
    assert_eq!(reg.section_for("RS"), "Rust guidance placeholder");
}

#[test]
fn swapped_requests_swap_sections() {
    let reg = sample_registry();
    let ab = reg.compose("B", &strings(&["go", "docker"]));
    let ba = reg.compose("B", &strings(&["docker", "go"]));
    assert_eq!(
        ab,
        "B\n\n---\n\nGo guidance placeholder\n\n---\n\nContainer technologies guidance placeholder"
    );
    assert_eq!(
        ba,
        "B\n\n---\n\nContainer technologies guidance placeholder\n\n---\n\nGo guidance placeholder"
    );
}

#[test]
fn repeated_request_repeats_section() {
    let reg = sample_registry();
    let out = reg.compose("B", &strings(&["rust", "rust"]));
    assert_eq!(out.split("Rust guidance placeholder").count(), 3);
    assert_eq!(
        out,
        "B\n\n---\n\nRust guidance placeholder\n\n---\n\nRust guidance placeholder"
    );
}

#[test]
fn empty_request_is_base() {
    let reg = sample_registry();
    assert_eq!(reg.compose("BASE DOC", &Vec::new()), "BASE DOC");
    let empty = Registry::new();
    assert_eq!(empty.compose("x", &Vec::new()), "x");
}

#[test]
fn empty_registry_gives_notices() {
    let reg = Registry::new();
    assert_eq!(reg.len(), 0);
    assert_eq!(reg.resolve("rust"), None);
    assert_eq!(
        reg.compose("B", &strings(&["rust"])),
        "B\n\n---\n\nNote: No specific guidance available for language: 'rust'."
    );
}

#[test]
fn first_declared_category_wins() {
    let mut reg = Registry::new();
    reg.register("Shell".to_string(), strings(&["sh"]), "one".to_string());
    reg.register("Sh".to_string(), strings(&["bash"]), "two".to_string());
    assert!(!reg.is_unambiguous());
    assert_eq!(reg.resolve("SH"), Some(0));
    assert_eq!(reg.resolve("bash"), Some(1));
    assert_eq!(reg.compose("B", &strings(&["sh"])), "B\n\n---\n\none");
}

#[test]
fn shared_alias_is_ambiguous() {
    let mut reg = Registry::new();
    reg.register("Alpha".to_string(), strings(&["x"]), "a".to_string());
    reg.register("Beta".to_string(), strings(&["y", "x"]), "b".to_string());
    assert!(!reg.is_unambiguous());
    let mut ok = Registry::new();
    ok.register("Alpha".to_string(), strings(&["x", "x"]), "a".to_string());
    ok.register("Beta".to_string(), strings(&["y"]), "b".to_string());
    assert!(ok.is_unambiguous());
    assert!(Registry::new().is_unambiguous());
}

#[test]
fn registry_accessors() {
    let reg = sample_registry();
    assert_eq!(reg.len(), 8);
    assert_eq!(reg.name(4), "Web");
    assert_eq!(reg.guidance(6), "Container technologies guidance placeholder");
}

#[test]
fn materialize_is_repeatable() {
    let inline = ContentSource::Inline("PY-GUIDE".to_string());
    assert_eq!(inline.materialize(&Vec::new()), "PY-GUIDE");
    assert_eq!(inline.materialize(&Vec::new()), inline.materialize(&Vec::new()));

    let single = ContentSource::SingleFile("d-rust.md".to_string());
    let loaded = strings(&["rust doc"]);
    assert_eq!(single.materialize(&loaded), "rust doc");
    assert_eq!(single.materialize(&loaded), single.materialize(&loaded));

    let multi = ContentSource::MultiFile(strings(&["d-python.md", "d-python.py"]));
    let loaded = strings(&["md text", "py text"]);
    assert_eq!(multi.materialize(&loaded), "md text\n\n---\n\npy text");
    assert_eq!(multi.materialize(&loaded), multi.materialize(&loaded));
}

#[test]
fn source_paths() {
    assert!(ContentSource::Inline("t".to_string()).paths().is_empty());
    assert_eq!(ContentSource::SingleFile("a.md".to_string()).paths(), strings(&["a.md"]));
    assert_eq!(
        ContentSource::MultiFile(strings(&["a.md", "b.py"])).paths(),
        strings(&["a.md", "b.py"])
    );
    assert!(ContentSource::MultiFile(Vec::new()).paths().is_empty());
}

#[test]
fn joining_documents() {
    assert_eq!(join_documents(&Vec::new()), "");
    assert_eq!(join_documents(&strings(&["a"])), "a");
    assert_eq!(join_documents(&strings(&["a", "b", "c"])), "a\n\n---\n\nb\n\n---\n\nc");
    assert_eq!(join_documents(&strings(&["", "b"])), "b");
    assert_eq!(join_documents(&strings(&["a", "", "c"])), "a\n\n---\n\n\n\n---\n\nc");
    assert_eq!(ContentSource::MultiFile(Vec::new()).materialize(&Vec::new()), "");
}
