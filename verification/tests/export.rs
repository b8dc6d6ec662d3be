use repolog::export::{append_file_to_output, export_files, generate_file_header};
use repolog::language::Language;
use repolog::source::SourceFile;

fn file(path: &str, content: &str) -> SourceFile {
    SourceFile { path: path.to_string(), content: content.to_string() }
}

const RULE: &str = "============================================================";

#[test]
fn rule_has_sixty_signs() {
    assert_eq!(RULE.len(), 60);
    let header = generate_file_header("x", Language::Python);
    let first = header.lines().next().unwrap();
    assert_eq!(first.len(), 62);
    assert_eq!(first.matches('=').count(), 60);
}

#[test]
fn header_has_three_lines() {
    assert_eq!(
        generate_file_header("src/main.rs", Language::Rust),
        format!("// {}\n// File: src/main.rs\n// {}", RULE, RULE)
    );
    assert_eq!(
        generate_file_header("a.py", Language::Python),
        "# ============================================================\n\
         # File: a.py\n\
         # ============================================================"
    );
    assert_eq!(generate_file_header("", Language::Python), format!("# {}\n# File: \n# {}", RULE, RULE));
}

#[test]
fn export_of_one_python_file_is_exact() {
    let files = vec![file("a.py", "print(1)\n")];
    assert_eq!(
        export_files("python", &files).unwrap(),
        "# ============================================================\n\
         # File: a.py\n\
         # ============================================================\n\
         print(1)\n\
         \n\
         \n"
    );
}

#[test]
fn content_without_final_newline_gets_one_and_a_blank_line() {
    let files = vec![file("a.py", "print(1)")];
    assert_eq!(
        export_files("python", &files).unwrap(),
        format!("# {}\n# File: a.py\n# {}\nprint(1)\n\n", RULE, RULE)
    );
}

#[test]
fn export_of_no_files_is_empty() {
    assert_eq!(export_files("rust", &Vec::new()).unwrap(), "");
    assert_eq!(export_files("python", &Vec::new()).unwrap(), "");
}

#[test]
fn export_without_matching_files_is_empty() {
    let files = vec![file("a.py", "print(1)\n"), file("README.md", "text"), file("rs", "x")];
    assert_eq!(export_files("rust", &files).unwrap(), "");
}

#[test]
fn export_keeps_the_order_of_the_files() {
    let files = vec![file("z.rs", "z\n"), file("skip.py", "no\n"), file("a.rs", "a\n")];
    assert_eq!(
        export_files("rust", &files).unwrap(),
        format!(
            "// {r}\n// File: z.rs\n// {r}\nz\n\n\n// {r}\n// File: a.rs\n// {r}\na\n\n\n",
            r = RULE
        )
    );
}

#[test]
fn export_is_the_blocks_in_a_row() {
    let files = vec![file("./m/a.py", "a = 1\n"), file("./m/b.py", ""), file("./m/c.py", "\n")];
    let mut expected = String::new();
    for f in &files {
        append_file_to_output(&mut expected, &f.path, &f.content, Language::Python);
    }
    assert_eq!(export_files("python", &files).unwrap(), expected);
    assert_eq!(expected.matches("# File: ").count(), 3);
}

#[test]
fn append_adds_behind_what_is_there() {
    let mut output = String::from("before");
    append_file_to_output(&mut output, "lib.rs", "mod a;", Language::Rust);
    assert_eq!(output, format!("before// {r}\n// File: lib.rs\n// {r}\nmod a;\n\n", r = RULE));
}

#[test]
fn export_rejects_an_unknown_language() {
    let files = vec![file("A.java", "class A {}")];
    let err = export_files("java", &files).unwrap_err();
    assert_eq!(err.identifier, "java");
    assert_eq!(err.message(), "Unsupported language: java");
    assert!(export_files("Rust", &Vec::new()).is_err());
}
