use regex::Regex;
use repolog::language::Language;
use repolog::source::SourceFile;
use repolog::title::{
    add_titles, ensure_title, generate_title, has_title, insert_title, word_char,
};

fn file(path: &str, content: &str) -> SourceFile {
    SourceFile { path: path.to_string(), content: content.to_string() }
}

/// The content of a file after one run of the title step.
fn run(content: &str, path: &str, lang: Language, base: &str) -> String {
    match ensure_title(content, path, lang, base) {
        Some(new_content) => new_content,
        None => content.to_string(),
    }
}

#[test]
fn title_of_nested_file_is_its_dotted_path() {
    assert_eq!(generate_title("./src/foo/bar.rs", Language::Rust, "."), "// src.foo.bar");
}

#[test]
fn title_uses_the_comment_symbol_of_the_language() {
    assert_eq!(generate_title("./pkg/mod.py", Language::Python, "."), "# pkg.mod");
    assert_eq!(generate_title("./pkg/mod.py", Language::Rust, "."), "// pkg.mod");
}

#[test]
fn title_of_a_path_outside_the_base_uses_the_whole_path() {
    assert_eq!(generate_title("src/foo/bar.rs", Language::Rust, "."), "// src.foo.bar");
    assert_eq!(generate_title("/abs/dir/x.py", Language::Python, "."), "# .abs.dir.x");
    assert_eq!(generate_title("../up/x.rs", Language::Rust, "."), "// ...up.x");
    assert_eq!(generate_title("crate/src/x.rs", Language::Rust, "other"), "// crate.src.x");
}

#[test]
fn title_is_relative_to_the_base() {
    assert_eq!(generate_title("crate/src/x.rs", Language::Rust, "crate"), "// src.x");
    assert_eq!(generate_title("crate/src/x.rs", Language::Rust, "crate/"), "// src.x");
    assert_eq!(generate_title("crate/src/x.rs", Language::Rust, "crate/src"), "// x");
    assert_eq!(generate_title("C:\\work\\a\\b.rs", Language::Rust, "C:\\work"), "// a.b");
}

#[test]
fn title_strips_the_last_extension_only() {
    assert_eq!(generate_title("./a.b/c.d.py", Language::Python, "."), "# a.b.c.d");
    assert_eq!(generate_title("./Makefile", Language::Python, "."), "# Makefile");
    assert_eq!(generate_title("./.hidden", Language::Python, "."), "# .hidden");
    assert_eq!(generate_title("", Language::Python, "."), "# ");
}

#[test]
fn title_is_the_same_for_the_same_input() {
    let first = generate_title("./src/a/b.rs", Language::Rust, ".");
    let second = generate_title("./src/a/b.rs", Language::Rust, ".");
    assert_eq!(first, second);
    assert_eq!(first, "// src.a.b");
}

#[test]
fn titled_content_is_detected() {
    assert!(has_title("// src.foo.bar\n\nfn main() {}", Language::Rust));
}

#[test]
fn plain_comment_is_no_title() {
    assert!(!has_title("// just a comment\nfn main() {}", Language::Rust));
}

#[test]
fn title_is_looked_for_on_the_first_line_only() {
    assert!(!has_title("fn main() {}\n// src.foo.bar\n", Language::Rust));
    assert!(!has_title("\n// src.foo.bar\n", Language::Rust));
    assert!(!has_title("//\nsrc.foo.bar\n", Language::Rust));
    assert!(!has_title("// src\n.foo", Language::Rust));
    assert!(!has_title("// src.\nfoo", Language::Rust));
    assert!(has_title("// a.b", Language::Rust));
    assert!(has_title("// a.b\n", Language::Rust));
    assert!(has_title("// a.b\r\nrest", Language::Rust));
}

#[test]
fn title_needs_the_comment_symbol_of_the_language_at_the_start() {
    assert!(has_title("# pkg.mod\n", Language::Python));
    assert!(!has_title("# pkg.mod\n", Language::Rust));
    assert!(!has_title("// pkg.mod\n", Language::Python));
    assert!(!has_title(" // pkg.mod\n", Language::Rust));
    assert!(!has_title("/ / pkg.mod\n", Language::Rust));
    assert!(!has_title("/pkg.mod\n", Language::Rust));
    assert!(!has_title("src.foo.bar\n", Language::Rust));
    assert!(!has_title("", Language::Rust));
    assert!(!has_title("", Language::Python));
    assert!(!has_title("#", Language::Python));
    assert!(!has_title("//", Language::Rust));
}

#[test]
fn dotted_name_may_stand_anywhere_behind_the_symbol() {
    assert!(has_title("//a.b", Language::Rust));
    assert!(has_title("#a.b", Language::Python));
    assert!(has_title("/// see README.md before you go on", Language::Rust));
    assert!(has_title("#!/usr/bin/env python3.11", Language::Python));
    assert!(has_title("// x = foo.bar();", Language::Rust));
    assert!(has_title("// _._", Language::Rust));
    assert!(has_title("// 1.0", Language::Rust));
    assert!(has_title("// \u{e9}a.b\u{e9}", Language::Rust));
}

#[test]
fn dot_must_join_two_words() {
    assert!(!has_title("// a. b", Language::Rust));
    assert!(!has_title("// a .b", Language::Rust));
    assert!(!has_title("// .a", Language::Rust));
    assert!(!has_title("// a.", Language::Rust));
    assert!(!has_title("// ...", Language::Rust));
    assert!(!has_title("// a-b", Language::Rust));
    assert!(!has_title("// \u{e9}.\u{e9}", Language::Rust));
    assert!(!has_title("// a.\u{e9}", Language::Rust));
    assert!(!has_title("//.a", Language::Rust));
    assert!(!has_title("#.a.", Language::Python));
    assert!(!has_title("// main", Language::Rust));
}

#[test]
fn word_characters_are_ascii_letters_digits_and_underscore() {
    for c in ['a', 'm', 'z', 'A', 'M', 'Z', '0', '5', '9', '_'] {
        assert!(word_char(c), "{:?}", c);
    }
    for c in ['.', '-', ' ', '/', '\n', '`', '{', '@', '[', ':', '\u{e9}', '\u{4e2d}'] {
        assert!(!word_char(c), "{:?}", c);
    }
}

#[test]
fn detection_agrees_with_the_title_patterns() {
    let rust = Regex::new(r"^//.*[a-zA-Z0-9_]+(\.[a-zA-Z0-9_]+)+").unwrap();
    let python = Regex::new(r"^#.*[a-zA-Z0-9_]+(\.[a-zA-Z0-9_]+)+").unwrap();
    let bodies = [
        "",
        " ",
        "a.b",
        " a.b",
        " src.foo.bar\n\nfn main() {}",
        " just a comment\nfn main() {}",
        ".a",
        "a.",
        "a..b",
        "a.b.",
        ".a.b",
        "a .b",
        "a. b",
        "\na.b",
        "a\n.b",
        "a.\nb",
        "\r\na.b",
        " a.b\r\n",
        "\ta_1.B2\t",
        " \u{e9}.\u{e9}",
        " x\u{e9}.\u{e9}y",
        " \u{4e2d}a.b\u{6587}",
        "/ a.b",
        "# a.b",
        "! see README.md",
        " 1.0",
        " _._",
        " -.-",
        " a-b.c-d",
        " ....a.b....",
        " main",
    ];
    for opening in ["//", "#", "/", " //", " #", "", "///", "##", "\n//", "\n#"] {
        for body in bodies {
            let content = format!("{}{}", opening, body);
            assert_eq!(
                has_title(&content, Language::Rust),
                rust.is_match(&content),
                "{:?}",
                content
            );
            assert_eq!(
                has_title(&content, Language::Python),
                python.is_match(&content),
                "{:?}",
                content
            );
        }
    }
}

#[test]
fn title_is_inserted_with_one_blank_line() {
    assert_eq!(
        ensure_title("fn main() {}\n", "./src/foo/bar.rs", Language::Rust, "."),
        Some("// src.foo.bar\n\nfn main() {}\n".to_string())
    );
    assert_eq!(
        ensure_title("", "./pkg/mod.py", Language::Python, "."),
        Some("# pkg.mod\n\n".to_string())
    );
    assert_eq!(
        ensure_title("// just a comment\nfn main() {}", "./a/b.rs", Language::Rust, "."),
        Some("// a.b\n\n// just a comment\nfn main() {}".to_string())
    );
}

#[test]
fn insert_title_puts_title_and_blank_line_first() {
    assert_eq!(insert_title("x = 1\n", "# a.b"), "# a.b\n\nx = 1\n");
    assert_eq!(insert_title("", ""), "\n\n");
}

#[test]
fn titled_file_is_left_alone() {
    assert_eq!(
        ensure_title("// src.foo.bar\n\nfn main() {}", "./src/foo/bar.rs", Language::Rust, "."),
        None
    );
    assert_eq!(
        ensure_title("// other.name\nfn main() {}", "./src/foo/bar.rs", Language::Rust, "."),
        None
    );
    assert_eq!(ensure_title("#!/usr/bin/python3.9\n", "./x/y.py", Language::Python, "."), None);
}

#[test]
fn second_run_changes_nothing() {
    for (content, path, lang) in [
        ("fn main() {}\n", "./src/foo/bar.rs", Language::Rust),
        ("", "./src/lib.rs", Language::Rust),
        ("# plain comment\nprint(1)\n", "./pkg/sub/mod.py", Language::Python),
        ("// src.foo.bar\n\nfn main() {}", "./src/foo/bar.rs", Language::Rust),
        ("// src.foo.bar\n\nfn main() {}", "./main.rs", Language::Rust),
        ("print(1)\n", "./a.b.py", Language::Python),
    ] {
        let once = run(content, path, lang, ".");
        let twice = run(&once, path, lang, ".");
        assert_eq!(twice, once, "{:?}", path);
        assert_eq!(ensure_title(&once, path, lang, "."), None);
    }
}

#[test]
fn title_without_a_dotted_name_is_inserted_again() {
    let once = run("fn main() {}\n", "./main.rs", Language::Rust, ".");
    assert_eq!(once, "// main\n\nfn main() {}\n");
    assert!(!has_title(&once, Language::Rust));
    assert_eq!(run(&once, "./main.rs", Language::Rust, "."), "// main\n\n// main\n\nfn main() {}\n");
}

#[test]
fn add_titles_gives_new_content_for_untitled_sources_only() {
    let files = vec![
        file("./src/a/b.rs", "fn b() {}\n"),
        file("./src/a/c.rs", "// src.a.c\n\nfn c() {}\n"),
        file("./src/a/d.py", "print(1)\n"),
        file("./README.md", "hello\n"),
        file("./main.rs", ""),
    ];
    let outcomes = add_titles("rust", &files, ".").unwrap();
    assert_eq!(
        outcomes,
        vec![
            Some("// src.a.b\n\nfn b() {}\n".to_string()),
            None,
            None,
            None,
            Some("// main\n\n".to_string()),
        ]
    );
    let outcomes = add_titles("python", &files, "./src").unwrap();
    assert_eq!(outcomes, vec![None, None, Some("# a.d\n\nprint(1)\n".to_string()), None, None]);
}

#[test]
fn add_titles_of_no_files_gives_no_outcomes() {
    assert_eq!(add_titles("rust", &Vec::new(), ".").unwrap(), Vec::<Option<String>>::new());
}

#[test]
fn add_titles_rejects_an_unknown_language() {
    let files = vec![file("./src/a/b.rs", "fn b() {}\n")];
    let err = add_titles("java", &files, ".").unwrap_err();
    assert_eq!(err.identifier, "java");
    assert_eq!(add_titles("", &Vec::new(), ".").unwrap_err().identifier, "");
}

#[test]
fn long_contents_are_handled() {
    let words = "word ".repeat(100_000);
    let untitled = format!("// {}\n{}", words, "x.y\n".repeat(1000));
    assert!(!has_title(&untitled, Language::Rust));
    let titled = format!("// {}a.b\n", words);
    assert!(has_title(&titled, Language::Rust));
    let new_content = ensure_title(&untitled, "./deep/in/the/tree.rs", Language::Rust, ".").unwrap();
    assert_eq!(new_content.len(), untitled.len() + "// deep.in.the.tree\n\n".len());
    assert!(new_content.starts_with("// deep.in.the.tree\n\n// word word "));
    assert!(new_content.ends_with("x.y\nx.y\n"));
}
