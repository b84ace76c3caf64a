use code_indexer::indexer::symbols::{extract_symbols, is_symbol_line};

#[test]
fn rust_symbol_lines() {
    assert!(is_symbol_line("fn main() {", "rs"));
    assert!(is_symbol_line("   pub struct Foo;", "rs"));
    assert!(is_symbol_line("impl Foo {", "rs"));
    assert!(!is_symbol_line("let x = 1;", "rs"));
    assert!(!is_symbol_line("", "rs"));
    assert!(!is_symbol_line("    ", "rs"));
}

#[test]
fn python_and_go_symbol_lines() {
    assert!(is_symbol_line("def f(x):", "py"));
    assert!(is_symbol_line("async def g():", "py"));
    assert!(is_symbol_line("class A:", "py"));
    assert!(!is_symbol_line("return x", "py"));
    assert!(is_symbol_line("func main() {", "go"));
    assert!(is_symbol_line("type T struct {", "go"));
    assert!(is_symbol_line("interface I {", "go"));
}

#[test]
fn java_like_symbols_use_contains_for_class() {
    assert!(is_symbol_line("abstract class Foo {", "java"));
    assert!(!is_symbol_line("class Foo {", "java"));
    assert!(is_symbol_line("public void run() {", "kt"));
    assert!(is_symbol_line("private int x;", "cs"));
}

#[test]
fn script_symbols() {
    assert!(is_symbol_line("export default function foo() {", "ts"));
    assert!(is_symbol_line("let a = b; const c = 1;", "js"));
    assert!(is_symbol_line("import x from 'y'", "vue"));
    assert!(!is_symbol_line("  x = 1", "tsx"));
}

#[test]
fn c_family_symbols() {
    assert!(is_symbol_line("void f(void) {", "c"));
    assert!(is_symbol_line("int main() {", "cpp"));
    assert!(is_symbol_line("struct s {", "h"));
    assert!(!is_symbol_line("return 0;", "hpp"));
}

#[test]
fn unlisted_languages_have_no_symbol_lines() {
    assert!(!is_symbol_line("def f():", "rb"));
    assert!(!is_symbol_line("fn main()", "md"));
}

#[test]
fn long_lines_are_not_symbols() {
    let long = format!("fn {}", "a".repeat(97));
    assert_eq!(long.len(), 100);
    assert!(is_symbol_line(&long, "rs"));
    let too_long = format!("fn {}", "a".repeat(98));
    assert!(!is_symbol_line(&too_long, "rs"));
    // 100 bytes is the limit, not 100 characters
    let wide = format!("fn {}", "é".repeat(49));
    assert_eq!(wide.chars().count(), 52);
    assert!(!is_symbol_line(&wide, "rs"));
}

#[test]
fn extract_symbols_known_extension() {
    let content = "use std::io;\n\npub fn a() {}\n  fn b() {}\r\nlet c = 1;\nstruct D;";
    assert_eq!(
        extract_symbols(content, "rs"),
        vec!["pub fn a() {}".to_string(), "fn b() {}".to_string(), "struct D;".to_string()]
    );
}

#[test]
fn extract_symbols_generic_extension() {
    let content = "import os\nfunction f() {}\nfunc g()\n  class X\nvoid h()\n";
    assert_eq!(
        extract_symbols(content, "txt"),
        vec![
            "import os".to_string(),
            "function f() {}".to_string(),
            "func g()".to_string(),
            "class X".to_string()
        ]
    );
}

#[test]
fn extract_symbols_code_extension_without_patterns() {
    // "rb" is a known source extension with no keywords of its own
    assert!(extract_symbols("def f\nclass A\n", "rb").is_empty());
    // "md" is not a source extension: the generic keywords apply
    assert_eq!(extract_symbols("# title\nimport x\n", "md"), vec!["import x".to_string()]);
}

#[test]
fn extract_symbols_of_empty_content() {
    assert!(extract_symbols("", "rs").is_empty());
    assert!(extract_symbols("\n\n", "py").is_empty());
}

#[test]
fn symbols_agree_with_is_symbol_line() {
    let content = "  fn a() {}\nlet x = 1;\n\tpub enum E {}\nimpl X for Y {\n";
    let expected: Vec<String> = content
        .lines()
        .filter(|l| is_symbol_line(l, "rs"))
        .map(|l| l.trim().to_string())
        .collect();
    assert_eq!(extract_symbols(content, "rs"), expected);
    for s in extract_symbols(content, "rs") {
        assert_eq!(s.trim(), s);
    }
}

#[test]
fn extracting_symbols_twice_gives_the_same() {
    let content = "  fn alpha() {\r\n    let x = 1;\n\tpub struct Beta;  \n\nimpl Gamma for Beta {}\r\n";
    let first = extract_symbols(content, "rs");
    assert_eq!(first, vec!["fn alpha() {", "pub struct Beta;", "impl Gamma for Beta {}"]);
    let second = extract_symbols(&first.join("\n"), "rs");
    assert_eq!(second, first);
    let generic = extract_symbols("  def f():\n  x\nimport y  \r\n", "txt");
    assert_eq!(extract_symbols(&generic.join("\n"), "txt"), generic);
}
