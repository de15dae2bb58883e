use archlens_parser::batch::Orchestrator;
use archlens_parser::engine::{parse_one, ParseRequest, ParseResponse};
use archlens_parser::registry::{BlockStyle, Registry, Visibility};
use archlens_parser::service::{ParserServiceImpl, MAX_IN_FLIGHT};
use archlens_parser::syntax::NodeKind;

fn request(id: &str, language: &str, content: &str) -> ParseRequest {
    ParseRequest {
        file_id: id.to_string(),
        file_path: format!("src/{}", id),
        language: language.to_string(),
        content: content.to_string(),
    }
}

fn metrics_of(r: &ParseResponse) -> (usize, usize, usize, usize, usize) {
    let m = r.metrics.as_ref().expect("metrics");
    (m.total_lines, m.code_lines, m.comment_lines, m.blank_lines, m.complexity)
}

const RUST_SAMPLE: &str = "use std::io;\n// comment\npub fn main() {\n    if x && y {\n        run();\n    }\n}\nfn helper() {}\n";

const PYTHON_SAMPLE: &str = "import os\nfrom x import y\n\nclass Foo:\n    def bar(self):\n        if a:\n            pass\n\ndef _private():\n    return 1\n";

#[test]
fn line_buckets_of_slash_comment_language() {
    let svc = ParserServiceImpl::new();
    let r = svc.parse_file(&request("a", "Rust", "a\n// c\n\n"));
    assert_eq!(metrics_of(&r), (3, 1, 1, 1, 1));
    assert!(r.error.is_empty());
}

#[test]
fn buckets_sum_to_total_lines() {
    let svc = ParserServiceImpl::new();
    for (lang, content) in [
        ("Rust", RUST_SAMPLE),
        ("Python", PYTHON_SAMPLE),
        ("Java", "/* a\n b */\n\nclass A {\n}\n"),
        ("Go", ""),
        ("TypeScript", "x\r\ny\n\n\n"),
    ] {
        let (t, code, comment, blank, _) = metrics_of(&svc.parse_file(&request("f", lang, content)));
        assert_eq!(code + comment + blank, t);
    }
}

#[test]
fn supported_languages_include_rust() {
    let langs = ParserServiceImpl::get_supported_languages_list();
    assert!(!langs.is_empty());
    let names: Vec<&str> = langs.iter().map(|l| l.name.as_str()).collect();
    assert_eq!(names, vec!["TypeScript", "JavaScript", "Python", "Rust", "Go", "Java"]);
    let rust = langs.iter().find(|l| l.name == "Rust").expect("Rust");
    assert!(rust.extensions.iter().any(|e| e == ".rs"));
    assert_eq!(rust.parser_version, "0.20.0");
    let again = ParserServiceImpl::new().get_supported_languages();
    let again_names: Vec<&str> = again.iter().map(|l| l.name.as_str()).collect();
    assert_eq!(names, again_names);
}

#[test]
fn batch_with_unsupported_language_isolates_failure() {
    let svc = ParserServiceImpl::new();
    let reqs = vec![
        request("1", "Rust", "fn a() {}\n"),
        request("2", "Cobol", "IDENTIFICATION DIVISION.\n"),
        request("3", "Python", "def b():\n    pass\n"),
    ];
    let out = svc.parse_batch(&reqs);
    assert_eq!(out.len(), 3);
    let second = out.iter().find(|r| r.file_id == "2").expect("response for 2");
    assert!(!second.error.is_empty());
    assert_eq!(second.error, "unsupported language: Cobol");
    assert!(second.root.is_none());
    assert!(second.metrics.is_none());
    let errors = out.iter().filter(|r| !r.error.is_empty()).count();
    assert_eq!(errors, 1);
    for r in out.iter().filter(|r| r.file_id != "2") {
        assert!(r.error.is_empty());
        assert!(r.root.is_some());
    }
}

#[test]
fn batch_ids_match_request_ids() {
    let svc = ParserServiceImpl::new();
    let reqs: Vec<ParseRequest> = (0..20)
        .map(|i| request(&format!("id{}", i), if i % 3 == 0 { "Go" } else { "Rust" }, "x\n"))
        .collect();
    let out = svc.parse_batch(&reqs);
    let mut got: Vec<String> = out.iter().map(|r| r.file_id.clone()).collect();
    let mut want: Vec<String> = reqs.iter().map(|r| r.file_id.clone()).collect();
    got.sort();
    want.sort();
    assert_eq!(got, want);
}

#[test]
fn single_file_and_single_batch_agree() {
    let svc = ParserServiceImpl::new();
    let req = request("one", "Rust", RUST_SAMPLE);
    let single = svc.parse_file(&req);
    let batch = svc.parse_batch(&vec![request("one", "Rust", RUST_SAMPLE)]);
    assert_eq!(batch.len(), 1);
    assert_eq!(format!("{:?}", tree_shape(&single)), format!("{:?}", tree_shape(&batch[0])));
    assert_eq!(metrics_of(&single), metrics_of(&batch[0]));
    assert_eq!(single.error, batch[0].error);
}

fn tree_shape(r: &ParseResponse) -> Vec<(NodeKind, String, usize, usize, usize)> {
    fn walk(n: &archlens_parser::syntax::SyntaxNode, depth: usize, out: &mut Vec<(NodeKind, String, usize, usize, usize)>) {
        out.push((n.kind, n.text.clone(), n.start_line, n.end_line, depth));
        for c in &n.children {
            walk(c, depth + 1, out);
        }
    }
    let mut out = Vec::new();
    if let Some(root) = &r.root {
        walk(root, 0, &mut out);
    }
    out
}

#[test]
fn parsing_twice_gives_identical_trees() {
    let svc = ParserServiceImpl::new();
    let a = svc.parse_file(&request("x", "Python", PYTHON_SAMPLE));
    let b = svc.parse_file(&request("y", "Python", PYTHON_SAMPLE));
    assert_eq!(tree_shape(&a), tree_shape(&b));
    assert_eq!(metrics_of(&a), metrics_of(&b));
}

#[test]
fn rust_tree_dependencies_and_exports() {
    let svc = ParserServiceImpl::new();
    let r = svc.parse_file(&request("r", "Rust", RUST_SAMPLE));
    assert_eq!(metrics_of(&r), (8, 7, 1, 0, 3));
    let root = r.root.as_ref().unwrap();
    assert_eq!(root.kind, NodeKind::Program);
    assert_eq!((root.start_line, root.end_line), (0, 8));
    let kinds: Vec<NodeKind> = root.children.iter().map(|c| c.kind).collect();
    assert_eq!(kinds, vec![NodeKind::Import, NodeKind::Function, NodeKind::Function]);
    let main = &root.children[1];
    assert_eq!(main.text, "pub fn main() {");
    assert_eq!((main.start_line, main.end_line), (2, 7));
    assert_eq!(main.children.len(), 2);
    assert_eq!(main.children[0].kind, NodeKind::Branch);
    assert_eq!((main.children[0].start_line, main.children[0].start_col, main.children[0].end_line), (3, 4, 6));
    assert_eq!(main.children[0].children.len(), 2);
    assert_eq!(r.dependencies.len(), 1);
    assert_eq!(r.dependencies[0].kind, "use");
    assert_eq!(r.dependencies[0].specifier, "std::io");
    assert_eq!(r.dependencies[0].line, 0);
    assert_eq!(r.exports.len(), 1);
    assert_eq!(r.exports[0].name, "main");
    assert_eq!(r.exports[0].kind, NodeKind::Function);
    assert_eq!((r.exports[0].start_line, r.exports[0].end_line), (2, 7));
}

#[test]
fn python_tree_follows_indentation() {
    let svc = ParserServiceImpl::new();
    let r = svc.parse_file(&request("p", "Python", PYTHON_SAMPLE));
    assert_eq!(metrics_of(&r), (10, 8, 0, 2, 2));
    let root = r.root.as_ref().unwrap();
    let kinds: Vec<NodeKind> = root.children.iter().map(|c| c.kind).collect();
    assert_eq!(kinds, vec![NodeKind::Import, NodeKind::Import, NodeKind::Type, NodeKind::Function]);
    assert_eq!(root.children[2].children[0].kind, NodeKind::Function);
    assert_eq!(root.children[2].end_line, 7);
    let deps: Vec<(String, String)> = r.dependencies.iter().map(|d| (d.kind.clone(), d.specifier.clone())).collect();
    assert_eq!(deps, vec![("import".to_string(), "os".to_string()), ("from".to_string(), "x import y".to_string())]);
    let names: Vec<&str> = r.exports.iter().map(|e| e.name.as_str()).collect();
    assert_eq!(names, vec!["Foo"]);
}

#[test]
fn comment_syntax_comes_from_the_language() {
    let svc = ParserServiceImpl::new();
    let py = svc.parse_file(&request("p", "Python", "# note\n// floor division\n"));
    assert_eq!(metrics_of(&py), (2, 1, 1, 0, 1));
    let rs = svc.parse_file(&request("r", "Rust", "# not a comment\n// note\n"));
    assert_eq!(metrics_of(&rs), (2, 1, 1, 0, 1));
}

#[test]
fn block_comments_and_trailing_code() {
    let svc = ParserServiceImpl::new();
    let r = svc.parse_file(&request("j", "Java", "/* header\n   more */\nint x = 1; // trailing\n/* a */ code();\n/* a */ // b\n"));
    assert_eq!(metrics_of(&r), (5, 2, 3, 0, 1));
}

#[test]
fn windows_line_endings_and_empty_content() {
    let svc = ParserServiceImpl::new();
    let r = svc.parse_file(&request("w", "Go", "a\r\n\r\n// c\r\n"));
    assert_eq!(metrics_of(&r), (3, 1, 1, 1, 1));
    let e = svc.parse_file(&request("e", "Go", ""));
    assert_eq!(metrics_of(&e), (0, 0, 0, 0, 1));
    assert_eq!(e.root.as_ref().unwrap().children.len(), 0);
}

#[test]
fn complexity_counts_branches() {
    let svc = ParserServiceImpl::new();
    let src = "function f(a) {\n  if (a) {\n    for (;;) {}\n  } else if (b) {\n  }\n  while (c) {}\n}\n";
    let r = svc.parse_file(&request("t", "JavaScript", src));
    assert_eq!(metrics_of(&r).4, 5);
    let ops = svc.parse_file(&request("o", "JavaScript", "const ok = a && b || c;
"));
    assert_eq!(metrics_of(&ops).4, 3);
    let py = svc.parse_file(&request("p", "Python", "if a and b or c:
    pass
"));
    assert_eq!(metrics_of(&py).4, 4);
}

#[test]
fn go_exports_capitalized_names() {
    let svc = ParserServiceImpl::new();
    let r = svc.parse_file(&request("g", "Go", "import \"fmt\"\nfunc Hello() {\n}\nfunc hidden() {\n}\ntype Point struct {\n}\n"));
    let names: Vec<&str> = r.exports.iter().map(|e| e.name.as_str()).collect();
    assert_eq!(names, vec!["Hello", "Point"]);
    assert_eq!(r.exports[1].kind, NodeKind::Type);
    assert_eq!(r.dependencies[0].specifier, "\"fmt\"");
}

#[test]
fn skeleton_elides_bodies() {
    let svc = ParserServiceImpl::new();
    let s = svc.extract_skeleton(&request("r", "Rust", RUST_SAMPLE));
    assert_eq!(s.file_id, "r");
    assert_eq!(s.skeleton, "pub fn main() { ... }\nfn helper() { ... }");
    assert_eq!(s.public_api, vec!["pub fn main()".to_string()]);
    let p = svc.extract_skeleton(&request("p", "Python", PYTHON_SAMPLE));
    assert_eq!(p.skeleton, "class Foo: ...\n    def bar(self): ...\ndef _private(): ...");
    assert_eq!(p.public_api, vec!["class Foo".to_string()]);
    let none = svc.extract_skeleton(&request("c", "Cobol", "X."));
    assert_eq!(none.error, "unsupported language: Cobol");
    assert!(s.error.is_empty());
    assert!(none.skeleton.is_empty());
    assert!(none.public_api.is_empty());
}

#[test]
fn registry_resolves_names_and_extensions() {
    let reg = Registry::standard();
    let rs = reg.resolve("Rust").expect("Rust");
    assert_eq!(rs.blocks, BlockStyle::Braces);
    assert_eq!(rs.visibility, Visibility::Marker);
    let py = reg.resolve_extension(".pyi").expect("pyi");
    assert_eq!(py.name, "Python".chars().collect::<Vec<char>>());
    assert!(reg.resolve("rust").is_none());
    assert!(reg.resolve_extension(".cob").is_none());
    let tsx = reg.resolve_extension(".tsx").expect("tsx");
    assert_eq!(tsx.name, "TypeScript".chars().collect::<Vec<char>>());
}

#[test]
fn registry_refuses_duplicate_names() {
    let mut reg = Registry::standard();
    let copy = Registry::standard();
    let mut extra = Registry::empty();
    assert!(reg.list_languages().len() == 6);
    let _ = copy;
    let go = archlens_parser::registry::GrammarAdapter {
        name: "Go".chars().collect(),
        extensions: vec![".go2".chars().collect()],
        version: "1".chars().collect(),
        comments: archlens_parser::lines::CommentSyntax { line: vec!['/', '/'], block_open: vec![], block_close: vec![] },
        blocks: BlockStyle::Braces,
        import_words: vec![],
        function_words: vec![],
        type_words: vec![],
        branch_words: vec![],
        branch_operators: vec![],
        prefix_words: vec![],
        public_words: vec![],
        visibility: Visibility::Capitalized,
    };
    let go_again = archlens_parser::registry::GrammarAdapter {
        name: "Go".chars().collect(),
        extensions: vec![],
        version: "2".chars().collect(),
        comments: archlens_parser::lines::CommentSyntax { line: vec![], block_open: vec![], block_close: vec![] },
        blocks: BlockStyle::Indentation,
        import_words: vec![],
        function_words: vec![],
        type_words: vec![],
        branch_words: vec![],
        branch_operators: vec![],
        prefix_words: vec![],
        public_words: vec![],
        visibility: Visibility::NoUnderscore,
    };
    assert!(extra.register(go));
    assert!(!extra.register(go_again));
    assert_eq!(extra.list_languages().len(), 1);
    assert_eq!(extra.list_languages()[0].parser_version, "1");
    assert!(!reg.register(archlens_parser::registry::GrammarAdapter {
        name: "Rust".chars().collect(),
        extensions: vec![],
        version: vec![],
        comments: archlens_parser::lines::CommentSyntax { line: vec![], block_open: vec![], block_close: vec![] },
        blocks: BlockStyle::Braces,
        import_words: vec![],
        function_words: vec![],
        type_words: vec![],
        branch_words: vec![],
        branch_operators: vec![],
        prefix_words: vec![],
        public_words: vec![],
        visibility: Visibility::Marker,
    }));
    assert_eq!(reg.list_languages().len(), 6);
}

#[test]
fn orchestrator_never_exceeds_its_bound() {
    let mut o = Orchestrator::new(2);
    let reqs: Vec<ParseRequest> = (0..5).map(|i| request(&format!("{}", i), "Rust", "x")).collect();
    let reg = Registry::standard();
    let mut next = 0;
    let mut pending: Vec<ParseResponse> = Vec::new();
    let mut emitted = Vec::new();
    while next < reqs.len() || !pending.is_empty() {
        if next < reqs.len() && o.has_slot() {
            o.dispatch(&reqs[next]);
            pending.push(parse_one(&reg, &reqs[next]));
            next += 1;
        } else {
            let r = pending.pop().unwrap();
            emitted.push(o.complete(r).expect("forwarded").file_id);
        }
        assert!(o.in_flight_len() <= 2);
    }
    o.close_input();
    assert!(o.is_done());
    emitted.sort();
    assert_eq!(emitted, vec!["0", "1", "2", "3", "4"]);
    assert!(MAX_IN_FLIGHT > 0);
}

#[test]
fn orchestrator_drops_unknown_and_cancelled_responses() {
    let reg = Registry::standard();
    let mut o = Orchestrator::new(1);
    let a = request("a", "Rust", "x");
    o.dispatch(&a);
    assert!(!o.has_slot());
    assert!(o.complete(parse_one(&reg, &request("zzz", "Rust", "x"))).is_none());
    assert_eq!(o.in_flight_len(), 1);
    o.cancel();
    assert!(!o.has_slot());
    assert!(o.complete(parse_one(&reg, &a)).is_none());
    assert_eq!(o.in_flight_len(), 0);
    assert!(o.is_done());
}

#[test]
fn malformed_input_gets_a_tree_and_a_diagnostic() {
    let svc = ParserServiceImpl::new();
    let open = svc.parse_file(&request("o", "Rust", "fn a() {\n    let x = 1;\n"));
    assert!(open.error.is_empty());
    assert!(open.root.is_some());
    let d = open.diagnostic.as_ref().expect("diagnostic");
    assert_eq!((d.line, d.col, d.message.as_str()), (1, 14, "unclosed block"));
    let stray = svc.parse_file(&request("s", "Go", "x := 1\n}\nfunc B() {}\n"));
    let d = stray.diagnostic.as_ref().expect("diagnostic");
    assert_eq!((d.line, d.col, d.message.as_str()), (1, 0, "unmatched closing brace"));
    assert_eq!(stray.exports.len(), 1);
    let fine = svc.parse_file(&request("f", "Rust", RUST_SAMPLE));
    assert!(fine.diagnostic.is_none());
    let py = svc.parse_file(&request("p", "Python", "def f(:\n"));
    assert!(py.diagnostic.is_none());
    let bad = svc.parse_file(&request("c", "Cobol", "}\n"));
    assert!(bad.diagnostic.is_none());
}

#[test]
fn block_comments_anywhere_on_a_line() {
    let svc = ParserServiceImpl::new();
    let r = svc.parse_file(&request("b", "Rust", "x; /* a\nb */\n/* a */ /* b */\n/* a */ y\n"));
    assert_eq!(metrics_of(&r), (4, 2, 2, 0, 1));
    let t = svc.parse_file(&request("c", "Rust", "a // c\n/* c */\nfn f() {}\n"));
    assert_eq!(metrics_of(&t), (3, 2, 1, 0, 1));
}

#[test]
fn unicode_whitespace_lines_are_blank() {
    let svc = ParserServiceImpl::new();
    let r = svc.parse_file(&request("u", "Go", "\u{a0}\u{3000}\nx\n\u{2003}// c\n"));
    assert_eq!(metrics_of(&r), (3, 1, 1, 1, 1));
}

#[test]
fn skeleton_descends_through_nested_types() {
    let svc = ParserServiceImpl::new();
    let src = "pub mod m {\n    impl A {\n        pub fn f(&self) { self.g(); }\n    }\n}\npub fn h() -> u8 { 1 }\n";
    let s = svc.extract_skeleton(&request("n", "Rust", src));
    assert_eq!(s.skeleton, "pub mod m { ... }\n    impl A { ... }\n        pub fn f(&self) { ... }\npub fn h() -> u8 { ... }");
    assert_eq!(s.public_api, vec!["pub mod m".to_string(), "pub fn h() -> u8".to_string()]);
}

#[test]
fn java_methods_are_declarations() {
    let svc = ParserServiceImpl::new();
    let src = "public class A {\n    public static void main(String[] args) {\n    }\n}\n";
    let r = svc.parse_file(&request("j", "Java", src));
    let root = r.root.as_ref().unwrap();
    assert_eq!(root.children[0].kind, NodeKind::Type);
    assert_eq!(root.children[0].children[0].kind, NodeKind::Function);
    assert_eq!(r.exports[0].name, "A");
}

#[test]
fn standard_languages_have_dotted_extensions_and_one_version() {
    let langs = ParserServiceImpl::get_supported_languages_list();
    let ts = langs.iter().find(|l| l.name == "TypeScript").unwrap();
    assert_eq!(ts.extensions, vec![".ts".to_string(), ".tsx".to_string()]);
    for l in &langs {
        assert_eq!(l.parser_version, "0.20.0");
        assert!(l.extensions.iter().all(|e| e.starts_with('.')));
    }
}

#[test]
fn operators_inside_strings_do_not_branch() {
    let svc = ParserServiceImpl::new();
    let r = svc.parse_file(&request("s", "JavaScript", "const s = \"a && \\\" || b\" && c;\n"));
    assert_eq!(metrics_of(&r).4, 2);
}

#[test]
fn python_one_line_bodies_are_elided() {
    let svc = ParserServiceImpl::new();
    let s = svc.extract_skeleton(&request("p", "Python", "def f(x: int = 1) -> dict[str, int]: return {\"a:\": x}\nclass C: pass\n"));
    assert_eq!(s.skeleton, "def f(x: int = 1) -> dict[str, int]: ...\nclass C: ...");
    assert_eq!(s.public_api, vec!["def f(x: int = 1) -> dict[str, int]".to_string(), "class C".to_string()]);
}

#[test]
fn comment_openers_inside_strings_are_code() {
    let svc = ParserServiceImpl::new();
    let a = "fn f() {\n    let s = \"x\";\n}\npub fn g() {\n}\n// */ }\n";
    let b = "fn f() {\n    let s = \"/*\";\n}\npub fn g() {\n}\n// */ }\n";
    let sa = svc.extract_skeleton(&request("a", "Rust", a));
    let sb = svc.extract_skeleton(&request("b", "Rust", b));
    assert_eq!(sa.skeleton, "fn f() { ... }\npub fn g() { ... }");
    assert_eq!(sa.skeleton, sb.skeleton);
    assert_eq!(sa.public_api, sb.public_api);
    let rb = svc.parse_file(&request("b", "Rust", b));
    assert_eq!(metrics_of(&rb), (6, 5, 1, 0, 1));
}

#[test]
fn braces_inside_strings_do_not_nest() {
    let svc = ParserServiceImpl::new();
    let src = "fn f() {\n    let s = \"{\";\n}\npub fn g() {\n}\n";
    let r = svc.parse_file(&request("r", "Rust", src));
    assert!(r.diagnostic.is_none());
    let root = r.root.as_ref().unwrap();
    assert_eq!(root.children.len(), 2);
    assert_eq!(r.exports[0].name, "g");
}

#[test]
fn java_methods_with_primitive_returns_are_declarations() {
    let svc = ParserServiceImpl::new();
    let src = "public class A {\n    public int size() {\n        return 0;\n    }\n}\n";
    let s = svc.extract_skeleton(&request("j", "Java", src));
    assert_eq!(s.skeleton, "public class A { ... }\n    public int size() { ... }");
}

#[test]
fn rust_match_is_a_branch() {
    let svc = ParserServiceImpl::new();
    let r = svc.parse_file(&request("m", "Rust", "fn f(x: u8) {\n    match x {\n        _ => {}\n    }\n}\n"));
    assert_eq!(metrics_of(&r).4, 2);
}
