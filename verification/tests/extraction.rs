use direct_decl::decls::Decls;
use direct_decl::decls::RawDecls;
use direct_decl::env::ParserEnv;
use direct_decl::extract::decls_of_scan;
use direct_decl::extract::parse_decls;
use direct_decl::extract::DeclParser;
use direct_decl::extract::ScanOutput;
use direct_decl::mode::Mode;
use direct_decl::mode::ParseMode;
use direct_decl::source::Prefix;
use direct_decl::source::RelativePath;
use direct_decl::source::SourceText;
use direct_decl::table::DeclTable;
use std::cell::RefCell;

/// A scanner for a language of one declaration per line, which keeps as
/// payload the line itself. It notes what it was called with.
struct LineParser {
    seen_env: RefCell<Option<ParserEnv>>,
    seen_path: RefCell<Option<RelativePath>>,
}

impl LineParser {
    fn new() -> Self {
        LineParser { seen_env: RefCell::new(None), seen_path: RefCell::new(None) }
    }
}

fn name_after(line: &str, keyword: &str) -> Option<String> {
    let rest = line.strip_prefix(keyword)?;
    let name: String =
        rest.chars().take_while(|c| c.is_alphanumeric() || *c == '_' || *c == '\\').collect();
    if name.is_empty() {
        None
    } else {
        Some(name)
    }
}

impl DeclParser for LineParser {
    type Class = String;
    type Fun = String;
    type Typedef = String;
    type Const = String;

    fn parse_mode(&self, text: &SourceText) -> Option<Mode> {
        let header = text.text.strip_prefix(b"<?hh")?;
        let line = header.split(|byte| *byte == b'\n').next()?;
        if line == b" // experimental" {
            Some(Mode::Mexperimental)
        } else if line == b" // strict" {
            Some(Mode::Mstrict)
        } else if line == b" // decl" {
            Some(Mode::Mdecl)
        } else {
            Some(Mode::Mpartial)
        }
    }

    fn parse_script(
        &self,
        text: &SourceText,
        env: ParserEnv,
    ) -> ScanOutput<String, String, String, String> {
        *self.seen_env.borrow_mut() = Some(env);
        *self.seen_path.borrow_mut() = Some(RelativePath {
            prefix: text.file_path.prefix,
            path: text.file_path.path.clone(),
        });
        let mut decls =
            RawDecls { classes: Vec::new(), funs: Vec::new(), typedefs: Vec::new(), consts: Vec::new() };
        let mut errors = Vec::new();
        let text = match std::str::from_utf8(text.text) {
            Ok(text) => text,
            Err(_) => {
                return ScanOutput { root: Err("the text is not UTF-8".to_string()), errors, decls }
            }
        };
        for line in text.lines() {
            let line = line.trim();
            if line.is_empty() || line.starts_with("<?hh") {
                continue;
            }
            if let Some(name) = name_after(line, "class ") {
                decls.classes.push((name, line.to_string()));
            } else if let Some(name) = name_after(line, "function ") {
                decls.funs.push((name, line.to_string()));
            } else if let Some(name) = name_after(line, "type ") {
                decls.typedefs.push((name, line.to_string()));
            } else if let Some(name) = name_after(line, "const ") {
                decls.consts.push((name, line.to_string()));
            } else {
                errors.push(format!("cannot read: {}", line));
            }
        }
        ScanOutput { root: Ok(()), errors, decls }
    }
}

/// A scanner that gives up on every text, after it has come by a
/// declaration.
struct FailingParser;

impl DeclParser for FailingParser {
    type Class = String;
    type Fun = String;
    type Typedef = String;
    type Const = String;

    fn parse_mode(&self, _text: &SourceText) -> Option<Mode> {
        None
    }

    fn parse_script(
        &self,
        _text: &SourceText,
        _env: ParserEnv,
    ) -> ScanOutput<String, String, String, String> {
        ScanOutput {
            root: Err("unterminated token at offset 0".to_string()),
            errors: vec!["unterminated token".to_string()],
            decls: RawDecls {
                classes: vec![("Half".to_string(), "class Half".to_string())],
                funs: Vec::new(),
                typedefs: Vec::new(),
                consts: Vec::new(),
            },
        }
    }
}

fn path(name: &str) -> RelativePath {
    RelativePath { prefix: Prefix::Root, path: name.to_string() }
}

fn entries_of(table: &DeclTable<String>) -> Vec<(String, String)> {
    let mut all = Vec::new();
    let mut i: usize = 0;
    while let Some((name, payload)) = table.entry_at(i) {
        all.push((name.clone(), payload.clone()));
        i += 1;
    }
    all
}

fn all_entries(decls: &Decls<String, String, String, String>) -> Vec<Vec<(String, String)>> {
    vec![
        entries_of(&decls.classes),
        entries_of(&decls.funs),
        entries_of(&decls.typedefs),
        entries_of(&decls.consts),
    ]
}

fn pairs(entries: &[(&str, &str)]) -> Vec<(String, String)> {
    entries.iter().map(|(name, payload)| (name.to_string(), payload.to_string())).collect()
}

#[test]
fn two_definitions_of_one_function_leave_the_second() {
    let text = "function f() {}\nfunction f() { return 1; }\n";
    let decls = parse_decls(&LineParser::new(), path("f.php"), text).unwrap();
    assert_eq!(entries_of(&decls.funs), pairs(&[("f", "function f() { return 1; }")]));
    assert!(decls.classes.is_empty());
    assert!(decls.typedefs.is_empty());
    assert!(decls.consts.is_empty());
}

#[test]
fn every_kind_gets_its_own_table() {
    let text = "const MAX = 3;\nclass B {}\ntype Id = int;\nfunction g() {}\nclass A {}\nfunction f() {}\n";
    let decls = parse_decls(&LineParser::new(), path("all.php"), text).unwrap();
    assert_eq!(entries_of(&decls.classes), pairs(&[("A", "class A {}"), ("B", "class B {}")]));
    assert_eq!(
        entries_of(&decls.funs),
        pairs(&[("f", "function f() {}"), ("g", "function g() {}")])
    );
    assert_eq!(entries_of(&decls.typedefs), pairs(&[("Id", "type Id = int;")]));
    assert_eq!(entries_of(&decls.consts), pairs(&[("MAX", "const MAX = 3;")]));
}

#[test]
fn a_class_and_a_function_may_share_a_name() {
    let text = "class Foo {}\nfunction Foo() {}\n";
    let decls = parse_decls(&LineParser::new(), path("foo.php"), text).unwrap();
    assert_eq!(decls.classes.get("Foo").map(|d| d.as_str()), Some("class Foo {}"));
    assert_eq!(decls.funs.get("Foo").map(|d| d.as_str()), Some("function Foo() {}"));
    assert_eq!(decls.classes.len(), 1);
    assert_eq!(decls.funs.len(), 1);
    assert!(decls.typedefs.is_empty());
    assert!(decls.consts.is_empty());
}

#[test]
fn a_duplicate_in_one_kind_leaves_the_other_kinds_alone() {
    let text = "class Foo { one }\nfunction Foo() { one }\nclass Foo { two }\n";
    let decls = parse_decls(&LineParser::new(), path("foo.php"), text).unwrap();
    assert_eq!(entries_of(&decls.classes), pairs(&[("Foo", "class Foo { two }")]));
    assert_eq!(entries_of(&decls.funs), pairs(&[("Foo", "function Foo() { one }")]));
}

#[test]
fn an_empty_file_gives_four_empty_tables() {
    let decls = parse_decls(&LineParser::new(), path("empty.php"), "").unwrap();
    assert!(decls.classes.is_empty());
    assert!(decls.funs.is_empty());
    assert!(decls.typedefs.is_empty());
    assert!(decls.consts.is_empty());
    assert_eq!(decls.classes.len() + decls.funs.len() + decls.typedefs.len() + decls.consts.len(), 0);
}

#[test]
fn a_kind_that_is_absent_has_an_empty_table() {
    let decls = parse_decls(&LineParser::new(), path("c.php"), "const A = 1;\n").unwrap();
    assert_eq!(decls.consts.len(), 1);
    assert!(decls.classes.is_empty());
    assert!(decls.funs.is_empty());
    assert!(decls.typedefs.is_empty());
}

#[test]
fn the_experimental_pragma_reaches_the_scanner() {
    let parser = LineParser::new();
    let result = parse_decls(&parser, path("x.php"), "<?hh // experimental\nfunction f() {}\n");
    assert!(result.is_ok());
    let env = parser.seen_env.borrow().unwrap();
    assert!(env.is_experimental_mode);
    assert_eq!(env, ParserEnv::for_mode(ParseMode::Experimental));
}

#[test]
fn a_file_without_the_pragma_is_scanned_in_the_default_mode() {
    let parser = LineParser::new();
    let result = parse_decls(&parser, path("x.php"), "<?hh\nfunction f() {}\n");
    assert!(result.is_ok());
    let env = parser.seen_env.borrow().unwrap();
    assert!(!env.is_experimental_mode);
    assert_eq!(env, ParserEnv::default());
}

#[test]
fn a_strict_file_is_scanned_in_the_default_mode() {
    let parser = LineParser::new();
    let result = parse_decls(&parser, path("x.php"), "<?hh // strict\nfunction f() {}\n");
    assert!(result.is_ok());
    let env = parser.seen_env.borrow().unwrap();
    assert!(!env.is_experimental_mode);
    assert_eq!(env, ParserEnv::for_mode(ParseMode::Default));
}

#[test]
fn a_file_without_a_header_is_scanned_in_the_default_mode() {
    let parser = LineParser::new();
    let result = parse_decls(&parser, path("x.hack"), "function f() {}\n");
    assert!(result.is_ok());
    let env = parser.seen_env.borrow().unwrap();
    assert_eq!(env, ParserEnv::default());
}

#[test]
fn the_scanner_is_given_the_path_and_the_text() {
    let parser = LineParser::new();
    let file = RelativePath { prefix: Prefix::Hhi, path: "builtins.hhi".to_string() };
    let decls = parse_decls(&parser, file, "class C {}\n").unwrap();
    assert_eq!(
        *parser.seen_path.borrow(),
        Some(RelativePath { prefix: Prefix::Hhi, path: "builtins.hhi".to_string() })
    );
    assert_eq!(decls.classes.get("C").map(|d| d.as_str()), Some("class C {}"));
}

#[test]
fn a_failed_scan_is_a_failure() {
    let result = parse_decls(&FailingParser, path("bad.php"), "function f() {}\n");
    match result {
        Ok(_) => panic!("a failed scan gave tables"),
        Err(reason) => assert_eq!(reason, "unterminated token at offset 0"),
    }
}

#[test]
fn a_failed_scan_hands_out_no_partial_tables() {
    let out: ScanOutput<u32, u32, u32, u32> = ScanOutput {
        root: Err("no root".to_string()),
        errors: Vec::new(),
        decls: RawDecls {
            classes: vec![("A".to_string(), 1)],
            funs: vec![("f".to_string(), 2)],
            typedefs: Vec::new(),
            consts: Vec::new(),
        },
    };
    assert_eq!(decls_of_scan(out).err(), Some("no root".to_string()));
}

#[test]
fn recovered_errors_do_not_fail_the_extraction() {
    let text = "function f() {}\n}}} stray\nclass A {}\n";
    let decls = parse_decls(&LineParser::new(), path("e.php"), text).unwrap();
    assert_eq!(entries_of(&decls.funs), pairs(&[("f", "function f() {}")]));
    assert_eq!(entries_of(&decls.classes), pairs(&[("A", "class A {}")]));
}

#[test]
fn decls_of_scan_ignores_the_recovered_errors() {
    let scan = |errors: Vec<String>| ScanOutput::<u32, u32, u32, u32> {
        root: Ok(()),
        errors,
        decls: RawDecls {
            classes: vec![("B".to_string(), 2), ("A".to_string(), 1)],
            funs: Vec::new(),
            typedefs: vec![("T".to_string(), 3)],
            consts: Vec::new(),
        },
    };
    let clean = decls_of_scan(scan(Vec::new())).unwrap();
    let noisy = decls_of_scan(scan(vec!["one".to_string(), "two".to_string()])).unwrap();
    assert_eq!(clean.classes.get("A"), noisy.classes.get("A"));
    assert_eq!(clean.classes.get("B"), Some(&2));
    assert_eq!(noisy.classes.get("B"), Some(&2));
    assert_eq!(clean.typedefs.get("T"), noisy.typedefs.get("T"));
    assert_eq!(noisy.classes.len(), 2);
    assert_eq!(noisy.typedefs.len(), 1);
    assert!(noisy.funs.is_empty());
    assert!(noisy.consts.is_empty());
}

#[test]
fn two_extractions_of_one_file_agree() {
    let text = "function b() {}\nclass Z {}\nfunction a() {}\nfunction b() { again }\nconst K = 1;\n";
    let first = parse_decls(&LineParser::new(), path("d.php"), text).unwrap();
    let second = parse_decls(&LineParser::new(), path("d.php"), text).unwrap();
    assert_eq!(first, second);
    assert_eq!(all_entries(&first), all_entries(&second));
    assert_eq!(
        entries_of(&first.funs),
        pairs(&[("a", "function a() {}"), ("b", "function b() { again }")])
    );
}

#[test]
fn the_order_of_the_scan_does_not_show() {
    let one = parse_decls(&LineParser::new(), path("d.php"), "class B {}\nclass A {}\nclass C {}\n");
    let other = parse_decls(&LineParser::new(), path("d.php"), "class C {}\nclass A {}\nclass B {}\n");
    assert_eq!(one, other);
    assert_eq!(all_entries(&one.unwrap()), all_entries(&other.unwrap()));
}

#[test]
fn into_entries_gives_up_the_entries_in_order() {
    let decls = parse_decls(&LineParser::new(), path("d.php"), "class B {}\nclass A {}\nclass B { 2 }\n");
    let classes = decls.unwrap().classes.into_entries();
    assert_eq!(classes, pairs(&[("A", "class A {}"), ("B", "class B { 2 }")]));
}

#[test]
fn names_of_every_table_ascend() {
    let text = "function zz() {}\nfunction Za() {}\nfunction a() {}\nfunction _() {}\nclass b {}\nclass B {}\nclass ab {}\n";
    let decls = parse_decls(&LineParser::new(), path("o.php"), text).unwrap();
    for table in all_entries(&decls).iter() {
        for pair in table.windows(2) {
            assert!(pair[0].0 < pair[1].0);
        }
    }
    let funs: Vec<String> = entries_of(&decls.funs).into_iter().map(|entry| entry.0).collect();
    assert_eq!(funs, vec!["Za", "_", "a", "zz"]);
    let classes: Vec<String> = entries_of(&decls.classes).into_iter().map(|entry| entry.0).collect();
    assert_eq!(classes, vec!["B", "ab", "b"]);
}
