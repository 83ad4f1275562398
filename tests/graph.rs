use uses_graph::emit::{edge_line, footer_line, header_lines};
use uses_graph::extract::{definition_lines, glob_pattern, Definition, FileSummary};
use uses_graph::walk::{Step, Walker};

struct File {
    path: &'static str,
    includes: Vec<&'static str>,
    definitions: Vec<(&'static str, Vec<&'static str>)>,
}

struct Glob {
    file: &'static str,
    pattern: &'static str,
    found: Vec<&'static str>,
}

fn summary_of(files: &[File], path: &str) -> FileSummary {
    let f = files.iter().find(|f| f.path == path).expect("no such file");
    FileSummary {
        includes: f.includes.iter().map(|s| s.to_string()).collect(),
        definitions: f
            .definitions
            .iter()
            .map(|(n, us)| Definition {
                name: n.to_string(),
                uses: us.iter().map(|u| u.to_string()).collect(),
            })
            .collect(),
    }
}

/// Runs the whole walk over files held in memory; `Err` names a cycle.
fn run(root: &str, files: &[File], globs: &[Glob]) -> Result<Vec<String>, String> {
    let mut out = header_lines();
    let mut w = Walker::new();
    w.enter(root.to_string(), summary_of(files, root));
    loop {
        match w.advance() {
            Step::Read(p) => {
                let s = summary_of(files, &p);
                w.enter(p, s);
            }
            Step::Expand(file, pattern) => {
                let found = globs
                    .iter()
                    .find(|g| g.file == file && g.pattern == pattern)
                    .map(|g| g.found.iter().map(|s| s.to_string()).collect())
                    .unwrap_or_default();
                w.expanded(found);
            }
            Step::Emit(lines) => out.extend(lines),
            Step::Cycle(p) => return Err(p),
            Step::Finished => break,
        }
    }
    out.push(footer_line());
    Ok(out)
}

fn lines(v: &[&str]) -> Vec<String> {
    v.iter().map(|s| s.to_string()).collect()
}

#[test]
fn header_and_footer_text() {
    assert_eq!(header_lines(), lines(&["digraph Uses {", "  ratio=1.3;"]));
    assert_eq!(footer_line(), "}");
}

#[test]
fn edge_line_text() {
    assert_eq!(edge_line("app", "libc"), "  \"app\" -> \"libc\";");
    assert_eq!(edge_line("", ""), "  \"\" -> \"\";");
}

#[test]
fn edge_line_keeps_quotes_in_labels() {
    assert_eq!(edge_line("a\"b", "c"), "  \"a\"b\" -> \"c\";");
}

#[test]
fn glob_pattern_strips_quotes() {
    assert_eq!(glob_pattern("\"sub/*.cm\""), "sub/*.cm");
    assert_eq!(glob_pattern("\"\"**/x\"\""), "**/x");
    assert_eq!(glob_pattern("plain"), "plain");
    assert_eq!(glob_pattern("\"a\"b\""), "a\"b");
    assert_eq!(glob_pattern("\"\"\""), "");
    assert_eq!(glob_pattern(""), "");
}

#[test]
fn definition_lines_in_order() {
    let defs = vec![
        Definition { name: "a".to_string(), uses: lines(&["x", "y"]) },
        Definition { name: "b".to_string(), uses: vec![] },
        Definition { name: "c".to_string(), uses: lines(&["a"]) },
    ];
    assert_eq!(
        definition_lines(&defs),
        lines(&["  \"a\" -> \"x\";", "  \"a\" -> \"y\";", "  \"c\" -> \"a\";"])
    );
    assert!(definition_lines(&vec![]).is_empty());
}

#[test]
fn single_definition_gives_one_edge_per_use() {
    let files = vec![File {
        path: "/p/root.cm",
        includes: vec![],
        definitions: vec![("app", vec!["z", "a", "m", "a"])],
    }];
    let out = run("/p/root.cm", &files, &[]).unwrap();
    assert_eq!(
        out,
        lines(&[
            "digraph Uses {",
            "  ratio=1.3;",
            "  \"app\" -> \"z\";",
            "  \"app\" -> \"a\";",
            "  \"app\" -> \"m\";",
            "  \"app\" -> \"a\";",
            "}",
        ])
    );
}

#[test]
fn empty_root_gives_header_and_footer_only() {
    let files = vec![File { path: "/p/root.cm", includes: vec![], definitions: vec![] }];
    let out = run("/p/root.cm", &files, &[]).unwrap();
    assert_eq!(out, lines(&["digraph Uses {", "  ratio=1.3;", "}"]));
}

#[test]
fn include_matching_nothing_is_no_error() {
    let files = vec![File {
        path: "/p/root.cm",
        includes: vec!["\"missing/*.cm\""],
        definitions: vec![("r", vec!["q"])],
    }];
    let out = run("/p/root.cm", &files, &[]).unwrap();
    assert_eq!(out, lines(&["digraph Uses {", "  ratio=1.3;", "  \"r\" -> \"q\";", "}"]));
}

#[test]
fn expand_step_names_file_and_pattern() {
    let mut w = Walker::new();
    w.enter(
        "/p/root.cm".to_string(),
        FileSummary { includes: lines(&["\"a/*.cm\""]), definitions: vec![] },
    );
    match w.advance() {
        Step::Expand(f, p) => {
            assert_eq!(f, "/p/root.cm");
            assert_eq!(p, "a/*.cm");
        }
        _ => panic!("expected an expansion"),
    }
    w.expanded(vec![]);
    assert!(matches!(w.advance(), Step::Emit(ls) if ls.is_empty()));
    assert!(w.is_done());
    assert!(matches!(w.advance(), Step::Finished));
}

fn chain() -> (Vec<File>, Vec<Glob>) {
    let files = vec![
        File {
            path: "/p/root.cm",
            includes: vec!["\"a.cm\""],
            definitions: vec![("root", vec!["A"])],
        },
        File { path: "/p/a.cm", includes: vec!["\"b.cm\""], definitions: vec![("A", vec!["B"])] },
        File { path: "/p/b.cm", includes: vec![], definitions: vec![("B", vec!["c1", "c2"])] },
    ];
    let globs = vec![
        Glob { file: "/p/root.cm", pattern: "a.cm", found: vec!["/p/a.cm"] },
        Glob { file: "/p/a.cm", pattern: "b.cm", found: vec!["/p/b.cm"] },
    ];
    (files, globs)
}

#[test]
fn nested_includes_come_first() {
    let (files, globs) = chain();
    let out = run("/p/root.cm", &files, &globs).unwrap();
    assert_eq!(
        out,
        lines(&[
            "digraph Uses {",
            "  ratio=1.3;",
            "  \"B\" -> \"c1\";",
            "  \"B\" -> \"c2\";",
            "  \"A\" -> \"B\";",
            "  \"root\" -> \"A\";",
            "}",
        ])
    );
}

#[test]
fn diamond_include_repeats_shared_file() {
    let files = vec![
        File {
            path: "/p/root.cm",
            includes: vec!["\"[ab].cm\""],
            definitions: vec![("root", vec!["A", "B"])],
        },
        File { path: "/p/a.cm", includes: vec!["\"c.cm\""], definitions: vec![("A", vec!["C"])] },
        File { path: "/p/b.cm", includes: vec!["\"c.cm\""], definitions: vec![("B", vec!["C"])] },
        File { path: "/p/c.cm", includes: vec![], definitions: vec![("C", vec!["leaf"])] },
    ];
    let globs = vec![
        Glob { file: "/p/root.cm", pattern: "[ab].cm", found: vec!["/p/a.cm", "/p/b.cm"] },
        Glob { file: "/p/a.cm", pattern: "c.cm", found: vec!["/p/c.cm"] },
        Glob { file: "/p/b.cm", pattern: "c.cm", found: vec!["/p/c.cm"] },
    ];
    let out = run("/p/root.cm", &files, &globs).unwrap();
    assert_eq!(
        out,
        lines(&[
            "digraph Uses {",
            "  ratio=1.3;",
            "  \"C\" -> \"leaf\";",
            "  \"A\" -> \"C\";",
            "  \"C\" -> \"leaf\";",
            "  \"B\" -> \"C\";",
            "  \"root\" -> \"A\";",
            "  \"root\" -> \"B\";",
            "}",
        ])
    );
}

#[test]
fn self_include_is_a_cycle() {
    let files = vec![File {
        path: "/p/a.cm",
        includes: vec!["\"*.cm\""],
        definitions: vec![("A", vec!["x"])],
    }];
    let globs = vec![Glob { file: "/p/a.cm", pattern: "*.cm", found: vec!["/p/a.cm"] }];
    assert_eq!(run("/p/a.cm", &files, &globs), Err("/p/a.cm".to_string()));
}

#[test]
fn mutual_include_is_a_cycle() {
    let files = vec![
        File { path: "/p/a.cm", includes: vec!["\"b.cm\""], definitions: vec![] },
        File { path: "/p/b.cm", includes: vec!["\"a.cm\""], definitions: vec![] },
    ];
    let globs = vec![
        Glob { file: "/p/a.cm", pattern: "b.cm", found: vec!["/p/b.cm"] },
        Glob { file: "/p/b.cm", pattern: "a.cm", found: vec!["/p/a.cm"] },
    ];
    assert_eq!(run("/p/a.cm", &files, &globs), Err("/p/a.cm".to_string()));
}

#[test]
fn sibling_includes_are_no_cycle() {
    let files = vec![
        File {
            path: "/p/root.cm",
            includes: vec!["\"a.cm\"", "\"a.cm\""],
            definitions: vec![],
        },
        File { path: "/p/a.cm", includes: vec![], definitions: vec![("A", vec!["x"])] },
    ];
    let globs = vec![Glob { file: "/p/root.cm", pattern: "a.cm", found: vec!["/p/a.cm"] }];
    let out = run("/p/root.cm", &files, &globs).unwrap();
    assert_eq!(
        out,
        lines(&["digraph Uses {", "  ratio=1.3;", "  \"A\" -> \"x\";", "  \"A\" -> \"x\";", "}"])
    );
}

#[test]
fn every_edge_has_its_definition() {
    let (files, globs) = chain();
    let out = run("/p/root.cm", &files, &globs).unwrap();
    for line in &out[2..out.len() - 1] {
        let found = files.iter().any(|f| {
            f.definitions
                .iter()
                .any(|(n, us)| us.iter().any(|u| edge_line(n, u) == *line))
        });
        assert!(found, "no definition for {}", line);
    }
}

#[test]
fn two_runs_give_identical_output() {
    let (files, globs) = chain();
    let a = run("/p/root.cm", &files, &globs).unwrap();
    let b = run("/p/root.cm", &files, &globs).unwrap();
    assert_eq!(a.join("\n"), b.join("\n"));
}
