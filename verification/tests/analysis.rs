use csweep::Category;
use csweep::Finding;
use csweep::FunctionRegistry;
use csweep::NameRef;
use csweep::Site;
use csweep::SyntaxNode;
use csweep::find_function_stats;
use csweep::report_findings;

fn plain(kind: &str, children: Vec<SyntaxNode>) -> SyntaxNode {
    SyntaxNode { kind: kind.to_string(), declarator: None, callee: None, children }
}

fn decl(name: &str, row: usize, col: usize, children: Vec<SyntaxNode>) -> SyntaxNode {
    SyntaxNode {
        kind: "function_declarator".to_string(),
        declarator: Some(NameRef { name: name.to_string(), row, col }),
        callee: None,
        children,
    }
}

fn call(name: &str, row: usize, col: usize, children: Vec<SyntaxNode>) -> SyntaxNode {
    SyntaxNode {
        kind: "call_expression".to_string(),
        declarator: None,
        callee: Some(NameRef { name: name.to_string(), row, col }),
        children,
    }
}

fn site(file: &str, row: usize, col: usize) -> Site {
    Site { file: file.to_string(), row, col }
}

#[test]
fn walker_visits_every_node_once() {
    // 1 root + 2 mid + 3 leaves = 6 nodes in all.
    let tree = plain(
        "translation_unit",
        vec![
            plain("declaration", vec![plain("identifier", vec![]), plain("identifier", vec![])]),
            plain("expression_statement", vec![plain("identifier", vec![])]),
        ],
    );
    let mut stats = FunctionRegistry::new();
    let visited = find_function_stats(&tree, "a.c", &mut stats);
    assert_eq!(visited, 6);
    assert_eq!(stats.len(), 0);
}

#[test]
fn walker_counts_single_node() {
    let tree = plain("translation_unit", vec![]);
    let mut stats = FunctionRegistry::new();
    assert_eq!(find_function_stats(&tree, "a.c", &mut stats), 1);
}

#[test]
fn accumulates_one_declaration_and_two_calls() {
    let tree = plain(
        "translation_unit",
        vec![
            decl("foo", 0, 4, vec![]),
            call("foo", 3, 2, vec![]),
            call("foo", 5, 8, vec![]),
        ],
    );
    let mut stats = FunctionRegistry::new();
    find_function_stats(&tree, "one.c", &mut stats);
    let foo = stats.lookup("foo").expect("foo must be registered");
    assert_eq!(foo.declarations.len(), 1);
    assert_eq!(foo.calls.len(), 2);
    assert_eq!(foo.declarations[0], site("one.c", 0, 4));
    assert_eq!(foo.calls[0], site("one.c", 3, 2));
    assert_eq!(foo.calls[1], site("one.c", 5, 8));
}

#[test]
fn main_is_never_reported() {
    // `main` declared twice and called once would fall under no category
    // anyway, so also try it declared once and never called.
    let tree = plain(
        "translation_unit",
        vec![decl("main", 0, 4, vec![]), decl("main", 9, 4, vec![]), call("main", 12, 2, vec![])],
    );
    let mut stats = FunctionRegistry::new();
    find_function_stats(&tree, "m.c", &mut stats);
    assert!(report_findings(&stats).is_empty());

    let tree2 = plain("translation_unit", vec![decl("main", 0, 4, vec![])]);
    let mut stats2 = FunctionRegistry::new();
    find_function_stats(&tree2, "m.c", &mut stats2);
    assert!(report_findings(&stats2).iter().all(|f| f.name != "main"));
    assert!(report_findings(&stats2).is_empty());
}

#[test]
fn unused_function_reported_with_its_position() {
    let tree = plain("translation_unit", vec![decl("bar", 3, 4, vec![]), call("other", 7, 0, vec![])]);
    let mut stats = FunctionRegistry::new();
    find_function_stats(&tree, "u.c", &mut stats);
    let findings = report_findings(&stats);
    let unused: Vec<&Finding> =
        findings.iter().filter(|f| f.name == "bar" && f.category == Category::Unused).collect();
    assert_eq!(unused.len(), 1);
    assert_eq!(unused[0].sites.len(), 1);
    assert_eq!(unused[0].sites[0], site("u.c", 3, 4));
}

#[test]
fn undeclared_reported_for_zero_and_for_one_declaration() {
    // `ext_fn` is called but never declared: undeclared with no position.
    // `bar` is declared exactly once: undeclared with that one position.
    let tree = plain(
        "translation_unit",
        vec![call("ext_fn", 1, 0, vec![]), decl("bar", 4, 4, vec![]), call("bar", 6, 2, vec![])],
    );
    let mut stats = FunctionRegistry::new();
    find_function_stats(&tree, "d.c", &mut stats);
    let findings = report_findings(&stats);

    let ext: Vec<&Finding> =
        findings.iter().filter(|f| f.name == "ext_fn" && f.category == Category::Undeclared).collect();
    assert_eq!(ext.len(), 1);
    assert!(ext[0].sites.is_empty());

    let bar: Vec<&Finding> =
        findings.iter().filter(|f| f.name == "bar" && f.category == Category::Undeclared).collect();
    assert_eq!(bar.len(), 1);
    assert_eq!(bar[0].sites, vec![site("d.c", 4, 4)]);

    // A function declared twice is not undeclared.
    let tree2 = plain("translation_unit", vec![decl("twice", 0, 0, vec![]), decl("twice", 9, 0, vec![])]);
    let mut stats2 = FunctionRegistry::new();
    find_function_stats(&tree2, "d.c", &mut stats2);
    let findings2 = report_findings(&stats2);
    assert!(findings2.iter().all(|f| f.category != Category::Undeclared));
}

#[test]
fn sites_merge_across_files() {
    let a = plain("translation_unit", vec![decl("helper", 0, 4, vec![])]);
    let b = plain("translation_unit", vec![call("helper", 2, 11, vec![])]);
    let mut stats = FunctionRegistry::new();
    find_function_stats(&a, "a.c", &mut stats);
    find_function_stats(&b, "b.c", &mut stats);

    assert_eq!(stats.len(), 1);
    let helper = stats.lookup("helper").expect("helper must be registered");
    assert_eq!(helper.declarations, vec![site("a.c", 0, 4)]);
    assert_eq!(helper.calls, vec![site("b.c", 2, 11)]);

    let findings = report_findings(&stats);
    assert!(findings.iter().all(|f| !(f.name == "helper" && f.category == Category::Unused)));
}

#[test]
fn runs_on_same_input_agree() {
    let a = plain(
        "translation_unit",
        vec![decl("f", 0, 0, vec![]), call("g", 1, 0, vec![]), decl("g", 2, 0, vec![])],
    );
    let b = plain("translation_unit", vec![call("f", 0, 5, vec![])]);

    let mut first = FunctionRegistry::new();
    find_function_stats(&a, "a.c", &mut first);
    find_function_stats(&b, "b.c", &mut first);

    let mut second = FunctionRegistry::new();
    find_function_stats(&a, "a.c", &mut second);
    find_function_stats(&b, "b.c", &mut second);

    assert_eq!(first, second);
    assert_eq!(report_findings(&first), report_findings(&second));
}

#[test]
fn end_to_end_two_files() {
    // a.c defines helper and never calls it; b.c defines main and calls
    // helper. helper has a call, so it is not unused; it has exactly one
    // declaration, so it is undeclared; main is excluded entirely.
    let a = plain(
        "translation_unit",
        vec![plain("function_definition", vec![decl("helper", 0, 4, vec![])])],
    );
    let b = plain(
        "translation_unit",
        vec![plain(
            "function_definition",
            vec![decl("main", 0, 4, vec![]), call("helper", 1, 11, vec![])],
        )],
    );
    let mut stats = FunctionRegistry::new();
    find_function_stats(&a, "a.c", &mut stats);
    find_function_stats(&b, "b.c", &mut stats);

    let findings = report_findings(&stats);
    assert_eq!(findings.len(), 1);
    assert_eq!(findings[0].name, "helper");
    assert_eq!(findings[0].category, Category::Undeclared);
    assert_eq!(findings[0].sites, vec![site("a.c", 0, 4)]);
}

#[test]
fn findings_follow_first_sighting_order() {
    let tree = plain("translation_unit", vec![decl("f2", 0, 0, vec![]), decl("f1", 1, 0, vec![])]);
    let mut stats = FunctionRegistry::new();
    find_function_stats(&tree, "o.c", &mut stats);
    let findings = report_findings(&stats);
    // Each function is both unused (no call) and undeclared (one
    // declaration); f2 was sighted first.
    let labels: Vec<(String, Category)> =
        findings.iter().map(|f| (f.name.clone(), f.category)).collect();
    assert_eq!(
        labels,
        vec![
            ("f2".to_string(), Category::Unused),
            ("f2".to_string(), Category::Undeclared),
            ("f1".to_string(), Category::Unused),
            ("f1".to_string(), Category::Undeclared),
        ]
    );
}

#[test]
fn nodes_without_the_expected_field_are_skipped() {
    // A function declarator with no declarator extract and a call expression
    // with no callee extract mutate nothing.
    let tree = plain(
        "translation_unit",
        vec![
            plain("function_declarator", vec![]),
            plain("call_expression", vec![]),
        ],
    );
    let mut stats = FunctionRegistry::new();
    let visited = find_function_stats(&tree, "s.c", &mut stats);
    assert_eq!(visited, 3);
    assert_eq!(stats.len(), 0);
    assert!(report_findings(&stats).is_empty());
}

#[test]
fn sites_are_recorded_in_preorder() {
    // The declaration inside a nested child is seen after the root's own
    // extract but before a later sibling's.
    let tree = plain(
        "translation_unit",
        vec![
            plain("function_definition", vec![decl("f", 0, 0, vec![call("g", 1, 4, vec![])])]),
            call("g", 5, 0, vec![]),
        ],
    );
    let mut stats = FunctionRegistry::new();
    find_function_stats(&tree, "p.c", &mut stats);
    let g = stats.lookup("g").expect("g must be registered");
    assert_eq!(g.calls, vec![site("p.c", 1, 4), site("p.c", 5, 0)]);
}
