use glam_syntax::ast::{
    Declaration, DeclarationKind, DefinitionDecl, DefinitionKind, SyntaxExpr, SyntaxKeyExpr,
};
use glam_syntax::diagnostic::Diagnostic;
use glam_syntax::name_analysis::check_file_global_local_shadowing;
use glam_syntax::source::parse_source;

fn definition(name: &str, expr: SyntaxExpr, line: usize) -> Declaration {
    Declaration {
        line,
        preview: String::new(),
        kind: DeclarationKind::Definition(DefinitionDecl {
            target: vec![SyntaxKeyExpr::Atom(name.to_owned())],
            parameters: Vec::new(),
            kind: DefinitionKind::Introduce,
            expr: Some(expr),
        }),
    }
}

fn told(declarations: &Vec<Declaration>) -> Vec<(usize, String)> {
    let mut told: Vec<(usize, String)> = check_file_global_local_shadowing(declarations)
        .into_iter()
        .map(|found| {
            let local = found.message.split('`').nth(1).unwrap_or("").to_owned();
            (found.line, local)
        })
        .collect();
    told.sort();
    told
}

#[test]
fn the_order_of_declarations_does_not_change_conflicts() {
    let source = b"language g0\nvalue = 1\nuse = \\value other -> inner.thing\ngroup.other = 2\nfree = \\inner -> inner\nother = \\plain -> plain\n";
    let expected = [
        (3, "other".to_owned()),
        (3, "value".to_owned()),
        (5, "inner".to_owned()),
    ];
    let orders: [[usize; 6]; 4] = [
        [0, 1, 2, 3, 4, 5],
        [5, 4, 3, 2, 1, 0],
        [2, 0, 4, 1, 5, 3],
        [4, 5, 2, 3, 0, 1],
    ];
    for order in orders {
        let mut rest: Vec<Option<Declaration>> = parse_source(source)
            .declarations
            .into_iter()
            .map(Some)
            .collect();
        assert_eq!(rest.len(), order.len());
        let moved: Vec<Declaration> = order
            .iter()
            .map(|k| rest[*k].take().expect("each declaration once"))
            .collect();
        assert_eq!(told(&moved), expected, "{order:?}");
    }
}

#[test]
fn inaccessible_drop_binders_are_not_recorded() {
    let declarations = vec![
        definition("_", SyntaxExpr::Unit, 1),
        definition(
            "function",
            SyntaxExpr::Lambda(vec!["_".to_owned()], Box::new(SyntaxExpr::Unit)),
            2,
        ),
    ];

    assert_eq!(check_file_global_local_shadowing(&declarations), []);
}

#[test]
fn locals_that_shadow_globals_are_reported() {
    let parsed = parse_source(b"language g0\nvalue = 1\nuse = \\value -> value\n");
    assert_eq!(parsed.diagnostics, []);
    assert_eq!(
        check_file_global_local_shadowing(&parsed.declarations),
        [Diagnostic::error(
            3,
            "local `value` shadows external `value` defined on line 2"
        )]
    );
    let clear = parse_source(b"language g0\nvalue = 1\nuse = \\argument -> argument\n");
    assert_eq!(check_file_global_local_shadowing(&clear.declarations), []);
}
