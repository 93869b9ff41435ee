use glam_syntax::keywords::{
    canonical_keyword, g0_keyword, g0_keywords, g0_layout_introducer, reserved_keyword_message,
    KeywordRole,
};

fn roles(name: &str) -> Option<Vec<KeywordRole>> {
    g0_keyword(name).map(|keyword| keyword.roles().clone())
}

#[test]
fn g0_keyword_table_is_sorted_and_unique() {
    assert!(g0_keywords()
        .windows(2)
        .all(|pair| pair[0].spelling() < pair[1].spelling()));
}

#[test]
fn keyword_roles_record_each_active_syntax_site() {
    assert_eq!(
        roles("abstract"),
        Some(vec![
            KeywordRole::Declaration,
            KeywordRole::Expression,
            KeywordRole::Statement,
            KeywordRole::Modifier,
        ])
    );
    assert_eq!(
        roles("object"),
        Some(vec![KeywordRole::Declaration, KeywordRole::Expression])
    );
    assert_eq!(
        roles("where"),
        Some(vec![KeywordRole::Expression, KeywordRole::LayoutIntroducer])
    );
    assert_eq!(
        roles("with"),
        Some(vec![KeywordRole::Modifier, KeywordRole::LayoutIntroducer])
    );
    assert_eq!(roles("if"), Some(vec![KeywordRole::Expression]));
    assert_eq!(roles("match"), Some(vec![KeywordRole::Expression]));
    assert_eq!(
        roles("when"),
        Some(vec![KeywordRole::Modifier, KeywordRole::LayoutIntroducer])
    );
    assert_eq!(roles("try"), Some(vec![KeywordRole::Expression]));
    assert_eq!(roles("try_match"), Some(vec![KeywordRole::Expression]));
    assert_eq!(
        roles("self"),
        Some(vec![KeywordRole::SpecialReference, KeywordRole::ObjectAlias])
    );
    assert!(["do", "let", "when", "where", "with"]
        .into_iter()
        .all(g0_layout_introducer));
    assert!(!["if", "match", "object"]
        .into_iter()
        .any(g0_layout_introducer));
}

#[test]
fn suppressed_local_spellings_retain_keyword_identity() {
    assert_eq!(
        canonical_keyword("_where").map(|keyword| keyword.spelling().to_owned()),
        Some("where".to_owned())
    );
    assert_eq!(canonical_keyword("_"), None);
}

#[test]
fn reserved_keywords_name_their_escapes() {
    let keyword = g0_keyword("where").unwrap();
    assert_eq!(
        reserved_keyword_message(&keyword),
        "`where` is a reserved keyword in language `g0`; use `'where` for atom data or `.['where]` for a path component"
    );
    assert_eq!(g0_keyword("ordinary"), None);
}
