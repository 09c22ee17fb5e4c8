use genet_livery::cssom::{
    author_source_offsets, cssom_keys, cssom_rule_index, parsed_rule_index, retention_plan, AuthorStylesheet,
    CssomImportOwner, CssomImportRule, CssomMutationError, CssomRuleList, ResolvedImportRule,
    ResolvedStylesheet, SheetIdentity, StyleSet, StylesheetImportParent, StylesheetOwner,
};

fn identity(sheet_id: u64, owner_node: Option<u64>, order: u64, parent: Option<(u64, usize)>) -> SheetIdentity {
    SheetIdentity {
        sheet_id,
        owner_node,
        document_order: order,
        import_parent: parent.map(|(sheet_id, import_index)| StylesheetImportParent { sheet_id, import_index }),
    }
}

#[test]
fn keys_follow_owner_nodes_document_order_and_import_paths() {
    let sheets = vec![
        identity(10, Some(5), 0, None),
        identity(11, None, 1, None),
        identity(12, Some(5), 2, Some((10, 0))),
        identity(13, Some(5), 3, Some((12, 2))),
        identity(14, None, 4, Some((99, 0))),
    ];
    assert_eq!(
        cssom_keys(&sheets),
        vec![
            "node:5".to_string(),
            "document:1".to_string(),
            "node:5/import:0".to_string(),
            "node:5/import:0/import:2".to_string(),
            "orphan-import:14".to_string(),
        ]
    );
}

#[test]
fn import_cycles_get_orphan_keys() {
    let sheets = vec![
        identity(15, None, 0, Some((16, 0))),
        identity(16, None, 1, Some((15, 1))),
        identity(17, None, 2, Some((16, 4))),
    ];
    let keys = cssom_keys(&sheets);
    assert_eq!(keys[0], "orphan-import:15/import:1/import:0");
    assert_eq!(keys[1], "orphan-import:15/import:1");
    assert_eq!(keys[2], "orphan-import:15/import:1/import:4");
}

#[test]
fn a_repeated_sheet_id_names_its_last_sheet() {
    let sheets = vec![
        identity(1, Some(7), 0, None),
        identity(1, Some(8), 1, None),
        identity(2, None, 2, Some((1, 3))),
    ];
    assert_eq!(cssom_keys(&sheets)[2], "node:8/import:3");
}

#[test]
fn large_numbers_print_in_full() {
    let sheets = vec![identity(u64::MAX, None, 1234567890, None), identity(3, None, 1, Some((77, 0)))];
    assert_eq!(cssom_keys(&sheets), vec!["document:1234567890".to_string(), "orphan-import:3".to_string()]);
}

fn source(sheet_id: u64, owner: StylesheetOwner, owner_node: Option<u64>, text: &str) -> ResolvedStylesheet {
    ResolvedStylesheet {
        sheet_id,
        owner,
        owner_node,
        source_url: None,
        requested_url: None,
        content_type: None,
        media: None,
        imports: Vec::new(),
        import_parent: None,
        text: text.to_string(),
        document_order: sheet_id,
    }
}

fn import_rule(url: &str, media: Option<&str>, child: Option<u64>) -> ResolvedImportRule {
    ResolvedImportRule {
        authored_url: url.to_string(),
        media: media.map(|m| m.to_string()),
        child_sheet_id: child,
    }
}

fn document() -> StyleSet<Rules> {
    let mut root = source(10, StylesheetOwner::Link, Some(5), "@import 'a.css'; p {}");
    root.imports = vec![import_rule("a.css", Some("print"), Some(12)), import_rule("b.css", None, Some(40))];
    let inline = source(11, StylesheetOwner::Inline, None, "div {}");
    let mut child = source(12, StylesheetOwner::Imported, Some(5), "span {}");
    child.import_parent = Some(StylesheetImportParent { sheet_id: 10, import_index: 0 });
    StyleSet::cambium_resources(
        vec![root, inline, child],
        vec![Rules::of(&["p {}"]), Rules::of(&["div {}"]), Rules::of(&["span {}"])],
    )
}

#[derive(Clone, Debug, PartialEq)]
struct Rules {
    rules: Vec<String>,
    media: Option<String>,
}

impl Rules {
    fn of(rules: &[&str]) -> Self {
        Rules { rules: rules.iter().map(|r| r.to_string()).collect(), media: None }
    }
}

impl CssomRuleList for Rules {
    type Error = String;

    fn inserted(&self, rule: &str, index: usize) -> (Self, Result<usize, String>) {
        let mut list = self.clone();
        let answer = list.insert_rule(rule, index);
        (list, answer)
    }

    fn deleted(&self, index: usize) -> (Self, Result<(), String>) {
        let mut list = self.clone();
        let answer = list.delete_rule(index);
        (list, answer)
    }

    fn with_media(&self, media: &String) -> Self {
        let mut list = self.clone();
        list.apply_document_media(media);
        list
    }

    fn insert_rule(&mut self, rule: &str, index: usize) -> Result<usize, String> {
        if index > self.rules.len() {
            return Err("IndexSizeError".to_string());
        }
        self.rules.insert(index, rule.to_string());
        Ok(index)
    }

    fn delete_rule(&mut self, index: usize) -> Result<(), String> {
        if index >= self.rules.len() {
            return Err("IndexSizeError".to_string());
        }
        self.rules.remove(index);
        Ok(())
    }

    fn apply_document_media(&mut self, media: &String) {
        self.media = Some(media.clone());
    }
}

#[test]
fn a_style_set_keys_and_lists_its_sheets() {
    let set = document();
    assert_eq!(set.generation(), 1);
    let keys: Vec<&str> = set.author_sheets().iter().map(|sheet| sheet.cssom_key()).collect();
    assert_eq!(keys, vec!["node:5", "document:11", "node:5/import:0"]);
    assert_eq!(set.document_sheet_indexes(), vec![0, 1]);
    assert_eq!(set.author_index_by_cssom_key("node:5/import:0"), Some(2));
    assert_eq!(set.author_index_by_cssom_key("node:6"), None);
    assert_eq!(set.cssom_key(1), Some("document:11"));
    assert_eq!(set.cssom_key(3), None);
    assert_eq!(set.author_sheets()[2].owner(), StylesheetOwner::Imported);
    assert_eq!(set.author_sheets()[0].owner_node(), Some(5));
}

#[test]
fn import_rules_and_owners_name_the_retained_sheets() {
    let set = document();
    assert_eq!(
        set.cssom_import_rule(0, 0),
        Some(CssomImportRule {
            href: "a.css".to_string(),
            media: Some("print".to_string()),
            child_sheet_key: Some("node:5/import:0".to_string()),
        })
    );
    assert_eq!(
        set.cssom_import_rule(0, 1),
        Some(CssomImportRule { href: "b.css".to_string(), media: None, child_sheet_key: None })
    );
    assert_eq!(set.cssom_import_rule(0, 2), None);
    assert_eq!(set.cssom_import_rule(5, 0), None);
    assert_eq!(
        set.cssom_import_owner(2),
        Some(CssomImportOwner { parent_sheet_key: "node:5".to_string(), import_index: 0 })
    );
    assert_eq!(set.cssom_import_owner(0), None);
    assert_eq!(set.cssom_import_owner(7), None);
}

#[test]
fn cssom_rule_indexes_count_the_leading_imports() {
    assert_eq!(parsed_rule_index(2, 1), None);
    assert_eq!(parsed_rule_index(2, 5), Some(3));
    assert_eq!(cssom_rule_index(2, 3), 5);
    assert_eq!(cssom_rule_index(usize::MAX, 1), usize::MAX);
}

#[test]
fn cssom_mutations_skip_the_imports_and_move_the_stamp() {
    let mut set = document();
    assert!(matches!(set.insert_cssom_rule(9, "a {}", 0), Err(CssomMutationError::IndexSize)));
    assert!(matches!(set.insert_cssom_rule(0, "a {}", 1), Err(CssomMutationError::ImportInsertion)));
    assert_eq!(set.generation(), 1);
    assert_eq!(set.insert_cssom_rule(0, "a {}", 2).ok(), Some(2));
    assert_eq!(set.generation(), 2);
    assert_eq!(set.author_sheets()[0].stylesheet.rules, vec!["a {}".to_string(), "p {}".to_string()]);
    assert!(matches!(set.insert_cssom_rule(0, "b {}", 9), Err(CssomMutationError::Rule(_))));
    assert_eq!(set.generation(), 2);
    assert!(matches!(set.delete_cssom_rule(0, 0), Err(CssomMutationError::ImportDeletion)));
    assert!(set.delete_cssom_rule(0, 3).is_ok());
    assert_eq!(set.author_sheets()[0].stylesheet.rules, vec!["a {}".to_string()]);
    assert_eq!(set.generation(), 3);
    assert!(set.insert_author_rule(1, "em {}", 1).is_ok());
    assert_eq!(set.author_sheets()[1].stylesheet.rules, vec!["div {}".to_string(), "em {}".to_string()]);
}

#[test]
fn media_is_reapplied_after_an_insertion() {
    let mut sheet = source(1, StylesheetOwner::Inline, None, "p {}");
    sheet.media = Some("screen".to_string());
    let mut set = StyleSet::cambium_resources(vec![sheet], vec![Rules::of(&["p {}"])]);
    assert!(set.insert_author_rule(0, "a {}", 0).is_ok());
    assert_eq!(set.author_sheets()[0].stylesheet.media, Some("screen".to_string()));
}

#[test]
fn replacing_sheets_keeps_unchanged_direct_sheets_live() {
    let mut set = StyleSet::cambium_resources(
        vec![
            source(1, StylesheetOwner::Inline, Some(1), "a {}"),
            source(2, StylesheetOwner::Inline, Some(2), "b {}"),
        ],
        vec![Rules::of(&["a {}"]), Rules::of(&["b {}"])],
    );
    assert!(set.insert_author_rule(1, "mutated {}", 0).is_ok());
    set.replace_author_sheets(
        vec![
            source(7, StylesheetOwner::Inline, Some(2), "b {}"),
            source(8, StylesheetOwner::Inline, Some(3), "c {}"),
            source(9, StylesheetOwner::Inline, Some(1), "a changed {}"),
        ],
        vec![Rules::of(&["fresh b"]), Rules::of(&["fresh c"]), Rules::of(&["fresh a"])],
    );
    let sheets = set.author_sheets();
    assert_eq!(sheets.len(), 3);
    assert_eq!(sheets[0].stylesheet.rules, vec!["mutated {}".to_string(), "b {}".to_string()]);
    assert_eq!(sheets[0].sheet_id, 7);
    assert_eq!(sheets[0].cssom_key(), "node:2");
    assert_eq!(sheets[1].stylesheet.rules, vec!["fresh c".to_string()]);
    assert_eq!(sheets[2].stylesheet.rules, vec!["fresh a".to_string()]);
    assert_eq!(set.generation(), 3);
}

#[test]
fn each_previous_sheet_is_retained_once_and_imports_never() {
    let previous = vec![
        AuthorStylesheet::from_resolved(source(1, StylesheetOwner::Inline, None, "x"), "k".to_string(), 0u8),
        AuthorStylesheet::from_resolved(source(2, StylesheetOwner::Inline, None, "x"), "k".to_string(), 1u8),
        AuthorStylesheet::from_resolved(source(3, StylesheetOwner::Imported, None, "y"), "k".to_string(), 2u8),
    ];
    let sources = vec![
        source(4, StylesheetOwner::Inline, None, "x"),
        source(5, StylesheetOwner::Inline, None, "x"),
        source(6, StylesheetOwner::Inline, None, "x"),
        source(7, StylesheetOwner::Imported, None, "y"),
        source(8, StylesheetOwner::Link, None, "x"),
    ];
    assert_eq!(retention_plan(&previous, &sources), vec![Some(0), Some(1), None, None, None]);
    assert!(previous[0].can_retain_live_cssom(&sources[1]));
    assert!(!previous[0].can_retain_live_cssom(&sources[4]));
    assert!(!previous[2].can_retain_live_cssom(&sources[3]));
}

#[test]
fn author_source_order_runs_across_sheets() {
    assert_eq!(author_source_offsets(&vec![3, 0, 2, 5]), vec![0, 3, 3, 5]);
    assert_eq!(author_source_offsets(&vec![]), Vec::<u64>::new());
}

#[test]
fn a_chain_into_a_cycle_roots_its_keys_at_the_entry() {
    let sheets = vec![
        identity(7, None, 0, Some((1, 2))),
        identity(1, None, 1, Some((2, 0))),
        identity(2, None, 2, Some((1, 5))),
    ];
    assert_eq!(
        cssom_keys(&sheets),
        vec![
            "orphan-import:1/import:5/import:0/import:2".to_string(),
            "orphan-import:1/import:5/import:0".to_string(),
            "orphan-import:1/import:5".to_string(),
        ]
    );
}

#[test]
fn a_self_import_is_its_own_entry() {
    let sheets = vec![identity(4, None, 0, Some((4, 1))), identity(5, None, 1, Some((4, 0)))];
    assert_eq!(
        cssom_keys(&sheets),
        vec!["orphan-import:4/import:1".to_string(), "orphan-import:4/import:1/import:0".to_string()]
    );
}
