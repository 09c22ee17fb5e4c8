use genet_livery::document::LayoutDamageKind;
use genet_livery::resources::{resource_damage, same_bytes, ResourceLedger};

#[test]
fn supplying_identical_bytes_changes_nothing() {
    let mut ledger = ResourceLedger::new();
    assert!(ledger.set_resource("a.png".to_string(), vec![1, 2, 3]));
    assert!(!ledger.set_resource("a.png".to_string(), vec![1, 2, 3]));
    assert!(ledger.set_resource("a.png".to_string(), vec![1, 2]));
    assert!(ledger.set_resource("b.png".to_string(), vec![]));
    assert_eq!(ledger.len(), 2);
    assert_eq!(ledger.get("a.png"), Some(&vec![1, 2]));
    assert_eq!(ledger.get("b.png"), Some(&vec![]));
    assert_eq!(ledger.get("c.png"), None);
}

#[test]
fn replacing_the_ledger_drops_missing_urls() {
    let mut ledger = ResourceLedger::new();
    ledger.set_resource("a.png".to_string(), vec![1]);
    ledger.set_resource("b.png".to_string(), vec![2]);
    assert!(!ledger.replace_resources(vec![("b.png".to_string(), vec![2]), ("a.png".to_string(), vec![1])]));
    assert!(ledger.replace_resources(vec![
        ("a.png".to_string(), vec![9]),
        ("a.png".to_string(), vec![1]),
    ]));
    assert_eq!(ledger.len(), 1);
    assert_eq!(ledger.get("a.png"), Some(&vec![1]));
    assert_eq!(ledger.get("b.png"), None);
    assert!(ledger.replace_resources(vec![]));
    assert_eq!(ledger.len(), 0);
}

#[test]
fn only_a_change_records_resource_damage() {
    assert_eq!(resource_damage(true), Some(LayoutDamageKind::Resource));
    assert_eq!(resource_damage(false), None);
    assert!(same_bytes(&vec![1, 2], &vec![1, 2]));
    assert!(!same_bytes(&vec![1, 2], &vec![1]));
    assert!(!same_bytes(&vec![1, 2], &vec![1, 3]));
}
