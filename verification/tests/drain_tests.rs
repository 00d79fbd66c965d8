use ingest_api::drain::{create_database_sql, group_batch, DrainAction, DrainProgress, StreamEntry};

fn entry(id: &str, tenant: &str, data: &str) -> StreamEntry {
    StreamEntry { id: id.to_string(), tenant: tenant.to_string(), data: data.to_string() }
}

fn strings(v: &[&str]) -> Vec<String> {
    v.iter().map(|s| s.to_string()).collect()
}

#[test]
fn batch_is_grouped_by_tenant_in_first_seen_order() {
    let entries = vec![
        entry("1-0", "acme", "{\"a\":1}"),
        entry("1-1", "beta", "{\"b\":1}"),
        entry("1-2", "acme", "{\"a\":2}"),
        entry("1-3", "", "{\"x\":1}"),
        entry("1-4", "gamma", ""),
    ];
    let b = group_batch(&entries);
    assert_eq!(b.ids, strings(&["1-0", "1-1", "1-2", "1-3", "1-4"]));
    assert_eq!(
        b.groups,
        vec![
            ("acme".to_string(), "{\"a\":1}\n{\"a\":2}\n".to_string()),
            ("beta".to_string(), "{\"b\":1}\n".to_string()),
        ]
    );
}

#[test]
fn empty_batch_has_nothing_to_ack() {
    let b = group_batch(&Vec::new());
    assert!(b.ids.is_empty());
    assert!(b.groups.is_empty());
}

#[test]
fn database_ddl() {
    assert_eq!(create_database_sql("acme"), "CREATE DATABASE IF NOT EXISTS `acme`");
}

#[test]
fn ack_only_after_every_group_is_inserted() {
    let groups = vec![("acme".to_string(), "r\n".to_string()), ("beta".to_string(), "s\n".to_string())];
    let mut ensured = strings(&["acme"]);
    let mut p = DrainProgress::new();
    assert_eq!(p.next_action(&groups, &ensured), DrainAction::Insert(0));
    p.insert_done(true);
    assert_eq!(p.next_action(&groups, &ensured), DrainAction::EnsureTable(1));
    p.table_done(true, &groups, &mut ensured);
    assert_eq!(ensured, strings(&["acme", "beta"]));
    assert_eq!(p.next_action(&groups, &ensured), DrainAction::Insert(1));
    p.insert_done(true);
    assert_eq!(p.next_action(&groups, &ensured), DrainAction::Ack);
}

#[test]
fn tables_are_ensured_once_across_batches() {
    let groups = vec![("acme".to_string(), "r\n".to_string())];
    let mut ensured: Vec<String> = Vec::new();
    let mut p = DrainProgress::new();
    assert_eq!(p.next_action(&groups, &ensured), DrainAction::EnsureTable(0));
    p.table_done(true, &groups, &mut ensured);
    p.insert_done(true);
    assert_eq!(p.next_action(&groups, &ensured), DrainAction::Ack);
    // The next batch for the same tenant goes straight to the insert.
    let mut q = DrainProgress::new();
    assert_eq!(q.next_action(&groups, &ensured), DrainAction::Insert(0));
    q.insert_done(true);
    assert_eq!(ensured, strings(&["acme"]));
}

#[test]
fn a_failed_step_leaves_the_batch_unacked() {
    let groups = vec![("acme".to_string(), "r\n".to_string()), ("beta".to_string(), "s\n".to_string())];
    let mut ensured: Vec<String> = Vec::new();
    let mut p = DrainProgress::new();
    assert_eq!(p.next_action(&groups, &ensured), DrainAction::EnsureTable(0));
    p.table_done(false, &groups, &mut ensured);
    assert!(ensured.is_empty());
    assert_eq!(p.next_action(&groups, &ensured), DrainAction::Retry);

    let mut q = DrainProgress::new();
    q.table_done(true, &groups, &mut ensured);
    q.insert_done(false);
    assert_eq!(q.next_action(&groups, &ensured), DrainAction::Retry);
    q.insert_done(true);
    assert_eq!(q.next_action(&groups, &ensured), DrainAction::Retry);
}
