use briefly::citation::{Citation, DoiCitation};
use briefly::footnote::{list_references, FootnoteUsageTable, MdEvent};

fn reference(key: &str, text: &str) -> (String, Citation) {
    (key.to_string(), Citation::Raw(text.to_string()))
}

fn listed(pairs: &[(&str, &str)]) -> Vec<(String, String)> {
    pairs.iter().map(|(k, t)| (k.to_string(), t.to_string())).collect()
}

#[test]
fn ordinals_count_first_citations_from_zero() {
    let mut table = FootnoteUsageTable::new();
    assert_eq!(table.len(), 0);
    assert_eq!(table.ordinal("a"), None);
    assert_eq!(table.record("a"), 0);
    assert_eq!(table.record("b"), 1);
    assert_eq!(table.record("a"), 0);
    assert_eq!(table.record("c"), 2);
    assert_eq!(table.record("b"), 1);
    assert_eq!(table.len(), 3);
    assert_eq!(table.ordinal("a"), Some(0));
    assert_eq!(table.ordinal("c"), Some(2));
    assert_eq!(table.ordinal("d"), None);
}

#[test]
fn events_are_recorded_in_order() {
    let mut table = FootnoteUsageTable::new();
    table.record_events(&vec![
        MdEvent::Other,
        MdEvent::FootnoteReference("x".to_string()),
        MdEvent::Other,
        MdEvent::FootnoteReference("y".to_string()),
        MdEvent::FootnoteReference("x".to_string()),
    ]);
    assert_eq!(table.len(), 2);
    assert_eq!(table.ordinal("x"), Some(0));
    assert_eq!(table.ordinal("y"), Some(1));
    table.record_events(&Vec::new());
    assert_eq!(table.len(), 2);
}

#[test]
fn markdown_citations_are_recorded() {
    let mut table = FootnoteUsageTable::new();
    table.record_markdown("Earlier work[^smith] was extended[^jones], building on[^smith].");
    table.record_markdown("No citation here, only a [link](https://example.org).");
    table.record_markdown("Again[^jones] and new[^lee].");
    assert_eq!(table.len(), 3);
    assert_eq!(table.ordinal("smith"), Some(0));
    assert_eq!(table.ordinal("jones"), Some(1));
    assert_eq!(table.ordinal("lee"), Some(2));
    assert_eq!(table.ordinal("Earlier work[^smith]"), None);
}

#[test]
fn first_pass_lists_every_plain_reference() {
    let references = vec![
        reference("b", "B"),
        ("pending".to_string(), Citation::Doi(DoiCitation::new("d".to_string()))),
        reference("a", "A"),
        ("dated".to_string(), Citation::RawWithYear { text: "D".to_string(), year: None }),
    ];
    assert_eq!(list_references(&references, None), listed(&[("b", "B"), ("a", "A")]));
}

#[test]
fn final_pass_lists_cited_references_by_first_citation() {
    let references = vec![
        reference("a", "A"),
        reference("never", "N"),
        reference("b", "B"),
        reference("c", "C"),
    ];
    let mut table = FootnoteUsageTable::new();
    table.record("c");
    table.record("a");
    table.record("c");
    table.record("missing");
    table.record("b");
    table.record("a");
    let list = list_references(&references, Some(&table));
    assert_eq!(list, listed(&[("c", "C"), ("a", "A"), ("b", "B")]));
}

#[test]
fn final_pass_with_empty_table_lists_nothing() {
    let references = vec![reference("a", "A")];
    let table = FootnoteUsageTable::new();
    assert!(list_references(&references, Some(&table)).is_empty());
    assert!(list_references(&Vec::new(), Some(&table)).is_empty());
    assert!(list_references(&Vec::new(), None).is_empty());
}

#[test]
fn two_passes_over_a_body() {
    let references = vec![reference("x", "X"), reference("y", "Y"), reference("z", "Z")];
    let mut first_pass = FootnoteUsageTable::new();
    assert_eq!(list_references(&references, None).len(), 3);
    first_pass.record_markdown("Uses[^z] and then[^x] and again[^z].");
    let list = list_references(&references, Some(&first_pass));
    assert_eq!(list, listed(&[("z", "Z"), ("x", "X")]));
}
