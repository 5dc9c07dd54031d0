use lojix_macros::codegen::{plan_domain, plan_fold, DomainEnum, Registry};
use lojix_macros::db::{columns_query, probe_query, query_domain_variants, EnumDomainScan};
use lojix_macros::rows::{Cell, QueryResult, Row};

fn text_cell(s: &str) -> Cell {
    Cell { text: Some(s.to_string()), tagged_text: None, flag: None, tagged_flag: None }
}

fn flag_cell(b: bool) -> Cell {
    Cell { text: None, tagged_text: None, flag: Some(b), tagged_flag: None }
}

fn answer(rows: Vec<Vec<Cell>>) -> Result<QueryResult, String> {
    Ok(QueryResult { rows: Some(rows.into_iter().map(|cells| Row { cells: Some(cells) }).collect()) })
}

fn names_answer(names: &[&str]) -> Result<QueryResult, String> {
    answer(names.iter().map(|n| vec![text_cell(n)]).collect())
}

/// The keys of each domain of the schema, as the database answers them
/// (ordered by name).
fn domain_rows(domain: &str) -> Result<QueryResult, String> {
    match domain {
        "Phase" => names_answer(&["becoming", "manifest", "retired"]),
        "Element" => names_answer(&["air", "earth", "fire", "water"]),
        "Dignity" => names_answer(&["delusion", "eternal", "proven", "seen", "uncertain"]),
        _ => Err(format!("relation {domain} not found")),
    }
}

fn domain(name: &str) -> DomainEnum {
    plan_domain(name, query_domain_variants(name, domain_rows(name))).unwrap()
}

/// Builds the registry as `domain_registry!()` does: the registered
/// domains with one key column and a row, each with its variants.
fn registry() -> Registry {
    let mut scan = EnumDomainScan::start(names_answer(&["Dignity", "Element", "Phase"])).unwrap();
    while let Some(q) = scan.next_query() {
        let columns = ["Dignity", "Element", "Phase"].iter().any(|n| q == columns_query(n));
        let probe = ["Dignity", "Element", "Phase"].iter().any(|n| q == probe_query(n));
        assert!(columns || probe);
        if columns {
            scan.feed(answer(vec![vec![text_cell("name"), flag_cell(true)]]));
        } else {
            scan.feed(answer(vec![vec![text_cell("x")]]));
        }
    }
    let names = scan.found();
    let answers = names.iter().map(|name| query_domain_variants(name, domain_rows(name))).collect();
    Registry::from_answers(&names, answers).unwrap()
}

fn registry_domain<'a>(reg: &'a Registry, name: &str) -> &'a DomainEnum {
    reg.domain_at(reg.position(name).unwrap())
}

#[test]
fn individual_domain_works() {
    let phase = domain("Phase");
    let manifest = phase.variant("Manifest").unwrap();
    assert_eq!(phase.name(manifest), "manifest");
    assert_eq!(phase.count(), 3);
}

#[test]
fn phase_discriminant_roundtrip() {
    let phase = domain("Phase");
    for v in phase.all() {
        let d = phase.discriminant(v);
        let recovered = phase.from_discriminant(d).unwrap();
        assert_eq!(v, recovered);
    }
}

#[test]
fn phase_from_str() {
    let phase = domain("Phase");
    assert_eq!(phase.from_str("manifest").unwrap(), phase.variant("Manifest").unwrap());
    assert!(phase.from_str("bogus").is_err());
}

#[test]
fn fold_exhaustive() {
    let phase = domain("Phase");
    let val = phase.variant("Manifest").unwrap();
    let arms = vec!["Becoming".to_string(), "Manifest".to_string(), "Retired".to_string()];
    let bodies = ["becoming", "manifest", "retired"];
    let plan = plan_fold("Phase", query_domain_variants("Phase", domain_rows("Phase")), arms).unwrap();
    let result = bodies[plan.arm_for(&phase.ident(val)).unwrap()];
    assert_eq!(result, "manifest");
}

#[test]
fn registry_generates_all_domains() {
    let reg = registry();
    assert!(reg.domain_count() > 0);
    assert!(reg.domain_names().len() == reg.domain_count());
}

#[test]
fn registry_translate_works() {
    let reg = registry();
    let result = reg.translate_domain("Phase", 1);
    assert_eq!(result, Some("manifest".to_string()));
}

#[test]
fn registry_translate_unknown_domain() {
    let reg = registry();
    assert_eq!(reg.translate_domain("Bogus", 0), None);
}

#[test]
fn registry_element_exists() {
    let reg = registry();
    let element = registry_domain(&reg, "Element");
    assert_eq!(element.count(), 4);
    assert_eq!(element.name(element.variant("Fire").unwrap()), "fire");
}

#[test]
fn registry_dignity_exists() {
    let reg = registry();
    assert_eq!(registry_domain(&reg, "Dignity").count(), 5);
}
