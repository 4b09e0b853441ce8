use rabbit_digger::error::Error;
use rabbit_digger::graph::build_plan;
use rabbit_digger::name_map::NameMap;
use rabbit_digger::topo::{build_order, topological_sort};

fn map_of(names: &[&str]) -> NameMap<u32> {
    let mut m = NameMap::new();
    for (i, n) in names.iter().enumerate() {
        m.insert(n.to_string(), i as u32);
    }
    m
}

fn deps(lists: &[&[&str]]) -> Vec<Vec<String>> {
    lists
        .iter()
        .map(|l| l.iter().map(|s| s.to_string()).collect())
        .collect()
}

fn position(out: &[(String, u32)], name: &str) -> usize {
    out.iter().position(|(n, _)| n == name).unwrap()
}

#[test]
fn acyclic_entries_come_after_their_dependencies() {
    let m = map_of(&["rule", "proxy", "local", "select"]);
    let d = deps(&[&["proxy", "local"], &["local"], &[], &["proxy", "rule"]]);
    let out = topological_sort(m, &d).unwrap();
    assert_eq!(out.len(), 4);
    assert!(position(&out, "local") < position(&out, "proxy"));
    assert!(position(&out, "proxy") < position(&out, "rule"));
    assert!(position(&out, "rule") < position(&out, "select"));
    assert_eq!(out[position(&out, "select")].1, 3);
}

#[test]
fn independent_entries_keep_insertion_order() {
    let m = map_of(&["c", "a", "b"]);
    let d = deps(&[&[], &[], &[]]);
    let out = topological_sort(m, &d).unwrap();
    let names: Vec<&str> = out.iter().map(|(n, _)| n.as_str()).collect();
    assert_eq!(names, vec!["c", "a", "b"]);
}

#[test]
fn cycle_gives_no_order_even_with_acyclic_part() {
    let m = map_of(&["free", "x", "y"]);
    let d = deps(&[&[], &["y"], &["x"]]);
    assert!(topological_sort(m, &d).is_none());
    let m = map_of(&["self"]);
    assert!(build_order(&m, &deps(&[&["self"]])).is_none());
}

#[test]
fn unknown_dependency_names_do_not_order() {
    let m = map_of(&["a", "b"]);
    let d = deps(&[&["elsewhere"], &["a"]]);
    assert_eq!(build_order(&m, &d), Some(vec![0, 1]));
}

#[test]
fn empty_map_sorts_to_empty() {
    let m = map_of(&[]);
    assert_eq!(topological_sort(m, &Vec::new()), Some(Vec::new()));
}

#[test]
fn build_plan_reports_undefined_reference() {
    let m = map_of(&["a", "b"]);
    let d = deps(&[&["b"], &["missing"]]);
    assert_eq!(build_plan(&m, &d), Err(Error::NotFound("missing".to_string())));
}

#[test]
fn build_plan_reports_cycle() {
    let m = map_of(&["a", "b"]);
    let d = deps(&[&["b"], &["a"]]);
    assert_eq!(build_plan(&m, &d), Err(Error::Cycle));
}

#[test]
fn build_plan_orders_instances() {
    let m = map_of(&["a", "b", "c"]);
    let d = deps(&[&["c"], &[], &["b"]]);
    assert_eq!(build_plan(&m, &d), Ok(vec![1, 2, 0]));
}

#[test]
fn name_map_insert_overwrites_in_place() {
    let mut m = map_of(&["a", "b"]);
    m.insert("a".to_string(), 9);
    assert_eq!(m.len(), 2);
    assert_eq!(m.get(&"a".to_string()), Some(&9));
    assert_eq!(m.entry(0).0, "a");
    assert_eq!(m.get(&"z".to_string()), None);
    assert!(m.contains_key(&"b".to_string()));
}
