use rabbit_digger::error::Error;
use rabbit_digger::name_map::NameMap;
use rabbit_digger::net::{Net, NetNode, NoopNet};
use rabbit_digger::reference::{default_net, NetMap, NetRef, ResolveNetRef};
use std::sync::Arc;

fn noop() -> Net {
    Arc::new(NetNode::Noop(NoopNet))
}

#[test]
fn test_net_ref() {
    let mut test: Vec<NetRef> = vec![NetRef::from("test".to_string())];

    assert_eq!(test[0].name(), "test");

    let mut net_map: NetMap = NameMap::new();
    let noop = noop();

    net_map.insert("test".to_string(), noop.clone());
    test.resolve(&net_map).unwrap();

    assert_eq!(Arc::as_ptr(&test[0].net()), Arc::as_ptr(&noop))
}

#[test]
fn default_reference_is_local() {
    assert_eq!(default_net().name(), "local");
    let r: NetRef = Default::default();
    assert_eq!(r.name(), "local");
}

#[test]
fn resolve_missing_name_is_not_found() {
    let mut refs = vec![NetRef::from("a".to_string()), NetRef::from("b".to_string())];
    let mut nets: NetMap = NameMap::new();
    nets.insert("a".to_string(), noop());
    assert_eq!(refs.resolve(&nets), Err(Error::NotFound("b".to_string())));
}

#[test]
fn resolve_option_and_nested() {
    let mut cfg: Option<Vec<NetRef>> = Some(vec![NetRef::from("x".to_string())]);
    let mut nets: NetMap = NameMap::new();
    let x = noop();
    nets.insert("x".to_string(), x.clone());
    assert_eq!(cfg.resolve(&nets), Ok(()));
    assert!(Arc::ptr_eq(&cfg.as_ref().unwrap()[0].net(), &x));
    let mut none: Option<NetRef> = None;
    assert_eq!(none.resolve(&NameMap::new()), Ok(()));
}

#[test]
fn get_dependency_finds_each_name_once() {
    let mut cfg = vec![
        NetRef::from("a".to_string()),
        NetRef::from("b".to_string()),
        NetRef::from("c".to_string()),
    ];
    let mut deps = cfg.get_dependency().unwrap();
    deps.sort();
    assert_eq!(deps, vec!["a".to_string(), "b".to_string(), "c".to_string()]);

    let mut repeated = vec![
        NetRef::from("c".to_string()),
        NetRef::from("a".to_string()),
        NetRef::from("c".to_string()),
    ];
    let mut deps = repeated.get_dependency().unwrap();
    deps.sort();
    assert_eq!(deps, vec!["a".to_string(), "c".to_string()]);
}

#[test]
fn get_dependency_of_nothing_is_empty() {
    let mut cfg: Vec<NetRef> = Vec::new();
    assert_eq!(cfg.get_dependency().unwrap(), Vec::<String>::new());
    let mut s = "plain".to_string();
    assert_eq!(s.get_dependency().unwrap(), Vec::<String>::new());
}
