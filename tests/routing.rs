use rabbit_digger::domain::{DomainMatcher, Method};
use rabbit_digger::error::{Address, Error, IpAddress};
use rabbit_digger::name_map::NameMap;
use rabbit_digger::net::{
    build_composite, CombineNet, Composite, Matcher, Net, NetNode, NoopNet, Operation, RuleConfig,
    RuleNet, SelectNet,
};
use std::sync::Arc;

fn leaf(name: &str) -> Net {
    Arc::new(NetNode::Leaf(name.to_string()))
}

fn domain(d: &str) -> Address {
    Address::Domain(d.to_string(), 443)
}

fn matcher(method: Method, pattern: &str) -> DomainMatcher {
    DomainMatcher { method, domain: pattern.to_string() }
}

#[test]
fn suffix_matches_domain_and_subdomains_only() {
    let m = matcher(Method::Suffix, "example.com");
    assert!(m.test("www.example.com"));
    assert!(m.test("example.com"));
    assert!(!m.test("notexample.com"));
    assert!(!m.test("example.org"));
}

#[test]
fn keyword_matches_substring() {
    let m = matcher(Method::Keyword, "ads");
    assert!(m.test("ads.tracker.com"));
    assert!(m.test("myads"));
    assert!(!m.test("tracker.com"));
}

#[test]
fn match_requires_identical_domain() {
    let m = matcher(Method::Match, "example.com");
    assert!(m.test("example.com"));
    assert!(!m.test("www.example.com"));
    assert!(!m.test("example.co"));
}

#[test]
fn matchers_pass_over_socket_addresses() {
    let addr = Address::SocketAddr(IpAddress::V4(0x7f000001), 80);
    for method in [Method::Keyword, Method::Suffix, Method::Match] {
        assert!(!matcher(method, "").match_rule(&addr));
    }
    assert!(matcher(Method::Keyword, "").match_rule(&domain("x")));
}

#[test]
fn method_from_string() {
    assert_eq!(Method::try_from("keyword".to_string()), Ok(Method::Keyword));
    assert_eq!(Method::try_from("suffix".to_string()), Ok(Method::Suffix));
    assert_eq!(Method::try_from("match".to_string()), Ok(Method::Match));
    assert!(matches!(Method::try_from("regex".to_string()), Err(Error::Other(_))));
}

fn rule_net() -> Net {
    let mut nets = NameMap::new();
    nets.insert("netA".to_string(), leaf("A"));
    nets.insert("netB".to_string(), leaf("B"));
    let rules = vec![
        RuleConfig {
            matcher: Matcher::Domain(matcher(Method::Suffix, "example.com")),
            target: "netA".to_string(),
        },
        RuleConfig { matcher: Matcher::Any, target: "netB".to_string() },
    ];
    RuleNet::new(&nets, rules).unwrap()
}

#[test]
fn rule_routes_to_first_matching_target() {
    let net = rule_net();
    assert_eq!(net.tcp_connect(&domain("foo.example.com")), Ok("A".to_string()));
    assert_eq!(net.tcp_connect(&domain("other.com")), Ok("B".to_string()));
    assert_eq!(net.udp_bind(&domain("example.com")), Ok("A".to_string()));
    let ip = Address::SocketAddr(IpAddress::V6(1), 53);
    assert_eq!(net.tcp_bind(&ip), Ok("B".to_string()));
}

#[test]
fn rule_without_match_fails() {
    let mut nets = NameMap::new();
    nets.insert("netA".to_string(), leaf("A"));
    let rules = vec![RuleConfig {
        matcher: Matcher::Domain(matcher(Method::Match, "a.com")),
        target: "netA".to_string(),
    }];
    let net = build_composite(nets, Composite::Rule(rules)).unwrap();
    assert_eq!(net.tcp_connect(&domain("b.com")), Err(Error::NotImplemented));
}

#[test]
fn rule_with_unknown_target_is_not_found() {
    let nets: NameMap<Net> = NameMap::new();
    let rules = vec![RuleConfig { matcher: Matcher::Any, target: "gone".to_string() }];
    assert!(matches!(RuleNet::new(&nets, rules), Err(Error::NotFound(n)) if n == "gone"));
}

#[test]
fn select_needs_a_candidate() {
    assert!(SelectNet::new(NameMap::new()).is_err());
    assert!(build_composite(NameMap::new(), Composite::Select).is_err());
}

#[test]
fn select_forwards_to_first_candidate() {
    let mut nets = NameMap::new();
    nets.insert("one".to_string(), leaf("first"));
    nets.insert("two".to_string(), leaf("second"));
    let net = SelectNet::new(nets).unwrap();
    for op in [Operation::TcpConnect, Operation::TcpBind, Operation::UdpBind] {
        assert_eq!(net.route(op, &domain("x.org")), Ok("first".to_string()));
    }
}

#[test]
fn combine_routes_each_operation() {
    let net = NetNode::Combine(CombineNet {
        tcp_connect: leaf("c"),
        tcp_bind: leaf("b"),
        udp_bind: Arc::new(NetNode::Noop(NoopNet)),
    });
    let a = domain("x");
    assert_eq!(net.tcp_connect(&a), Ok("c".to_string()));
    assert_eq!(net.tcp_bind(&a), Ok("b".to_string()));
    assert_eq!(net.udp_bind(&a), Err(Error::NotImplemented));
}

#[test]
fn noop_answers_not_implemented() {
    let a = domain("x");
    assert_eq!(NoopNet.tcp_connect(&a), Err(Error::NotImplemented));
    assert_eq!(NoopNet.tcp_bind(&a), Err(Error::NotImplemented));
    assert_eq!(NoopNet.udp_bind(&a), Err(Error::NotImplemented));
}
