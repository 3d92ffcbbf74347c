use container_dash::containers::{containers_from_fetch, parse_listing, Container};
use container_dash::ports::PortMapping;
use container_dash::protocol::Protocol;

#[test]
fn classify_is_case_insensitive_and_total() {
    assert_eq!(Protocol::classify("TCP"), Protocol::Tcp);
    assert_eq!(Protocol::classify("tcp"), Protocol::Tcp);
    assert_eq!(Protocol::classify("Tcp"), Protocol::Tcp);
    assert_eq!(Protocol::classify("UDP"), Protocol::Udp);
    assert_eq!(Protocol::classify("udp"), Protocol::Udp);
    assert_eq!(Protocol::classify(""), Protocol::Empty);
    assert_eq!(Protocol::classify("sctp"), Protocol::Other);
    assert_eq!(Protocol::classify("tc"), Protocol::Other);
    assert_eq!(Protocol::classify("tcpp"), Protocol::Other);
}

#[test]
fn fragment_parses_all_parts() {
    let m = PortMapping::parse("0.0.0.0:8080->80/tcp").expect("well-formed fragment");
    assert_eq!(m.ip_addr(), "0.0.0.0");
    assert_eq!(m.source_port(), 8080);
    assert_eq!(m.target_port(), 80);
    assert_eq!(m.protocol(), Protocol::Tcp);
}

#[test]
fn fragment_recovers_with_sentinel_on_bad_number() {
    let m = PortMapping::parse("0.0.0.0:abc->80/tcp").expect("fragment still parses");
    assert_eq!(m.source_port(), -1);
    assert_eq!(m.target_port(), 80);
    let m = PortMapping::parse("1.2.3.4:99999999999->80/udp").expect("fragment still parses");
    assert_eq!(m.source_port(), -1);
    assert_eq!(m.target_port(), 80);
    assert_eq!(m.protocol(), Protocol::Udp);
}

#[test]
fn fragment_without_slash_is_rejected() {
    assert!(PortMapping::parse("0.0.0.0:8080->80").is_none());
}

#[test]
fn fragment_without_port_tokens_is_rejected() {
    assert!(PortMapping::parse("443/tcp").is_none());
}

#[test]
fn fragment_with_empty_protocol_token() {
    let m = PortMapping::parse("1.2.3.4:8080->80/").expect("fragment still parses");
    assert_eq!(m.protocol(), Protocol::Empty);
}

#[test]
fn line_round_trip() {
    let line = "\"abc123;0.0.0.0:8080->80/tcp, 443/tcp;myapp;nginx:latest;2 hours\"";
    let c = Container::parse(line).expect("well-formed line");
    assert_eq!(c.id(), "abc123");
    assert_eq!(c.name(), "myapp");
    assert_eq!(c.image(), "nginx:latest");
    assert_eq!(c.time_running(), "2 hours");
    assert_eq!(c.ports().len(), 1);
    let m = &c.ports()[0];
    assert_eq!(m.ip_addr(), "0.0.0.0");
    assert_eq!(m.source_port(), 8080);
    assert_eq!(m.target_port(), 80);
    assert_eq!(m.protocol(), Protocol::Tcp);
}

#[test]
fn line_with_four_fields_has_empty_uptime() {
    let c = Container::parse("id1;;name1;img1").expect("four fields are enough");
    assert_eq!(c.id(), "id1");
    assert_eq!(c.name(), "name1");
    assert_eq!(c.image(), "img1");
    assert_eq!(c.time_running(), "");
    assert!(c.ports().is_empty());
}

#[test]
fn line_with_too_few_fields_is_rejected() {
    assert!(Container::parse("a;b").is_none());
    assert!(Container::parse("").is_none());
}

#[test]
fn mapped_fragment_count_is_kept() {
    let line = "id;0.0.0.0:1->2/tcp,443/tcp,127.0.0.1:3->4/udp;n;i";
    let c = Container::parse(line).expect("well-formed line");
    assert_eq!(c.ports().len(), 2);
    assert_eq!(c.ports()[0].source_port(), 1);
    assert_eq!(c.ports()[1].source_port(), 3);
}

#[test]
fn parsing_twice_is_idempotent() {
    let line = "\"abc123;0.0.0.0:8080->80/tcp, 443/tcp;myapp;nginx:latest;2 hours\"";
    let a = Container::parse(line).expect("well-formed line");
    let b = Container::parse(line).expect("well-formed line");
    assert_eq!(a, b);
}

#[test]
fn listing_drops_empty_lines_and_bad_records() {
    let text = "a;0.0.0.0:1->2/tcp;n1;i1\n\nbad\nb;;n2;i2\n";
    let cs = parse_listing(text);
    assert_eq!(cs.len(), 2);
    assert_eq!(cs[0].id(), "a");
    assert_eq!(cs[1].id(), "b");
}

#[test]
fn failed_fetch_degrades_to_empty_listing() {
    let cs = containers_from_fetch(None);
    assert!(cs.is_empty());
}

#[test]
fn successful_fetch_parses_listing() {
    let cs = containers_from_fetch(Some(String::from("x;;web;img\n")));
    assert_eq!(cs.len(), 1);
    assert_eq!(cs[0].name(), "web");
}
