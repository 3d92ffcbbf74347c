use container_dash::containers::{port_map_list_to_html_ul, Container};
use container_dash::ports::PortMapping;
use container_dash::protocol::Protocol;

#[test]
fn protocol_names() {
    assert_eq!(Protocol::Tcp.as_str(), "TCP");
    assert_eq!(Protocol::Udp.as_str(), "UDP");
    assert_eq!(Protocol::Empty.as_str(), "Empty");
    assert_eq!(Protocol::Other.as_str(), "Other");
}

#[test]
fn list_item_renders_all_parts() {
    let m = PortMapping::parse("0.0.0.0:8080->80/tcp").expect("well-formed fragment");
    assert_eq!(m.to_html_list_item(), "<li>8080 -> 80, on 0.0.0.0 (TCP)</li>");
}

#[test]
fn list_item_renders_sentinel() {
    let m = PortMapping::parse("0.0.0.0:abc->80/udp").expect("fragment still parses");
    assert_eq!(m.to_html_list_item(), "<li>-1 -> 80, on 0.0.0.0 (UDP)</li>");
}

#[test]
fn port_list_renders_as_ul() {
    let a = PortMapping::parse("0.0.0.0:1->2/tcp").unwrap();
    let b = PortMapping::parse("127.0.0.1:3->4/udp").unwrap();
    let ul = port_map_list_to_html_ul(&vec![a, b]);
    assert_eq!(
        ul,
        "<ul><li>1 -> 2, on 0.0.0.0 (TCP)</li><li>3 -> 4, on 127.0.0.1 (UDP)</li></ul>"
    );
}

#[test]
fn empty_port_list_renders_empty_ul() {
    assert_eq!(port_map_list_to_html_ul(&vec![]), "<ul></ul>");
}

#[test]
fn table_row_renders_all_columns() {
    let line = "\"abc123;0.0.0.0:8080->80/tcp, 443/tcp;myapp;nginx:latest;2 hours\"";
    let c = Container::parse(line).expect("well-formed line");
    let expected = "<tr><td>myapp</td><td><ul><li>8080 -> 80, on 0.0.0.0 (TCP)</li></ul></td><td>nginx:latest</td><td>abc123</td></tr>";
    assert_eq!(c.to_html_tr(), expected);
}

#[test]
fn row_view_of_portless_container_has_empty_list() {
    let c = Container::parse("xyz;80/tcp, 443/tcp;web;img:1").expect("well-formed line");
    assert!(c.ports().is_empty());
    assert_eq!(
        c.to_html_tr(),
        "<tr><td>web</td><td><ul></ul></td><td>img:1</td><td>xyz</td></tr>"
    );
}

#[test]
fn card_renders_port_links() {
    let line = "\"abc123;0.0.0.0:8080->80/tcp, 443/tcp;myapp;nginx:latest;2 hours\"";
    let c = Container::parse(line).expect("well-formed line");
    let card = c.to_html_card("myhost");
    let expected = "<div class=\"card\"><h3>myapp</h3><span class=\"uptime\">2 hours</span><p>nginx:latest</p><p>abc123</p><div class=\"ports\"><a href=\"http://myhost:80/\">80</a></div></div>";
    assert_eq!(card, expected);
}

#[test]
fn card_of_portless_container_shows_placeholder() {
    let c = Container::parse("xyz;80/tcp;web;img:1;3 days").expect("well-formed line");
    assert!(c.ports().is_empty());
    let expected = "<div class=\"card\"><h3>web</h3><span class=\"uptime\">3 days</span><p>img:1</p><p>xyz</p><div class=\"ports\">No ports exposed</div></div>";
    assert_eq!(c.to_html_card("localhost"), expected);
}
