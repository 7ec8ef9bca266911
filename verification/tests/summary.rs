use route_summary::{
    create_summary_route, parse_route, try_create_summary_route, IPv4Address, IPv4Mask,
    RouteError, RoutePair,
};

fn route(line: &str) -> RoutePair {
    parse_route(line).unwrap()
}

fn routes(lines: &[&str]) -> Vec<RoutePair> {
    lines.iter().map(|line| route(line)).collect()
}

#[test]
fn summary_of_adjacent_networks() {
    let summary = create_summary_route(routes(&["10.0.0.0/24", "10.0.1.0/24"]));
    assert_eq!(summary.0.to_string(), "10.0.0.0");
    assert_eq!(summary.1.prefix_len(), 23);
}

#[test]
fn summary_of_networks_two_apart() {
    let summary = create_summary_route(routes(&["10.0.0.0/24", "10.0.2.0/24"]));
    assert_eq!(summary.0.to_string(), "10.0.0.0");
    assert_eq!(summary.1.prefix_len(), 22);
}

#[test]
fn summary_of_one_network_keeps_its_address() {
    let summary = create_summary_route(routes(&["192.168.1.0/24"]));
    assert_eq!(summary.0, IPv4Address::new(0xc0a8_0100));
    assert_eq!(summary.0.to_string(), "192.168.1.0");
    assert_eq!(summary.1, IPv4Mask::new(32).unwrap());
}

#[test]
fn summary_of_addresses_differing_in_first_bit() {
    let summary = create_summary_route(routes(&["0.0.0.0/8", "128.0.0.0/8"]));
    assert_eq!(summary.0.bits(), 0);
    assert_eq!(summary.0.to_string(), "0.0.0.0");
    assert_eq!(summary.1.prefix_len(), 0);
}

#[test]
fn summary_of_equal_addresses_is_the_whole_address() {
    let summary = create_summary_route(routes(&["10.0.0.0/8", "10.0.0.0/16", "10.0.0.0/8"]));
    assert_eq!(summary.0.to_string(), "10.0.0.0");
    assert_eq!(summary.1.prefix_len(), 32);
}

#[test]
fn summary_goes_by_addresses_and_not_by_masks() {
    let summary = create_summary_route(routes(&["10.1.0.0/16", "10.1.64.0/18"]));
    assert_eq!(summary.0.to_string(), "10.1.0.0");
    assert_eq!(summary.1.prefix_len(), 17);
}

#[test]
fn summary_of_addresses_differing_in_last_bit() {
    let summary = create_summary_route(routes(&["1.2.3.4/32", "1.2.3.5/32"]));
    assert_eq!(summary.0.to_string(), "1.2.3.4");
    assert_eq!(summary.1.prefix_len(), 31);
}

#[test]
fn summary_clears_the_bits_outside_the_prefix() {
    let summary = create_summary_route(routes(&["10.0.1.0/24", "10.0.0.0/24"]));
    assert_eq!(summary.0.to_string(), "10.0.0.0");
    assert_eq!(summary.1.prefix_len(), 23);
    assert_eq!(summary.0.bits() & summary.1.netid_mask(), summary.0.bits());
}

#[test]
fn summary_covers_every_route_and_no_longer_prefix_does() {
    let sets: [&[&str]; 4] = [
        &["172.16.0.0/16", "172.17.0.0/16", "172.18.0.0/16", "172.19.0.0/16"],
        &["192.168.0.0/24", "192.168.255.0/24"],
        &["8.8.8.8/32", "8.8.4.4/32", "1.1.1.1/32"],
        &["224.0.0.0/4", "240.0.0.0/4"],
    ];
    for set in sets {
        let pairs = routes(set);
        let summary = create_summary_route(pairs.clone());
        let len = summary.1.prefix_len();
        let bits = summary.1.netid_mask();
        for pair in &pairs {
            assert_eq!(pair.0.bits() & bits, summary.0.bits());
        }
        let longer = IPv4Mask::new(len + 1).unwrap().netid_mask();
        assert!(pairs.iter().any(|pair| pair.0.bits() & longer != pairs[0].0.bits() & longer));
    }
}

#[test]
fn summary_of_known_sets() {
    let summary = create_summary_route(routes(&[
        "172.16.0.0/16",
        "172.17.0.0/16",
        "172.18.0.0/16",
        "172.19.0.0/16",
    ]));
    assert_eq!(summary.0.to_string(), "172.16.0.0");
    assert_eq!(summary.1.prefix_len(), 14);
}

#[test]
fn summary_does_not_depend_on_the_order() {
    let forward = create_summary_route(routes(&["10.0.4.0/24", "10.0.7.0/24", "10.0.5.0/24"]));
    let backward = create_summary_route(routes(&["10.0.5.0/24", "10.0.7.0/24", "10.0.4.0/24"]));
    assert_eq!(forward, backward);
    assert_eq!(forward.0.to_string(), "10.0.4.0");
    assert_eq!(forward.1.prefix_len(), 22);
}

#[test]
fn try_create_summary_route_refuses_no_routes() {
    assert_eq!(try_create_summary_route(Vec::new()), Err(RouteError::EmptyInputSet));
}

#[test]
fn try_create_summary_route_summarizes_routes() {
    let pairs = routes(&["10.0.0.0/24", "10.0.1.0/24"]);
    assert_eq!(try_create_summary_route(pairs.clone()), Ok(create_summary_route(pairs)));
    assert_eq!(
        try_create_summary_route(routes(&["10.0.0.0/24", "10.0.1.0/24"])),
        Ok((IPv4Address::new(0x0a00_0000), IPv4Mask::new(23).unwrap()))
    );
}
