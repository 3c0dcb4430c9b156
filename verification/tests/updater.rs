use change_flare::address::{ExternalAddress, IpAddress};
use change_flare::cloudflare::{CloudFlareApi, CloudflareResponse, CloudflareResult};
use change_flare::updater::{
    Action, ApiTrait, Environment, Event, FetchError, Phase, ResolveError, UpdateReply, Updater,
    STUN_SERVER,
};

type Loop = Updater<CloudFlareApi>;

fn updater_with_key(api_key: &str, poll_rate: usize) -> Loop {
    let environment = Environment {
        poll_rate: None,
        api_key: None,
        zone_id: Some("zone".to_string()),
    };
    Updater::new(poll_rate, api_key.to_string(), &environment)
}

fn updater() -> Loop {
    updater_with_key("key", 60)
}

fn entry(id: &str, name: &str, content: &str) -> CloudflareResult {
    CloudflareResult {
        id: id.to_string(),
        name: name.to_string(),
        content: content.to_string(),
        record_type: "A".to_string(),
        ttl: 1,
        proxied: false,
        zone_id: "zone".to_string(),
    }
}

fn answer(result: Vec<CloudflareResult>) -> Event<CloudFlareApi> {
    Event::Fetched(Ok(CloudflareResponse { success: true, result }))
}

fn resolved(a: u8, b: u8, c: u8, d: u8) -> Event<CloudFlareApi> {
    Event::Discovered(Ok(ExternalAddress::new(IpAddress::V4(a, b, c, d), 54321)))
}

fn stun_endpoints() -> Event<CloudFlareApi> {
    Event::Located(Ok(vec![
        ExternalAddress::new(IpAddress::V6(0x2606, 0x4700, 0, 0, 0, 0, 0, 0x49), 3478),
        ExternalAddress::new(IpAddress::V4(162, 159, 207, 0), 3478),
        ExternalAddress::new(IpAddress::V4(162, 159, 207, 1), 3478),
    ]))
}

/// Brings a fresh cycle up to the fetch request.
fn up_to_fetch(updater: &mut Loop, a: u8, b: u8, c: u8, d: u8) {
    assert!(matches!(updater.run(Event::Wake), Action::Locate { .. }));
    assert!(matches!(updater.run(stun_endpoints()), Action::Discover { .. }));
    assert!(matches!(updater.run(resolved(a, b, c, d)), Action::Fetch(_)));
}

#[test]
fn a_cycle_starts_by_locating_the_discovery_service() {
    let mut updater = updater();
    assert_eq!(updater.phase(), Phase::Idle);
    match updater.run(Event::Wake) {
        Action::Locate { bind, name } => {
            assert_eq!(bind, ExternalAddress::new(IpAddress::V4(0, 0, 0, 0), 0));
            assert_eq!(name, "stun.cloudflare.com:3478");
            assert_eq!(name, STUN_SERVER);
        }
        _ => panic!("expected a lookup"),
    }
    assert_eq!(updater.phase(), Phase::Locating);
}

#[test]
fn the_first_ipv4_endpoint_of_the_discovery_service_is_queried() {
    let mut updater = updater();
    updater.run(Event::Wake);
    match updater.run(stun_endpoints()) {
        Action::Discover { server } => {
            assert_eq!(server, ExternalAddress::new(IpAddress::V4(162, 159, 207, 0), 3478));
        }
        _ => panic!("expected a query"),
    }
    assert_eq!(updater.phase(), Phase::Resolving);
}

#[test]
fn a_discovery_service_without_ipv4_endpoint_ends_the_cycle() {
    let mut updater = updater_with_key("key", 120);
    updater.run(Event::Wake);
    let only_v6 = Event::Located(Ok(vec![ExternalAddress::new(
        IpAddress::V6(0x2606, 0x4700, 0, 0, 0, 0, 0, 0x49),
        3478,
    )]));
    assert!(matches!(updater.run(only_v6), Action::Sleep(120)));
    assert_eq!(updater.phase(), Phase::Idle);

    updater.run(Event::Wake);
    assert!(matches!(updater.run(Event::Located(Ok(Vec::new()))), Action::Sleep(120)));
}

#[test]
fn check_ip_picks_the_first_ipv4_endpoint() {
    let api = CloudFlareApi::new(60, "key".to_string(), &Environment {
        poll_rate: None,
        api_key: None,
        zone_id: None,
    });
    let v6 = ExternalAddress::new(IpAddress::V6(1, 0, 0, 0, 0, 0, 0, 1), 3478);
    let first = ExternalAddress::new(IpAddress::V4(192, 0, 2, 1), 3478);
    let second = ExternalAddress::new(IpAddress::V4(192, 0, 2, 2), 3478);
    assert_eq!(api.check_ip(&vec![v6, first, second]), Ok(first));
    assert_eq!(api.check_ip(&vec![second, first]), Ok(second));
    assert_eq!(api.check_ip(&vec![v6]), Err(ResolveError::NoIpv4Server));
    assert_eq!(api.check_ip(&Vec::new()), Err(ResolveError::NoIpv4Server));
}

#[test]
fn a_failure_to_resolve_ends_the_cycle_without_record_work() {
    for failure in [ResolveError::Bind, ResolveError::Lookup] {
        let mut updater = updater();
        updater.run(Event::Wake);
        assert!(matches!(updater.run(Event::Located(Err(failure))), Action::Sleep(60)));
        assert_eq!(updater.phase(), Phase::Idle);
    }
    let mut updater = updater();
    updater.run(Event::Wake);
    updater.run(stun_endpoints());
    assert!(matches!(
        updater.run(Event::Discovered(Err(ResolveError::Exchange))),
        Action::Sleep(60)
    ));
    assert_eq!(updater.phase(), Phase::Idle);
    // the next cycle starts over
    assert!(matches!(updater.run(Event::Wake), Action::Locate { .. }));
}

#[test]
fn a_record_that_differs_is_updated_once() {
    let mut updater = updater();
    up_to_fetch(&mut updater, 203, 0, 113, 9);
    let action = updater.run(answer(vec![CloudflareResult {
        id: "r1".to_string(),
        name: "home.example.com".to_string(),
        content: "203.0.113.5".to_string(),
        record_type: "A".to_string(),
        ttl: 1,
        proxied: false,
        zone_id: "zone".to_string(),
    }]));
    match action {
        Action::Update(request) => {
            assert_eq!(
                request.url,
                "https://api.cloudflare.com/client/v4/zones/zone/dns_records/r1"
            );
            assert_eq!(request.payload.content, "203.0.113.9");
            assert_eq!(request.payload.name, "home.example.com");
            assert_eq!(request.payload.record_type, "A");
            assert_eq!(request.payload.ttl, 1);
            assert!(!request.payload.proxied);
        }
        _ => panic!("expected one update"),
    }
    assert_eq!(updater.phase(), Phase::Updating);
    assert!(matches!(updater.run(Event::Updated(UpdateReply::Status(200))), Action::Sleep(60)));
    assert_eq!(updater.phase(), Phase::Idle);
}

#[test]
fn a_record_that_agrees_is_left_alone() {
    let mut updater = updater();
    up_to_fetch(&mut updater, 203, 0, 113, 9);
    let action = updater.run(answer(vec![entry("r1", "home.example.com", "203.0.113.9")]));
    assert!(matches!(action, Action::Sleep(60)));
    assert_eq!(updater.phase(), Phase::Idle);
}

#[test]
fn an_empty_snapshot_is_a_cycle_without_updates() {
    let mut updater = updater();
    up_to_fetch(&mut updater, 203, 0, 113, 9);
    assert!(matches!(updater.run(answer(Vec::new())), Action::Sleep(60)));
}

#[test]
fn records_are_updated_in_the_order_of_the_snapshot() {
    let mut updater = updater();
    up_to_fetch(&mut updater, 203, 0, 113, 9);
    let mut action = updater.run(answer(vec![
        entry("r1", "a.example.com", "203.0.113.5"),
        entry("r2", "b.example.com", "203.0.113.9"),
        entry("r3", "c.example.com", "not an address"),
        entry("r4", "d.example.com", "2001:db8::1"),
        entry("r5", "e.example.com", "203.0.113.6"),
    ]));
    let mut updated = Vec::new();
    loop {
        match action {
            Action::Update(request) => {
                assert_eq!(request.payload.content, "203.0.113.9");
                updated.push(request.payload.name.clone());
                action = updater.run(Event::Updated(UpdateReply::Status(200)));
            }
            Action::Sleep(seconds) => {
                assert_eq!(seconds, 60);
                break;
            }
            _ => panic!("expected an update or the sleep"),
        }
    }
    assert_eq!(updated, ["a.example.com", "d.example.com", "e.example.com"]);
}

#[test]
fn a_failed_update_does_not_stop_the_others() {
    let mut updater = updater();
    up_to_fetch(&mut updater, 203, 0, 113, 9);
    let first = updater.run(answer(vec![
        entry("r1", "a.example.com", "203.0.113.5"),
        entry("r2", "b.example.com", "203.0.113.6"),
    ]));
    assert!(matches!(first, Action::Update(_)));
    match updater.run(Event::Updated(UpdateReply::Failed)) {
        Action::Update(request) => assert_eq!(request.payload.name, "b.example.com"),
        _ => panic!("expected the second update"),
    }
    assert!(matches!(updater.run(Event::Updated(UpdateReply::Status(500))), Action::Sleep(60)));
}

#[test]
fn a_failed_update_is_tried_again_in_the_next_cycle() {
    let mut updater = updater();
    for _ in 0..2 {
        up_to_fetch(&mut updater, 203, 0, 113, 9);
        let action = updater.run(answer(vec![entry("r1", "a.example.com", "203.0.113.5")]));
        assert!(matches!(action, Action::Update(_)));
        assert!(matches!(updater.run(Event::Updated(UpdateReply::Failed)), Action::Sleep(60)));
    }
}

#[test]
fn a_failed_fetch_works_on_the_records_known_before() {
    let mut updater = updater();
    up_to_fetch(&mut updater, 203, 0, 113, 9);
    let action = updater.run(answer(vec![entry("r1", "a.example.com", "203.0.113.9")]));
    assert!(matches!(action, Action::Sleep(60)));

    // the address changes, the fetch fails: the record known before is updated
    up_to_fetch(&mut updater, 203, 0, 113, 10);
    match updater.run(Event::Fetched(Err(FetchError::Transport))) {
        Action::Update(request) => {
            assert_eq!(request.payload.name, "a.example.com");
            assert_eq!(request.payload.content, "203.0.113.10");
        }
        _ => panic!("expected an update of the known record"),
    }
    assert!(matches!(updater.run(Event::Updated(UpdateReply::Status(200))), Action::Sleep(60)));
}

#[test]
fn a_failed_first_fetch_leaves_nothing_to_update() {
    let mut updater = updater();
    up_to_fetch(&mut updater, 203, 0, 113, 9);
    assert!(matches!(updater.run(Event::Fetched(Err(FetchError::Malformed))), Action::Sleep(60)));
    up_to_fetch(&mut updater, 203, 0, 113, 9);
    let unsuccessful = Event::Fetched(Ok(CloudflareResponse {
        success: false,
        result: vec![entry("r1", "a.example.com", "203.0.113.5")],
    }));
    assert!(matches!(updater.run(unsuccessful), Action::Sleep(60)));
}

#[test]
fn a_credential_that_cannot_be_sent_skips_the_fetch() {
    let mut updater = updater_with_key("bad\nkey", 60);
    updater.run(Event::Wake);
    updater.run(stun_endpoints());
    assert!(matches!(updater.run(resolved(203, 0, 113, 9)), Action::Sleep(60)));
    assert_eq!(updater.phase(), Phase::Idle);
}

#[test]
fn an_ipv4_address_overwrites_a_record_of_the_other_family() {
    let mut updater = updater();
    up_to_fetch(&mut updater, 203, 0, 113, 9);
    let mut aaaa = entry("r6", "v6.example.com", "2001:db8::1");
    aaaa.record_type = "AAAA".to_string();
    match updater.run(answer(vec![aaaa])) {
        Action::Update(request) => {
            assert_eq!(request.payload.record_type, "AAAA");
            assert_eq!(request.payload.content, "203.0.113.9");
        }
        _ => panic!("expected an update"),
    }
}

#[test]
fn the_sleep_lasts_the_interval_of_the_provider() {
    let mut updater = updater_with_key("key", 10);
    assert_eq!(updater.api().get_poll_rate(), 60);
    up_to_fetch(&mut updater, 203, 0, 113, 9);
    assert!(matches!(updater.run(answer(Vec::new())), Action::Sleep(60)));

    let mut updater = updater_with_key("key", 3600);
    up_to_fetch(&mut updater, 203, 0, 113, 9);
    assert!(matches!(updater.run(answer(Vec::new())), Action::Sleep(3600)));
}

#[test]
fn the_updater_says_which_outcome_it_waits_for() {
    let mut updater = updater();
    assert!(updater.accepts(&Event::Wake));
    assert!(!updater.accepts(&Event::Updated(UpdateReply::Failed)));
    assert!(!updater.accepts(&stun_endpoints()));
    updater.run(Event::Wake);
    assert!(updater.accepts(&stun_endpoints()));
    assert!(!updater.accepts(&Event::Wake));
    updater.run(stun_endpoints());
    assert!(updater.accepts(&resolved(1, 2, 3, 4)));
    assert!(!updater.accepts(&answer(Vec::new())));
    updater.run(resolved(1, 2, 3, 4));
    assert!(updater.accepts(&answer(Vec::new())));
    updater.run(answer(vec![entry("r1", "a.example.com", "203.0.113.5")]));
    assert!(updater.accepts(&Event::Updated(UpdateReply::Status(200))));
    assert!(!updater.accepts(&answer(Vec::new())));
}

#[test]
fn an_outcome_that_is_not_waited_for_changes_nothing() {
    let mut updater = updater();
    assert!(updater.resume(Event::Updated(UpdateReply::Status(200))).is_none());
    assert!(updater.resume(answer(Vec::new())).is_none());
    assert_eq!(updater.phase(), Phase::Idle);
    assert!(matches!(updater.resume(Event::Wake), Some(Action::Locate { .. })));
    assert!(updater.resume(Event::Wake).is_none());
    assert_eq!(updater.phase(), Phase::Locating);
    assert!(matches!(updater.resume(stun_endpoints()), Some(Action::Discover { .. })));
    assert!(matches!(updater.resume(resolved(203, 0, 113, 9)), Some(Action::Fetch(_))));
    assert!(updater.resume(Event::Wake).is_none());
    assert_eq!(updater.phase(), Phase::Fetching);
    let action = updater.resume(answer(vec![entry("r1", "a.example.com", "203.0.113.5")]));
    assert!(matches!(action, Some(Action::Update(_))));
    assert!(matches!(
        updater.resume(Event::Updated(UpdateReply::Status(200))),
        Some(Action::Sleep(60))
    ));
}

#[test]
fn a_new_updater_hands_the_credential_to_its_provider_as_given() {
    let environment = Environment {
        poll_rate: Some("900".to_string()),
        api_key: Some("from_env".to_string()),
        zone_id: Some("zone".to_string()),
    };
    let updater: Loop = Updater::new(30, "by_hand".to_string(), &environment);
    assert_eq!(updater.phase(), Phase::Idle);
    assert_eq!(updater.api().settings().api_key(), "by_hand");
    assert_eq!(updater.api().settings().zone_id(), "zone");
    assert_eq!(updater.api().get_poll_rate(), 60);

    let updater: Loop = Updater::new(7200, String::new(), &environment);
    assert_eq!(updater.api().settings().api_key(), "from_env");
    assert_eq!(updater.api().get_poll_rate(), 7200);
}

#[test]
fn an_updater_over_a_given_provider_keeps_it() {
    let environment = Environment {
        poll_rate: Some("900".to_string()),
        api_key: Some("from_env".to_string()),
        zone_id: Some("zone".to_string()),
    };
    let updater = Updater::with_api(CloudFlareApi::from_environment(&environment));
    assert_eq!(updater.phase(), Phase::Idle);
    assert_eq!(updater.api().get_poll_rate(), 900);
    assert_eq!(updater.api().settings().api_key(), "from_env");
}
