use change_flare::cloudflare::{
    CloudFlareApi, CloudFlareConfig, CLOUDFLARE_API_KEY, CLOUDFLARE_POLL_RATE, CLOUDFLARE_ZONE_ID,
    DEFAULT_POLL_RATE,
};
use change_flare::updater::{ApiTrait, Config, Environment, MIN_POLL_RATE};

fn environment(poll_rate: Option<&str>, api_key: Option<&str>, zone_id: Option<&str>) -> Environment {
    Environment {
        poll_rate: poll_rate.map(|s| s.to_string()),
        api_key: api_key.map(|s| s.to_string()),
        zone_id: zone_id.map(|s| s.to_string()),
    }
}

#[test]
fn test_cloudflare_config_new() {
    let api_key = "test_key".to_string();
    let config = CloudFlareConfig::new(30, api_key.clone(), &environment(None, None, None));

    assert_eq!(config.poll_rate(), 60); // Should be minimum 60
    assert_eq!(config.api_key(), &api_key);
}

#[test]
fn an_interval_below_the_floor_is_raised_to_it() {
    let env = environment(None, None, None);
    for given in [0, 1, 30, 59] {
        assert_eq!(CloudFlareConfig::new(given, "k".to_string(), &env).poll_rate(), 60);
    }
}

#[test]
fn an_interval_at_or_above_the_floor_is_kept() {
    let env = environment(Some("1000"), None, None);
    for given in [60, 61, 300, 86_400, usize::MAX] {
        assert_eq!(CloudFlareConfig::new(given, "k".to_string(), &env).poll_rate(), given);
    }
}

#[test]
fn an_empty_credential_falls_back_to_the_environment() {
    let env = environment(None, Some("from_env"), Some("zone"));
    let config = CloudFlareConfig::new(60, String::new(), &env);
    assert_eq!(config.api_key(), "from_env");
    assert_eq!(config.zone_id(), "zone");
}

#[test]
fn an_empty_credential_stays_empty_without_one_in_the_environment() {
    let config = CloudFlareConfig::new(60, String::new(), &environment(None, None, None));
    assert_eq!(config.api_key(), "");
    assert_eq!(config.zone_id(), "");
}

#[test]
fn a_credential_given_by_hand_wins_over_the_environment() {
    let env = environment(None, Some("from_env"), Some("zone"));
    let config = CloudFlareConfig::new(60, "by_hand".to_string(), &env);
    assert_eq!(config.api_key(), "by_hand");
    assert_eq!(config.zone_id(), "zone");
}

#[test]
fn the_environment_supplies_all_three_settings() {
    let env = environment(Some("120"), Some("key"), Some("zone"));
    let config = CloudFlareConfig::from_environment(&env);
    assert_eq!(config.poll_rate(), 120);
    assert_eq!(config.api_key(), "key");
    assert_eq!(config.zone_id(), "zone");
}

#[test]
fn an_environment_without_settings_gives_the_defaults() {
    let config = CloudFlareConfig::from_environment(&environment(None, None, None));
    assert_eq!(config.poll_rate(), 300);
    assert_eq!(config.api_key(), "");
    assert_eq!(config.zone_id(), "");
}

#[test]
fn an_interval_that_is_no_number_gives_the_default() {
    for text in ["", "soon", "-5", "1.5", "60s", "99999999999999999999999999"] {
        let config = CloudFlareConfig::from_environment(&environment(Some(text), None, None));
        assert_eq!(config.poll_rate(), DEFAULT_POLL_RATE, "for {:?}", text);
    }
}

#[test]
fn an_interval_of_the_environment_is_raised_to_the_floor() {
    for text in ["0", "1", "59", "+30"] {
        let config = CloudFlareConfig::from_environment(&environment(Some(text), None, None));
        assert_eq!(config.poll_rate(), MIN_POLL_RATE, "for {:?}", text);
    }
    let config = CloudFlareConfig::from_environment(&environment(Some("60"), None, None));
    assert_eq!(config.poll_rate(), 60);
}

#[test]
fn the_default_interval_respects_the_floor() {
    assert_eq!(<CloudFlareConfig as Config>::get_poll_rate(), 300);
    assert!(<CloudFlareConfig as Config>::get_poll_rate() >= MIN_POLL_RATE);
}

#[test]
fn a_provider_takes_its_settings_as_the_configuration_does() {
    let env = environment(Some("90"), Some("env_key"), Some("env_zone"));
    let api = CloudFlareApi::new(10, String::new(), &env);
    assert_eq!(api.get_poll_rate(), 60);
    assert_eq!(api.settings().api_key(), "env_key");
    assert_eq!(api.settings().zone_id(), "env_zone");

    let api = CloudFlareApi::from_environment(&env);
    assert_eq!(api.get_poll_rate(), 90);
    assert_eq!(api.settings().api_key(), "env_key");
}

#[test]
fn the_settings_are_read_from_these_variables() {
    assert_eq!(CLOUDFLARE_POLL_RATE, "CLOUDFLARE_POLL_RATE");
    assert_eq!(CLOUDFLARE_API_KEY, "CLOUDFLARE_API_KEY");
    assert_eq!(CLOUDFLARE_ZONE_ID, "CLOUDFLARE_ZONE_ID");
}
