use aggregator::dex_config::DexConfig;
use aggregator::identity::Identity;
use candid::Principal;

fn gen(i: u8) -> Principal {
    Principal::self_authenticating([i; 32])
}

fn id(p: &Principal) -> Identity {
    Identity::from_bytes(p.as_slice().to_vec()).unwrap()
}

fn pairs(items: &[(&str, String)]) -> Vec<(String, String)> {
    items.iter().map(|(k, v)| (k.to_string(), v.clone())).collect()
}

#[test]
fn configuration_is_read_from_the_two_tables() {
    let targets = pairs(&[
        ("ICPSWAP_FACTORY", gen(1).to_text()),
        ("BROKEN", "not a principal".to_string()),
        ("SONIC_ROUTER", gen(2).to_text()),
    ]);
    let controllers = pairs(&[
        ("SONIC_ROUTER", gen(9).to_text()),
        ("ICPSWAP_FACTORY", "junk".to_string()),
    ]);
    let cfg = DexConfig::load(&targets, &controllers);
    assert_eq!(cfg.names(), vec!["ICPSWAP_FACTORY".to_string(), "SONIC_ROUTER".to_string()]);
    assert_eq!(cfg.env_principal("ICPSWAP_FACTORY"), Some(id(&gen(1))));
    assert_eq!(cfg.env_principal("SONIC_ROUTER"), Some(id(&gen(2))));
    assert_eq!(cfg.env_principal("BROKEN"), None);
    assert_eq!(cfg.env_principal("INFINITY_VAULT"), None);
    assert_eq!(cfg.controller("SONIC_ROUTER"), Some(id(&gen(9))));
    assert_eq!(cfg.controller("ICPSWAP_FACTORY"), None);
    assert_eq!(cfg.dex_ids(), vec![id(&gen(1)), id(&gen(2))]);
}

#[test]
fn environment_overrides_the_file() {
    let mut cfg = DexConfig::load(
        &pairs(&[("SONIC_ROUTER", gen(2).to_text())]),
        &pairs(&[("SONIC_ROUTER", gen(9).to_text())]),
    );
    cfg.disable("SONIC_ROUTER");
    assert_eq!(cfg.env_principal("SONIC_ROUTER"), None);
    assert!(cfg.dex_ids().is_empty());
    cfg.override_target("SONIC_ROUTER", &gen(3).to_text());
    assert_eq!(cfg.env_principal("SONIC_ROUTER"), Some(id(&gen(3))));
    assert_eq!(cfg.controller("SONIC_ROUTER"), Some(id(&gen(9))));
    cfg.override_target("SONIC_ROUTER", "junk");
    assert_eq!(cfg.env_principal("SONIC_ROUTER"), Some(id(&gen(3))));
    cfg.override_target("SNS_DISTRIBUTOR", &gen(4).to_text());
    assert_eq!(cfg.env_principal("SNS_DISTRIBUTOR"), Some(id(&gen(4))));
    assert_eq!(cfg.controller("SNS_DISTRIBUTOR"), None);
    assert_eq!(cfg.dex_ids(), vec![id(&gen(3)), id(&gen(4))]);
    cfg.disable("UNKNOWN");
    assert_eq!(cfg.names().len(), 2);
}

#[test]
fn a_later_target_under_the_same_name_replaces_the_earlier_one() {
    let cfg = DexConfig::load(
        &pairs(&[("X", gen(1).to_text()), ("Y", gen(5).to_text()), ("X", gen(2).to_text())]),
        &vec![],
    );
    assert_eq!(cfg.names(), vec!["X".to_string(), "Y".to_string()]);
    assert_eq!(cfg.env_principal("X"), Some(id(&gen(2))));
    assert!(DexConfig::new().names().is_empty());
}

#[test]
fn the_environment_may_name_four_targets() {
    assert_eq!(
        aggregator::dex_config::override_keys(),
        vec!["ICPSWAP_FACTORY", "SONIC_ROUTER", "INFINITY_VAULT", "SNS_DISTRIBUTOR"]
    );
}
