use aggregator::error::FetchError;
use aggregator::holding::{clone_holdings, same_holdings, Holding};

fn sample() -> Holding {
    Holding {
        source: "ledger".into(),
        token: "ICP".into(),
        amount: "1.23".into(),
        status: "liquid".into(),
    }
}

#[test]
fn json_round_trip() {
    let holding = sample();
    let mut object = serde_json::Map::new();
    object.insert("source".to_string(), serde_json::Value::String(holding.source.clone()));
    object.insert("token".to_string(), serde_json::Value::String(holding.token.clone()));
    object.insert("amount".to_string(), serde_json::Value::String(holding.amount.clone()));
    object.insert("status".to_string(), serde_json::Value::String(holding.status.clone()));
    let json = serde_json::to_string(&serde_json::Value::Object(object)).unwrap();
    let value: serde_json::Value = serde_json::from_str(&json).unwrap();
    let decoded = Holding {
        source: value["source"].as_str().unwrap().to_string(),
        token: value["token"].as_str().unwrap().to_string(),
        amount: value["amount"].as_str().unwrap().to_string(),
        status: value["status"].as_str().unwrap().to_string(),
    };
    assert_eq!(holding, decoded);
}

#[test]
fn holdings_are_copied_and_compared_by_value() {
    let a = vec![sample(), Holding::new("x", "t".to_string(), "2".to_string(), "lp_escrow")];
    let b = clone_holdings(&a);
    assert_eq!(a, b);
    assert!(same_holdings(&a, &b));
    let c = vec![sample()];
    assert!(!same_holdings(&a, &c));
    let mut d = clone_holdings(&a);
    d[1].amount = "3".to_string();
    assert!(!same_holdings(&a, &d));
}

#[test]
fn error_messages_name_their_category() {
    assert_eq!(FetchError::Network("boom".into()).message(), "network error: boom");
    assert_eq!(FetchError::InvalidConfig("factory".into()).message(), "invalid config: factory");
    assert_eq!(FetchError::InvalidResponse.message(), "invalid response");
    assert_eq!(FetchError::timeout(), FetchError::Network("timeout".into()));
    assert_eq!(FetchError::network("x"), FetchError::Network("x".into()));
    assert_eq!(FetchError::invalid_config("vault").clone(), FetchError::InvalidConfig("vault".into()));
}
