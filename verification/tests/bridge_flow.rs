//! Runs the bridge against the real evaluation engine: state ingestion,
//! enablement checks, snapshots and error paths.

use unleash_types::client_features::{ClientFeature, ClientFeatures, Payload, Strategy, Variant};
use yggdrasilffi::bridge::Bridge;
use yggdrasilffi::messages::{encode_context, ContextMessage};
use yggdrasilffi::responses::{decode_response, decode_variant_response};
use yggdrasilffi::state_response::decode_take_state_response;

fn simple_strategy(name: &str) -> Strategy {
    Strategy {
        name: name.into(),
        sort_order: None,
        segments: None,
        constraints: None,
        parameters: None,
        variants: None,
    }
}

fn one_toggle_features(toggle: &str) -> ClientFeatures {
    ClientFeatures {
        features: vec![ClientFeature {
            name: toggle.into(),
            enabled: true,
            impression_data: Some(true),
            strategies: Some(vec![simple_strategy("default")]),
            ..Default::default()
        }],
        query: None,
        segments: None,
        version: 2,
        meta: None,
    }
}

fn context_bytes(toggle: &str, app: &str) -> Vec<u8> {
    encode_context(&ContextMessage {
        toggle_name: Some(toggle.to_string()),
        user_id: None,
        session_id: None,
        environment: None,
        app_name: Some(app.to_string()),
        current_time: None,
        remote_address: None,
        runtime_hostname: None,
        properties: None,
        custom_strategies_results: None,
    })
}

#[test]
fn it_taketh_the_state() {
    let mut bridge = Bridge::new();
    let engine = bridge.new_engine();
    let toggle_under_test = "some-toggle";
    let appname_test = "the-app";

    let serialised = serde_json::to_string(&one_toggle_features(toggle_under_test)).unwrap();
    let state_buf = bridge.flat_take_state(engine, &serialised);
    bridge.flat_buf_free(state_buf);

    let message = context_bytes(toggle_under_test, appname_test);
    let flat_response_buf = bridge.flat_check_enabled(engine, &message);
    let bytes = bridge.read_buffer(&flat_response_buf).unwrap();
    let resp = decode_response(&bytes).unwrap();
    assert!(resp.enabled);
    bridge.flat_buf_free(flat_response_buf);
}

#[test]
fn take_state_updates_get_state() {
    let mut bridge = Bridge::new();
    let engine = bridge.new_engine();
    let client_features = one_toggle_features("some-toggle");
    let serialised = serde_json::to_string(&client_features).unwrap();

    let buf = bridge.flat_take_state(engine, &serialised);
    bridge.flat_buf_free(buf);

    let state = bridge.flat_get_state(engine).unwrap();
    let features: ClientFeatures = serde_json::from_str(&state).unwrap();
    assert_eq!(features, client_features);
    bridge.free_engine(engine);
}

#[test]
fn flat_take_state_returns_all_features_and_their_strategies() {
    let mut bridge = Bridge::new();
    let engine = bridge.new_engine();
    let serialised = serde_json::to_string(&one_toggle_features("some-toggle")).unwrap();

    let buf = bridge.flat_take_state(engine, &serialised);
    let bytes = bridge.read_buffer(&buf).unwrap();
    let take_state_response = decode_take_state_response(&bytes).unwrap();
    assert!(take_state_response.error.is_none());
    assert_eq!(take_state_response.features.len(), 1);
    let feature = &take_state_response.features[0];
    assert_eq!(feature.feature_name, "some-toggle");
    assert_eq!(feature.strategies.len(), 1);
    assert_eq!(feature.strategies[0].name, "default");
}

#[test]
fn flat_take_state_also_works_with_custom_strategies() {
    let mut bridge = Bridge::new();
    let engine = bridge.new_engine();
    let client_features = ClientFeatures {
        features: vec![
            ClientFeature {
                name: "Feature.Custom.Strategies".into(),
                enabled: true,
                strategies: Some(vec![simple_strategy("custom"), simple_strategy("cus-tom")]),
                ..Default::default()
            },
            ClientFeature {
                name: "Feature.A".into(),
                enabled: true,
                strategies: Some(vec![simple_strategy("default")]),
                ..Default::default()
            },
            ClientFeature {
                name: "Feature.B".into(),
                enabled: false,
                strategies: Some(vec![simple_strategy("default")]),
                ..Default::default()
            },
        ],
        query: None,
        segments: None,
        version: 2,
        meta: None,
    };
    let serialised = serde_json::to_string(&client_features).unwrap();

    let buf = bridge.flat_take_state(engine, &serialised);
    let bytes = bridge.read_buffer(&buf).unwrap();
    let take_state_response = decode_take_state_response(&bytes).unwrap();
    assert_eq!(take_state_response.features.len(), 3);
    let custom = take_state_response
        .features
        .iter()
        .find(|f| f.feature_name == "Feature.Custom.Strategies")
        .unwrap();
    let names: Vec<&str> = custom.strategies.iter().map(|s| s.name.as_str()).collect();
    assert_eq!(names.len(), 2);
    assert!(names.contains(&"custom"));
    assert!(names.contains(&"cus-tom"));
}

#[test]
fn flat_take_state_does_the_expected_thing() {
    let mut bridge = Bridge::new();
    let engine = bridge.new_engine();
    let client_features = ClientFeatures {
        features: vec![ClientFeature {
            name: "Feature.D".into(),
            enabled: true,
            strategies: Some(vec![simple_strategy("custom")]),
            ..Default::default()
        }],
        query: None,
        segments: None,
        version: 2,
        meta: None,
    };
    let serialised = serde_json::to_string(&client_features).unwrap();

    let buf = bridge.flat_take_state(engine, &serialised);
    let bytes = bridge.read_buffer(&buf).unwrap();
    let take_state_response = decode_take_state_response(&bytes).unwrap();
    assert_eq!(take_state_response.features.len(), 1);
    let feature = &take_state_response.features[0];
    assert_eq!(feature.feature_name, "Feature.D");
    assert_eq!(feature.strategies.len(), 1);
    assert_eq!(feature.strategies[0].name, "custom");
}

#[test]
fn enabled_check_reports_true_for_loaded_toggle() {
    let mut bridge = Bridge::new();
    let engine = bridge.new_engine();
    let serialised = serde_json::to_string(&one_toggle_features("F")).unwrap();
    bridge.flat_take_state(engine, &serialised);

    let message = context_bytes("F", "app");
    let buf = bridge.flat_check_enabled(engine, &message);
    let resp = decode_response(&bridge.read_buffer(&buf).unwrap()).unwrap();
    assert!(resp.has_enabled);
    assert!(resp.enabled);
    assert!(resp.error.is_none());
}

#[test]
fn unknown_toggle_reports_absent_without_error() {
    let mut bridge = Bridge::new();
    let engine = bridge.new_engine();
    let serialised = serde_json::to_string(&one_toggle_features("F")).unwrap();
    bridge.flat_take_state(engine, &serialised);

    let message = context_bytes("G", "app");
    let buf = bridge.flat_check_enabled(engine, &message);
    let resp = decode_response(&bridge.read_buffer(&buf).unwrap()).unwrap();
    assert!(!resp.has_enabled);
    assert!(!resp.enabled);
    assert!(resp.error.is_none());
}

#[test]
fn malformed_payload_keeps_previous_state() {
    let mut bridge = Bridge::new();
    let engine = bridge.new_engine();
    let serialised = serde_json::to_string(&one_toggle_features("F")).unwrap();
    bridge.flat_take_state(engine, &serialised);

    let before = bridge.flat_get_state(engine).unwrap();

    let buf = bridge.flat_take_state(engine, "{not json");
    let resp = decode_take_state_response(&bridge.read_buffer(&buf).unwrap()).unwrap();
    let err = resp.error.unwrap();
    assert!(!err.is_empty());
    assert_eq!(err, "Invalid state: Your features does not parse");

    let after = bridge.flat_get_state(engine).unwrap();
    assert_eq!(before, after);

    let message = context_bytes("F", "app");
    let check = bridge.flat_check_enabled(engine, &message);
    let resp = decode_response(&bridge.read_buffer(&check).unwrap()).unwrap();
    assert!(resp.has_enabled && resp.enabled);
    assert!(resp.error.is_none());
}

#[test]
fn variant_payload_travels_through() {
    let mut bridge = Bridge::new();
    let engine = bridge.new_engine();
    let cf = ClientFeatures {
        features: vec![ClientFeature {
            name: "F".into(),
            enabled: true,
            strategies: Some(vec![simple_strategy("default")]),
            variants: Some(vec![Variant {
                name: "v1".into(),
                weight: 1000,
                weight_type: None,
                stickiness: None,
                payload: Some(Payload { payload_type: "string".into(), value: "hello".into() }),
                overrides: None,
            }]),
            ..Default::default()
        }],
        query: None,
        segments: None,
        version: 2,
        meta: None,
    };
    let serialised = serde_json::to_string(&cf).unwrap();
    bridge.flat_take_state(engine, &serialised);

    let message = context_bytes("F", "the-app");
    let buf = bridge.flat_check_variant(engine, &message);
    let r = decode_variant_response(&bridge.read_buffer(&buf).unwrap()).unwrap();
    assert_eq!(r.name.as_deref(), Some("v1"));
    assert!(r.enabled);
    assert!(r.feature_enabled);
    assert_eq!(r.payload, Some(("string".to_string(), "hello".to_string())));
    assert!(r.error.is_none());
}

#[test]
fn snapshot_parameters_come_out_in_key_order() {
    let mut bridge = Bridge::new();
    let engine = bridge.new_engine();
    let mut params = std::collections::HashMap::new();
    params.insert("b".to_string(), "2".to_string());
    params.insert("a".to_string(), "1".to_string());
    params.insert("c".to_string(), "3".to_string());
    let client_features = ClientFeatures {
        features: vec![ClientFeature {
            name: "some-toggle".into(),
            enabled: true,
            strategies: Some(vec![Strategy {
                name: "default".into(),
                sort_order: None,
                segments: None,
                constraints: None,
                parameters: Some(params),
                variants: None,
            }]),
            ..Default::default()
        }],
        query: None,
        segments: None,
        version: 2,
        meta: None,
    };
    let serialised = serde_json::to_string(&client_features).unwrap();

    let buf = bridge.flat_take_state(engine, &serialised);
    let bytes = bridge.read_buffer(&buf).unwrap();
    let resp = decode_take_state_response(&bytes).unwrap();
    assert_eq!(
        resp.features[0].strategies[0].parameters,
        vec![
            ("a".to_string(), "1".to_string()),
            ("b".to_string(), "2".to_string()),
            ("c".to_string(), "3".to_string()),
        ]
    );
}

#[test]
fn snapshot_is_in_canonical_name_order() {
    let mut bridge = Bridge::new();
    let engine = bridge.new_engine();
    let client_features = ClientFeatures {
        features: vec![
            ClientFeature {
                name: "b-toggle".into(),
                enabled: true,
                strategies: Some(vec![simple_strategy("zeta"), simple_strategy("alpha")]),
                ..Default::default()
            },
            ClientFeature {
                name: "a-toggle".into(),
                enabled: true,
                strategies: Some(vec![simple_strategy("default")]),
                ..Default::default()
            },
        ],
        query: None,
        segments: None,
        version: 2,
        meta: None,
    };
    let serialised = serde_json::to_string(&client_features).unwrap();

    let buf = bridge.flat_take_state(engine, &serialised);
    let bytes = bridge.read_buffer(&buf).unwrap();
    let resp = decode_take_state_response(&bytes).unwrap();
    let names: Vec<&str> = resp.features.iter().map(|f| f.feature_name.as_str()).collect();
    assert_eq!(names, vec!["a-toggle", "b-toggle"]);
    let b_strategies: Vec<&str> =
        resp.features[1].strategies.iter().map(|s| s.name.as_str()).collect();
    assert_eq!(b_strategies, vec!["alpha", "zeta"]);
}
