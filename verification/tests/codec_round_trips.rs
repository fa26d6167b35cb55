//! Exercises the wire codec on concrete values: every message kind decodes
//! back to what was encoded, and malformed bytes are rejected.

use yggdrasilffi::errors::FlatError;
use yggdrasilffi::messages::{context_from_message, decode_context, encode_context, ContextMessage, RequestContext};
use yggdrasilffi::reports::{
    decode_built_in_strategies, decode_core_version, decode_feature_defs_response,
    decode_metrics_response, encode_built_in_strategies, encode_core_version,
    encode_feature_defs_response, encode_metrics_response, MetricsData, ToggleDefinition,
    ToggleStats,
};
use yggdrasilffi::responses::{
    decode_response, decode_variant_response, encode_enabled_response, encode_variant_response,
    ExtendedVariant, ResponseMessage,
};
use yggdrasilffi::state_response::{
    decode_take_state_response, encode_take_state_response, StrategyDefinition, StrategyFeature,
    TakeStateResult, Warning,
};

fn full_context() -> ContextMessage {
    ContextMessage {
        toggle_name: Some("some-toggle".to_string()),
        user_id: Some("user-1".to_string()),
        session_id: None,
        environment: Some("".to_string()),
        app_name: Some("the-app".to_string()),
        current_time: None,
        remote_address: Some("127.0.0.1".to_string()),
        runtime_hostname: Some("host-α-β".to_string()),
        properties: Some(vec![
            ("k1".to_string(), "v1".to_string()),
            ("k2".to_string(), "v2".to_string()),
        ]),
        custom_strategies_results: Some(vec![
            ("custom".to_string(), true),
            ("cus-tom".to_string(), false),
        ]),
    }
}

#[test]
fn context_round_trip_preserves_every_field() {
    let c = full_context();
    let bytes = encode_context(&c);
    let back = decode_context(&bytes).unwrap();
    assert_eq!(back.toggle_name.as_deref(), Some("some-toggle"));
    assert_eq!(back.user_id.as_deref(), Some("user-1"));
    assert_eq!(back.session_id, None);
    assert_eq!(back.environment.as_deref(), Some(""));
    assert_eq!(back.app_name.as_deref(), Some("the-app"));
    assert_eq!(back.current_time, None);
    assert_eq!(back.remote_address.as_deref(), Some("127.0.0.1"));
    assert_eq!(back.runtime_hostname.as_deref(), Some("host-α-β"));
    assert_eq!(
        back.properties,
        Some(vec![
            ("k1".to_string(), "v1".to_string()),
            ("k2".to_string(), "v2".to_string()),
        ])
    );
    assert_eq!(
        back.custom_strategies_results,
        Some(vec![("custom".to_string(), true), ("cus-tom".to_string(), false)])
    );
}

#[test]
fn absent_string_is_distinct_from_empty_string() {
    let mut c = full_context();
    c.environment = Some("".to_string());
    let with_empty = encode_context(&c);
    c.environment = None;
    let with_absent = encode_context(&c);
    assert_ne!(with_empty, with_absent);
    let back = decode_context(&with_absent).unwrap();
    assert_eq!(back.environment, None);
}

#[test]
fn malformed_context_is_rejected() {
    let garbage = b"{not json".to_vec();
    let r = decode_context(&garbage);
    match r {
        Err(FlatError::InvalidContext(m)) => assert_eq!(m, "malformed context message"),
        _ => panic!("expected InvalidContext"),
    }
}

#[test]
fn trailing_bytes_are_rejected() {
    let c = full_context();
    let mut bytes = encode_context(&c);
    bytes.push(0);
    assert!(matches!(
        decode_context(&bytes),
        Err(FlatError::InvalidContext(_))
    ));
}

#[test]
fn missing_toggle_name_is_its_own_error() {
    let mut c = full_context();
    c.toggle_name = None;
    let bytes = encode_context(&c);
    let cm = decode_context(&bytes).unwrap();
    assert!(matches!(
        context_from_message(cm),
        Err(FlatError::MissingFlagName)
    ));
}

#[test]
fn enabled_response_round_trip() {
    let ok = encode_enabled_response(&Ok(ResponseMessage {
        message: Some(true),
        impression_data: true,
    }));
    let r = decode_response(&ok).unwrap();
    assert!(r.has_enabled && r.enabled && r.impression_data);
    assert_eq!(r.error, None);

    let absent = encode_enabled_response(&Ok(ResponseMessage {
        message: None,
        impression_data: false,
    }));
    let r = decode_response(&absent).unwrap();
    assert!(!r.has_enabled && !r.enabled);
    assert_eq!(r.error, None);

    let err = encode_enabled_response(&Err(FlatError::NullError));
    let r = decode_response(&err).unwrap();
    assert!(!r.has_enabled && !r.enabled && !r.impression_data);
    assert_eq!(
        r.error.as_deref(),
        Some("Null error detected, this is a serious issue and you should report this as a bug.")
    );
}

#[test]
fn variant_response_round_trip() {
    let v = ExtendedVariant {
        name: "v1".to_string(),
        payload: Some(("string".to_string(), "hello".to_string())),
        enabled: true,
        feature_enabled: true,
    };
    let bytes = encode_variant_response(&Ok(ResponseMessage {
        message: Some(v),
        impression_data: true,
    }));
    let r = decode_variant_response(&bytes).unwrap();
    assert_eq!(r.name.as_deref(), Some("v1"));
    assert!(r.enabled && r.feature_enabled && r.impression_data);
    assert_eq!(r.payload, Some(("string".to_string(), "hello".to_string())));
    assert_eq!(r.error, None);

    let none = encode_variant_response(&Ok(ResponseMessage {
        message: None,
        impression_data: false,
    }));
    let r = decode_variant_response(&none).unwrap();
    assert_eq!(r.name, None);
    assert_eq!(r.error, None);

    let err = encode_variant_response(&Err(FlatError::MissingFlagName));
    let r = decode_variant_response(&err).unwrap();
    assert_eq!(r.name, None);
    assert_eq!(
        r.error.as_deref(),
        Some("Flag name was missing when building extended context")
    );
}

#[test]
fn take_state_response_round_trip() {
    let t = TakeStateResult {
        warnings: vec![Warning {
            toggle_name: "F".to_string(),
            message: "unknown strategy".to_string(),
        }],
        error: None,
        feature_strategies_map: vec![StrategyFeature {
            feature_name: "some-toggle".to_string(),
            strategies: vec![StrategyDefinition {
                name: "default".to_string(),
                parameters: vec![("p".to_string(), "value".to_string())],
            }],
        }],
    };
    let bytes = encode_take_state_response(&Ok(t));
    let r = decode_take_state_response(&bytes).unwrap();
    assert_eq!(r.features.len(), 1);
    assert_eq!(r.features[0].feature_name, "some-toggle");
    assert_eq!(r.features[0].strategies[0].name, "default");
    assert_eq!(
        r.features[0].strategies[0].parameters,
        vec![("p".to_string(), "value".to_string())]
    );
    assert_eq!(r.warnings, vec!["toggle: F warned unknown strategy".to_string()]);
    assert_eq!(r.error, None);

    let err = encode_take_state_response(&Err(FlatError::InvalidState(
        "Your features does not parse".to_string(),
    )));
    let r = decode_take_state_response(&err).unwrap();
    assert_eq!(r.features.len(), 0);
    assert_eq!(r.warnings.len(), 0);
    assert_eq!(
        r.error.as_deref(),
        Some("Invalid state: Your features does not parse")
    );
}

#[test]
fn metrics_response_round_trip() {
    let m = MetricsData {
        start: -1000,
        stop: 9_007_199_254_740_993,
        toggles: vec![ToggleStats {
            name: "F".to_string(),
            yes: 2000,
            no: 3,
            variants: vec![("v1".to_string(), 2000)],
        }],
    };
    let bytes = encode_metrics_response(&Ok(Some(m)));
    let r = decode_metrics_response(&bytes).unwrap();
    assert!(r.has_metrics);
    assert_eq!(r.start, -1000);
    assert_eq!(r.stop, 9_007_199_254_740_993);
    assert_eq!(r.toggles.len(), 1);
    assert_eq!(r.toggles[0].yes, 2000);
    assert_eq!(r.toggles[0].no, 3);
    assert_eq!(r.toggles[0].variants, vec![("v1".to_string(), 2000)]);
    assert_eq!(r.error, None);

    let empty = encode_metrics_response(&Ok(None));
    let r = decode_metrics_response(&empty).unwrap();
    assert!(!r.has_metrics);
    assert_eq!(r.error, None);
}

#[test]
fn feature_defs_round_trip() {
    let defs = vec![ToggleDefinition {
        name: "F".to_string(),
        project: "default".to_string(),
        enabled: true,
        feature_type: Some("release".to_string()),
    }];
    let bytes = encode_feature_defs_response(&Ok(defs));
    let r = decode_feature_defs_response(&bytes).unwrap();
    assert_eq!(r.items.len(), 1);
    assert_eq!(r.items[0].name, "F");
    assert_eq!(r.items[0].project, "default");
    assert!(r.items[0].enabled);
    assert_eq!(r.items[0].feature_type.as_deref(), Some("release"));
    assert_eq!(r.error, None);
}

#[test]
fn built_in_strategies_and_version_round_trip() {
    let names: Vec<String> = vec!["default".to_string(), "flexibleRollout".to_string()];
    let bytes = encode_built_in_strategies(&names);
    assert_eq!(decode_built_in_strategies(&bytes).unwrap(), names);

    let bytes = encode_core_version("1.2.3");
    assert_eq!(decode_core_version(&bytes).unwrap(), "1.2.3");
}

#[test]
fn boolean_bytes_are_strict() {
    // An enabled response whose first byte is neither 0 nor 1 must not decode.
    let ok = encode_enabled_response(&Ok(ResponseMessage {
        message: Some(true),
        impression_data: false,
    }));
    let mut bad = ok.clone();
    bad[0] = 7;
    assert!(decode_response(&bad).is_none());
}

#[test]
fn error_messages_match_their_variants() {
    assert_eq!(
        FlatError::InvalidContext("x".to_string()).message(),
        "Invalid context: x"
    );
    assert_eq!(
        FlatError::InvalidState("y".to_string()).message(),
        "Invalid state: y"
    );
    assert_eq!(FlatError::InvalidPointer.message(), "Invalid pointer encountered");
    assert_eq!(
        FlatError::MissingFlagName.message(),
        "Flag name was missing when building extended context"
    );
    assert_eq!(
        FlatError::Panic.message(),
        "Engine panicked while processing the request. Please report this as a bug with the accompanying stack trace if available."
    );
}

#[test]
fn string_layout_is_length_prefixed_little_endian() {
    // A string travels as an 8-byte little-endian byte length, then UTF-8.
    let bytes = encode_core_version("AB");
    assert_eq!(bytes, vec![2, 0, 0, 0, 0, 0, 0, 0, 0x41, 0x42]);
}

#[test]
fn enabled_response_layout_is_three_flags_and_an_error_tag() {
    let bytes = encode_enabled_response(&Ok(ResponseMessage {
        message: Some(true),
        impression_data: false,
    }));
    // has_enabled, enabled, impression_data, then a 0 tag for "no error".
    assert_eq!(bytes, vec![1, 1, 0, 0]);
}

#[test]
fn multibyte_string_round_trips() {
    let bytes = encode_core_version("π≈3");
    assert_eq!(decode_core_version(&bytes).unwrap(), "π≈3");
    // Cutting inside a multi-byte character leaves invalid UTF-8, which must
    // not decode even with a matching length prefix.
    let mut patched = bytes[..bytes.len() - 2].to_vec();
    patched[0] -= 2;
    assert!(decode_core_version(&patched).is_none());
}

#[test]
fn duplicate_map_keys_resolve_last_write_wins() {
    let rc = RequestContext {
        toggle_name: "F".to_string(),
        user_id: None,
        session_id: None,
        environment: None,
        app_name: None,
        current_time: None,
        remote_address: None,
        runtime_hostname: None,
        properties: Some(vec![
            ("k".to_string(), "first".to_string()),
            ("k".to_string(), "second".to_string()),
            ("a".to_string(), "x".to_string()),
        ]),
        external_results: Some(vec![("s".to_string(), false), ("s".to_string(), true)]),
    };
    let r = rc.resolve_maps();
    assert_eq!(
        r.properties,
        Some(vec![
            ("k".to_string(), "second".to_string()),
            ("a".to_string(), "x".to_string()),
        ])
    );
    assert_eq!(r.external_results, Some(vec![("s".to_string(), true)]));
    // An absent map stays absent rather than becoming an empty one.
    let rc = RequestContext {
        toggle_name: "F".to_string(),
        user_id: None,
        session_id: None,
        environment: None,
        app_name: None,
        current_time: None,
        remote_address: None,
        runtime_hostname: None,
        properties: None,
        external_results: None,
    };
    let r = rc.resolve_maps();
    assert_eq!(r.properties, None);
    assert_eq!(r.external_results, None);
}
