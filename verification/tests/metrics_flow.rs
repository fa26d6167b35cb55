//! Metrics counting through the bridge: exact yes/no totals and per-variant
//! counts over many evaluation calls.

use unleash_types::client_features::{ClientFeature, ClientFeatures, Strategy, Variant};
use yggdrasilffi::bridge::Bridge;
use yggdrasilffi::messages::{encode_context, ContextMessage};
use yggdrasilffi::reports::decode_metrics_response;
use yggdrasilffi::responses::{decode_response, decode_variant_response};

fn context_for(toggle: &str) -> Vec<u8> {
    encode_context(&ContextMessage {
        toggle_name: Some(toggle.to_string()),
        user_id: Some("user-1".to_string()),
        session_id: None,
        environment: None,
        app_name: Some("the-app".to_string()),
        current_time: None,
        remote_address: None,
        runtime_hostname: None,
        properties: None,
        custom_strategies_results: None,
    })
}

fn default_strategy() -> Strategy {
    Strategy {
        name: "default".into(),
        sort_order: None,
        segments: None,
        constraints: None,
        parameters: None,
        variants: None,
    }
}

fn two_toggle_features() -> ClientFeatures {
    ClientFeatures {
        features: vec![
            ClientFeature {
                name: "on-toggle".into(),
                enabled: true,
                strategies: Some(vec![default_strategy()]),
                ..Default::default()
            },
            ClientFeature {
                name: "off-toggle".into(),
                enabled: false,
                strategies: Some(vec![default_strategy()]),
                ..Default::default()
            },
        ],
        query: None,
        segments: None,
        version: 2,
        meta: None,
    }
}

#[test]
fn enable_check_totals_are_exact() {
    let mut bridge = Bridge::new();
    let h = bridge.new_engine();
    let serialised = serde_json::to_string(&two_toggle_features()).unwrap();
    bridge.flat_take_state(h, &serialised);

    let on = context_for("on-toggle");
    let off = context_for("off-toggle");
    let n: usize = 50;
    for _ in 0..n {
        let b = bridge.flat_check_enabled(h, &on);
        let r = decode_response(&bridge.read_buffer(&b).unwrap()).unwrap();
        assert!(r.enabled);
        bridge.flat_buf_free(b);
        let b = bridge.flat_check_enabled(h, &off);
        let r = decode_response(&bridge.read_buffer(&b).unwrap()).unwrap();
        assert!(r.has_enabled && !r.enabled);
        bridge.flat_buf_free(b);
    }

    let b = bridge.flat_get_metrics(h);
    let m = decode_metrics_response(&bridge.read_buffer(&b).unwrap()).unwrap();
    assert!(m.has_metrics);
    assert!(m.error.is_none());
    let on_stats = m.toggles.iter().find(|t| t.name == "on-toggle").unwrap();
    assert_eq!(on_stats.yes, n as u32);
    assert_eq!(on_stats.no, 0);
    let off_stats = m.toggles.iter().find(|t| t.name == "off-toggle").unwrap();
    assert_eq!(off_stats.yes, 0);
    assert_eq!(off_stats.no, n as u32);
}

#[test]
fn variant_counts_are_exact() {
    let mut bridge = Bridge::new();
    let h = bridge.new_engine();
    let cf = ClientFeatures {
        features: vec![ClientFeature {
            name: "F".into(),
            enabled: true,
            impression_data: Some(false),
            strategies: Some(vec![default_strategy()]),
            variants: Some(vec![Variant {
                name: "v1".into(),
                weight: 1000,
                weight_type: None,
                stickiness: None,
                payload: None,
                overrides: None,
            }]),
            ..Default::default()
        }],
        query: None,
        segments: None,
        version: 2,
        meta: None,
    };
    let serialised = serde_json::to_string(&cf).unwrap();
    bridge.flat_take_state(h, &serialised);

    let msg = context_for("F");
    let n: usize = 2000;
    for _ in 0..n {
        let b = bridge.flat_check_variant(h, &msg);
        let r = decode_variant_response(&bridge.read_buffer(&b).unwrap()).unwrap();
        assert_eq!(r.name.as_deref(), Some("v1"));
        assert!(r.feature_enabled);
        assert!(r.error.is_none());
        bridge.flat_buf_free(b);
    }

    let b = bridge.flat_get_metrics(h);
    let m = decode_metrics_response(&bridge.read_buffer(&b).unwrap()).unwrap();
    assert!(m.has_metrics);
    let stats = m.toggles.iter().find(|t| t.name == "F").unwrap();
    assert_eq!(stats.yes, n as u32);
    assert_eq!(stats.variants, vec![("v1".to_string(), n as u32)]);
}

#[test]
fn metrics_window_drains_on_read() {
    let mut bridge = Bridge::new();
    let h = bridge.new_engine();
    let serialised = serde_json::to_string(&two_toggle_features()).unwrap();
    bridge.flat_take_state(h, &serialised);

    let on = context_for("on-toggle");
    let b = bridge.flat_check_enabled(h, &on);
    bridge.flat_buf_free(b);

    let b = bridge.flat_get_metrics(h);
    let first = decode_metrics_response(&bridge.read_buffer(&b).unwrap()).unwrap();
    assert!(first.has_metrics);

    // The window was closed and handed out; a second read has nothing new.
    let b = bridge.flat_get_metrics(h);
    let second = decode_metrics_response(&bridge.read_buffer(&b).unwrap()).unwrap();
    assert!(!second.has_metrics || second.toggles.is_empty());
}
