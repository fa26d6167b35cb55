//! Handle lifecycle, buffer ownership, and the error taxonomy at the
//! entry-point boundary.

use unleash_types::client_features::{ClientFeature, ClientFeatures, Strategy};
use yggdrasilffi::bridge::Bridge;
use yggdrasilffi::buffers::{Buf, BufferStore};
use yggdrasilffi::messages::{encode_context, ContextMessage};
use yggdrasilffi::reports::{decode_built_in_strategies, decode_core_version};
use yggdrasilffi::responses::decode_response;
use yggdrasilffi::state_response::decode_take_state_response;

fn named_context(toggle: Option<&str>) -> Vec<u8> {
    encode_context(&ContextMessage {
        toggle_name: toggle.map(|s| s.to_string()),
        user_id: None,
        session_id: None,
        environment: None,
        app_name: None,
        current_time: None,
        remote_address: None,
        runtime_hostname: None,
        properties: None,
        custom_strategies_results: None,
    })
}

fn features_json(toggle: &str) -> String {
    let cf = ClientFeatures {
        features: vec![ClientFeature {
            name: toggle.into(),
            enabled: true,
            strategies: Some(vec![Strategy {
                name: "default".into(),
                sort_order: None,
                segments: None,
                constraints: None,
                parameters: None,
                variants: None,
            }]),
            ..Default::default()
        }],
        query: None,
        segments: None,
        version: 2,
        meta: None,
    };
    serde_json::to_string(&cf).unwrap()
}

#[test]
fn release_of_zero_length_descriptor_is_noop() {
    let mut store = BufferStore::new();
    let null_buf = Buf { ptr: 0, len: 0, cap: 0 };
    store.release(null_buf);
    // A dangling address with zero length is also a guaranteed no-op.
    let dangling = Buf { ptr: 12345, len: 0, cap: 0 };
    store.release(dangling);
}

#[test]
fn produce_then_release_frees_the_slot() {
    let mut store = BufferStore::new();
    let b = store.produce(vec![1, 2, 3]);
    assert_eq!(b.len, 3);
    assert_eq!(b.cap, b.len);
    assert!(b.ptr >= 1);
    assert_eq!(store.read_buffer(&b), Some(vec![1, 2, 3]));
    store.release(b);
    assert_eq!(store.read_buffer(&b), None);
}

#[test]
fn empty_bytes_produce_the_null_descriptor() {
    let mut store = BufferStore::new();
    let b = store.produce(Vec::new());
    assert_eq!(b.ptr, 0);
    assert_eq!(b.len, 0);
    assert_eq!(b.cap, 0);
    assert_eq!(store.read_buffer(&b), None);
}

#[test]
fn cloned_handle_keeps_state_alive() {
    let mut bridge = Bridge::new();
    let h = bridge.new_engine();
    bridge.flat_take_state(h, &features_json("F"));

    let h2 = bridge.clone_engine(h);
    assert_eq!(h2, h);
    bridge.free_engine(h);

    // The other reference still reaches the same loaded state.
    let buf = bridge.flat_check_enabled(h2, &named_context(Some("F")));
    let resp = decode_response(&bridge.read_buffer(&buf).unwrap()).unwrap();
    assert!(resp.has_enabled && resp.enabled);

    // Dropping the last reference releases the slot; the handle goes stale.
    bridge.free_engine(h2);
    let buf = bridge.flat_check_enabled(h2, &named_context(Some("F")));
    let resp = decode_response(&bridge.read_buffer(&buf).unwrap()).unwrap();
    assert!(!resp.has_enabled);
    assert_eq!(resp.error.as_deref(), Some("Invalid pointer encountered"));
}

#[test]
fn null_handle_reports_null_error() {
    let mut bridge = Bridge::new();
    let buf = bridge.flat_check_enabled(0, &named_context(Some("F")));
    let resp = decode_response(&bridge.read_buffer(&buf).unwrap()).unwrap();
    assert!(!resp.has_enabled);
    assert_eq!(
        resp.error.as_deref(),
        Some("Null error detected, this is a serious issue and you should report this as a bug.")
    );
}

#[test]
fn stale_handle_reports_invalid_pointer() {
    let mut bridge = Bridge::new();
    let buf = bridge.flat_check_enabled(42, &named_context(Some("F")));
    let resp = decode_response(&bridge.read_buffer(&buf).unwrap()).unwrap();
    assert_eq!(resp.error.as_deref(), Some("Invalid pointer encountered"));
}

#[test]
fn malformed_message_reports_invalid_context() {
    let mut bridge = Bridge::new();
    let h = bridge.new_engine();
    let buf = bridge.flat_check_enabled(h, b"\xff\xfe\xfd");
    let resp = decode_response(&bridge.read_buffer(&buf).unwrap()).unwrap();
    assert_eq!(
        resp.error.as_deref(),
        Some("Invalid context: malformed context message")
    );
}

#[test]
fn nameless_context_reports_missing_flag_name() {
    let mut bridge = Bridge::new();
    let h = bridge.new_engine();
    let buf = bridge.flat_check_enabled(h, &named_context(None));
    let resp = decode_response(&bridge.read_buffer(&buf).unwrap()).unwrap();
    assert_eq!(
        resp.error.as_deref(),
        Some("Flag name was missing when building extended context")
    );
}

#[test]
fn take_state_on_null_handle_reports_null_error() {
    let mut bridge = Bridge::new();
    let buf = bridge.flat_take_state(0, &features_json("F"));
    let resp = decode_take_state_response(&bridge.read_buffer(&buf).unwrap()).unwrap();
    assert_eq!(
        resp.error.as_deref(),
        Some("Null error detected, this is a serious issue and you should report this as a bug.")
    );
}

#[test]
fn built_in_strategies_are_the_published_eight() {
    let mut bridge = Bridge::new();
    let buf = bridge.flat_built_in_strategies();
    let names = decode_built_in_strategies(&bridge.read_buffer(&buf).unwrap()).unwrap();
    assert_eq!(
        names,
        vec![
            "default".to_string(),
            "userWithId".to_string(),
            "gradualRolloutUserId".to_string(),
            "gradualRolloutRandom".to_string(),
            "applicationHostname".to_string(),
            "gradualRolloutSessionId".to_string(),
            "remoteAddress".to_string(),
            "flexibleRollout".to_string(),
        ]
    );
}

#[test]
fn core_version_is_the_engine_package_version() {
    let mut bridge = Bridge::new();
    let buf = bridge.flat_get_core_version();
    let version = decode_core_version(&bridge.read_buffer(&buf).unwrap()).unwrap();
    assert_eq!(version, "0.21.5");
}

#[test]
fn handles_are_reference_counted_not_copied() {
    let mut bridge = Bridge::new();
    let a = bridge.new_engine();
    let b = bridge.new_engine();
    assert_ne!(a, b);
    // Freeing one engine leaves the other fully usable.
    bridge.free_engine(a);
    bridge.flat_take_state(b, &features_json("F"));
    let buf = bridge.flat_check_enabled(b, &named_context(Some("F")));
    let resp = decode_response(&bridge.read_buffer(&buf).unwrap()).unwrap();
    assert!(resp.enabled);
    // A released slot can be reused by the next create.
    let c = bridge.new_engine();
    assert_eq!(c, a);
}

#[test]
fn clone_of_invalid_handle_returns_null() {
    let mut bridge = Bridge::new();
    assert_eq!(bridge.clone_engine(0), 0);
    assert_eq!(bridge.clone_engine(7), 0);
}
