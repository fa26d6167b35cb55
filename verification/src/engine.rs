//! The narrow, trusted interface to the evaluation engine and to the lock
//! that guards it.
//!
//! The engine itself is an external collaborator: toggle matching, strategy
//! evaluation, variant weighting and metrics accounting all happen inside
//! `unleash_yggdrasil::EngineState`. Everything here either declares one of
//! its types opaquely or wraps exactly one call to it, converting between the
//! engine's types and the plain values the verified bridge works with.

use vstd::prelude::*;

use crate::messages::RequestContext;
use crate::responses::ExtendedVariant;
use crate::reports::{MetricsData, ToggleDefinition, ToggleStats};
use crate::state_response::{StrategyDefinition, StrategyFeature, Warning};
use std::collections::HashMap;
use std::sync::{Mutex, MutexGuard, PoisonError};
use unleash_types::client_features::{ClientFeatures, Context};
use unleash_yggdrasil::state::EnrichedContext;
use unleash_yggdrasil::{EngineState, UpdateMessage};

verus! {

#[verifier::external_type_specification]
#[verifier::external_body]
#[verifier::reject_recursive_types(T)]
pub struct ExMutex<T: ?Sized>(Mutex<T>);

#[verifier::external_type_specification]
#[verifier::external_body]
#[verifier::reject_recursive_types(T)]
pub struct ExMutexGuard<'a, T: ?Sized + 'a>(MutexGuard<'a, T>);

#[verifier::external_type_specification]
#[verifier::external_body]
#[verifier::reject_recursive_types(T)]
pub struct ExPoisonError<T>(PoisonError<T>);

#[verifier::external_type_specification]
#[verifier::external_body]
pub struct ExEngineState(EngineState);

#[verifier::external_type_specification]
#[verifier::external_body]
pub struct ExUpdateMessage(UpdateMessage);

#[verifier::external_type_specification]
#[verifier::external_body]
pub struct ExClientFeatures(ClientFeatures);

#[verifier::external_type_specification]
#[verifier::external_body]
pub struct ExContext(Context);

/// Relies on `Mutex::lock`: yields the guard, poisoned or not.
#[verifier::external_body]
fn lock_raw<'a, T>(m: &'a Mutex<T>) -> Result<MutexGuard<'a, T>, PoisonError<MutexGuard<'a, T>>> {
    m.lock()
}

/// Relies on `PoisonError::into_inner`: yields the guard a poisoned lock
/// still holds.
#[verifier::external_body]
fn poison_into_inner<T>(e: PoisonError<T>) -> T {
    e.into_inner()
}

/// Acquires the lock, recovering from poisoning: a lock that was held during
/// an abnormal termination is still acquirable afterwards and yields the
/// state as last modified, so one intercepted fault can never make every
/// subsequent call fail.
pub fn recover_lock<'a, T>(lock: &'a Mutex<T>) -> MutexGuard<'a, T> {
    match lock_raw(lock) {
        Ok(g) => g,
        Err(poisoned) => poison_into_inner(poisoned),
    }
}

/// Relies on `EngineState::initial_state` and `chrono::Utc::now`: fresh
/// engine state seeded with the present time, behind a fresh lock.
#[verifier::external_body]
pub fn engine_new() -> Mutex<EngineState> {
    Mutex::new(EngineState::initial_state(chrono::Utc::now()))
}

/// Whether the engine's textual state payload parses into an update message.
/// The result depends on the characters alone.
pub uninterp spec fn update_parses(s: Seq<char>) -> bool;

/// Relies on `serde_json::from_str`: parses a bulk textual payload into the
/// engine's native update message, and fails exactly on payloads that do not
/// parse.
#[verifier::external_body]
pub fn parse_update_message(payload: &str) -> (r: Option<UpdateMessage>)
    ensures
        r is Some <==> update_parses(payload@),
{
    serde_json::from_str(payload).ok()
}

/// Relies on `EngineState::take_state`: hands the parsed structure to the
/// engine and collects the warnings it produced while integrating it.
#[verifier::external_body]
pub fn engine_take_state(g: &mut MutexGuard<'_, EngineState>, msg: UpdateMessage) -> Vec<Warning> {
    g.take_state(msg)
        .unwrap_or_default()
        .into_iter()
        .map(|w| Warning { toggle_name: w.toggle_name, message: w.message })
        .collect()
}

/// Relies on `EngineState::get_state`: the currently loaded feature set.
#[verifier::external_body]
pub fn engine_get_state(g: &MutexGuard<'_, EngineState>) -> ClientFeatures {
    g.get_state()
}

/// Relies on `serde_json::to_string`: a textual snapshot of a feature set,
/// for observability; empty only if serialisation itself fails.
#[verifier::external_body]
pub fn state_json(f: &ClientFeatures) -> String {
    serde_json::to_string(f).unwrap_or_default()
}

/// Converts a feature set into the snapshot the state-ingestion response
/// carries: every feature name mapped to its strategies' parameter maps. The
/// order here is the engine's listing order, with parameter entries coming
/// out of a hash map in arbitrary order; the bridge puts the whole snapshot
/// into canonical name order before encoding.
#[verifier::external_body]
pub fn features_snapshot(f: &ClientFeatures) -> Vec<StrategyFeature> {
    f.features
        .iter()
        .map(|feature| StrategyFeature {
            feature_name: feature.name.clone(),
            strategies: feature.strategies.clone().unwrap_or_default().into_iter().map(
                |s| StrategyDefinition {
                    name: s.name,
                    parameters: s.parameters.unwrap_or_default().into_iter().collect(),
                },
            ).collect(),
        })
        .collect()
}

/// Converts a request context into the engine's context record.
#[verifier::external_body]
pub fn to_engine_context(ctx: &RequestContext) -> Context {
    Context {
        user_id: ctx.user_id.clone(),
        session_id: ctx.session_id.clone(),
        environment: ctx.environment.clone(),
        app_name: ctx.app_name.clone(),
        current_time: ctx.current_time.clone(),
        remote_address: ctx.remote_address.clone(),
        properties: ctx.properties.clone().map(|v| v.into_iter().collect()),
    }
}

/// Converts the caller-supplied external strategy results into the map the
/// engine reads them from.
#[verifier::external_body]
pub fn external_results_map(v: &Vec<(String, bool)>) -> HashMap<String, bool> {
    v.iter().cloned().collect()
}

/// Relies on `EngineState::check_enabled`: whether the named toggle is
/// enabled for this context; nothing when the toggle is not present.
#[verifier::external_body]
pub fn engine_check_enabled(
    g: &MutexGuard<'_, EngineState>,
    c: &Context,
    toggle: &str,
    hostname: Option<&str>,
    ext: Option<&HashMap<String, bool>>,
) -> Option<bool> {
    let mut ec = EnrichedContext::from(c, toggle, ext);
    ec.runtime_hostname = hostname;
    g.check_enabled(&ec)
}

/// A variant the engine selected, before enrichment with the toggle's own
/// enablement.
pub struct VariantOut {
    pub name: String,
    pub payload: Option<(String, String)>,
    pub enabled: bool,
}

impl VariantOut {
    /// Enriches the engine's answer with the toggle's own enablement: name,
    /// payload and the variant's enablement are carried over unchanged, and
    /// `feature_enabled` is exactly the plain enablement handed in.
    pub fn to_enriched_response(self, toggle_enabled: bool) -> (r: ExtendedVariant)
        ensures
            r.name == self.name,
            r.payload == self.payload,
            r.enabled == self.enabled,
            r.feature_enabled == toggle_enabled,
    {
        ExtendedVariant {
            name: self.name,
            payload: self.payload,
            enabled: self.enabled,
            feature_enabled: toggle_enabled,
        }
    }
}

/// Relies on `EngineState::check_variant`: the variant the engine assigned
/// for this context; nothing when the toggle is not present or has none.
#[verifier::external_body]
pub fn engine_check_variant(
    g: &MutexGuard<'_, EngineState>,
    c: &Context,
    toggle: &str,
    hostname: Option<&str>,
    ext: Option<&HashMap<String, bool>>,
) -> Option<VariantOut> {
    let mut ec = EnrichedContext::from(c, toggle, ext);
    ec.runtime_hostname = hostname;
    g.check_variant(&ec).map(|v| VariantOut {
        name: v.name,
        payload: v.payload.map(|p| (p.payload_type, p.value)),
        enabled: v.enabled,
    })
}

/// Relies on `EngineState::should_emit_impression_event`: the toggle's
/// impression setting.
#[verifier::external_body]
pub fn engine_should_emit(g: &MutexGuard<'_, EngineState>, name: &str) -> bool {
    g.should_emit_impression_event(name)
}

/// Relies on `EngineState::count_toggle`: records one yes/no outcome in the
/// engine's metrics counters.
#[verifier::external_body]
pub fn engine_count_toggle(g: &MutexGuard<'_, EngineState>, name: &str, enabled: bool) {
    g.count_toggle(name, enabled)
}

/// Relies on `EngineState::count_variant`: records one variant selection in
/// the engine's metrics counters.
#[verifier::external_body]
pub fn engine_count_variant(g: &MutexGuard<'_, EngineState>, toggle: &str, variant: &str) {
    g.count_variant(toggle, variant)
}

/// Relies on `EngineState::get_metrics` and `chrono::Utc::now`: closes the
/// metrics window at the present time and hands its counters out as plain
/// values; nothing when no window was available.
#[verifier::external_body]
pub fn engine_get_metrics(g: &mut MutexGuard<'_, EngineState>) -> Option<MetricsData> {
    g.get_metrics(chrono::Utc::now()).map(|b| MetricsData {
        start: b.start.timestamp_millis(),
        stop: b.stop.timestamp_millis(),
        toggles: b
            .toggles
            .into_iter()
            .map(|(name, s)| ToggleStats {
                name,
                yes: s.yes,
                no: s.no,
                variants: s.variants.into_iter().collect(),
            })
            .collect(),
    })
}

/// Relies on `EngineState::list_known_toggles`: every currently known toggle
/// as plain values.
#[verifier::external_body]
pub fn engine_list_known_toggles(g: &MutexGuard<'_, EngineState>) -> Vec<ToggleDefinition> {
    g.list_known_toggles()
        .into_iter()
        .map(|t| ToggleDefinition {
            name: t.name,
            project: t.project,
            enabled: t.enabled,
            feature_type: t.feature_type,
        })
        .collect()
}

/// Relies on `unleash_yggdrasil::KNOWN_STRATEGIES`: the fixed list of
/// built-in strategy names, in its published order.
#[verifier::external_body]
pub fn built_in_strategies() -> (r: Vec<String>)
    ensures
        r@.len() == 8,
        r@[0]@ == "default"@,
        r@[1]@ == "userWithId"@,
        r@[2]@ == "gradualRolloutUserId"@,
        r@[3]@ == "gradualRolloutRandom"@,
        r@[4]@ == "applicationHostname"@,
        r@[5]@ == "gradualRolloutSessionId"@,
        r@[6]@ == "remoteAddress"@,
        r@[7]@ == "flexibleRollout"@,
{
    unleash_yggdrasil::KNOWN_STRATEGIES.iter().map(|s| s.to_string()).collect()
}

/// Relies on `unleash_yggdrasil::CORE_VERSION`: the engine's version string,
/// which is its package version — "0.21.5" in this build.
#[verifier::external_body]
pub fn core_version() -> (r: String)
    ensures
        r@ == "0.21.5"@,
{
    unleash_yggdrasil::CORE_VERSION.to_string()
}

} // verus!
