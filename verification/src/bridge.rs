//! The bridge: opaque handle lifecycle and the entry points.
//!
//! A handle is a small non-zero integer naming a slot in the bridge's table;
//! each slot holds a reference count and the lock-guarded engine state it
//! shares. Every entry point is total: whatever the input, it produces an
//! encoded response in a boundary-owned buffer, with failures carried as the
//! response's error field. The verified code itself never panics; a fault
//! inside the opaque engine can still unwind out of an entry point, and the
//! embedding around the library must intercept it before the boundary.
//! Handle errors and malformed messages are decided by verified code before
//! any engine call; what the engine itself answers is reported exactly as it
//! came back.

use vstd::prelude::*;

use crate::buffers::{spec_produce, spec_release, Buf, BufferStore};
use crate::engine::{
    built_in_strategies, core_version, engine_check_enabled, engine_check_variant,
    engine_count_toggle, engine_count_variant, engine_get_metrics, engine_get_state,
    engine_list_known_toggles, engine_new, engine_should_emit, engine_take_state,
    external_results_map, features_snapshot, parse_update_message, recover_lock, state_json,
    to_engine_context, update_parses,
};
use crate::errors::FlatError;
use crate::messages::{context_from_message, decode_context, sd_context};
use crate::reports::{
    encode_built_in_strategies, encode_core_version, encode_feature_defs_response,
    encode_metrics_response, se_built_in_strategies, se_core_version, se_feature_defs_response,
    se_metrics_response, spec_feature_defs_response, spec_metrics_response, MetricsData,
    ToggleDefinition,
};
use crate::responses::{
    encode_enabled_response, encode_variant_response, se_response, se_variant_response,
    spec_enabled_response, spec_variant_response, ExtendedVariant, ResponseMessage,
};
use crate::state_response::{
    canonicalize_snapshot, encode_take_state_response, se_take_state_response,
    spec_take_state_response, TakeStateResult,
};
use std::sync::Mutex;
use unleash_yggdrasil::EngineState;

verus! {

/// One table slot: how many handle references share the engine, and the
/// mutual-exclusion lock that guards its state.
struct EngineSlot {
    refcount: u64,
    cell: Mutex<EngineState>,
}

/// The bridge: the handle table and the store of boundary-owned buffers.
pub struct Bridge {
    engines: Vec<Option<EngineSlot>>,
    buffers: BufferStore,
}

/// The first vacant handle slot at or after `i`, or `s.len()` if none.
pub open spec fn spec_first_vacant(s: Seq<Option<u64>>, i: int) -> int
    decreases s.len() - i,
{
    if i < 0 || i >= s.len() {
        s.len() as int
    } else if s[i] is None {
        i
    } else {
        spec_first_vacant(s, i + 1)
    }
}

/// A handle is valid when it names a live slot; zero is the null handle.
pub open spec fn spec_valid_handle(hs: Seq<Option<u64>>, h: u64) -> bool {
    1 <= h <= hs.len() && hs[h - 1] is Some
}

/// What `new_engine` does to the table: the new table and the handle.
pub open spec fn spec_new_engine(hs: Seq<Option<u64>>) -> (Seq<Option<u64>>, int) {
    let i = spec_first_vacant(hs, 0);
    if i == hs.len() {
        (hs.push(Some(1u64)), i + 1)
    } else {
        (hs.update(i, Some(1u64)), i + 1)
    }
}

/// What `clone_engine` does to the table: one more reference to a live slot.
pub open spec fn spec_clone_engine(hs: Seq<Option<u64>>, h: u64) -> Seq<Option<u64>> {
    if spec_valid_handle(hs, h) && hs[h - 1].unwrap() < u64::MAX {
        hs.update(h - 1, Some((hs[h - 1].unwrap() + 1) as u64))
    } else {
        hs
    }
}

/// What `free_engine` does to the table: one reference fewer, the slot
/// released when the last reference goes.
pub open spec fn spec_free_engine(hs: Seq<Option<u64>>, h: u64) -> Seq<Option<u64>> {
    if spec_valid_handle(hs, h) {
        if hs[h - 1].unwrap() > 1 {
            hs.update(h - 1, Some((hs[h - 1].unwrap() - 1) as u64))
        } else {
            hs.update(h - 1, None)
        }
    } else {
        hs
    }
}

impl Bridge {
    /// The table as refcounts, slot by slot.
    pub closed spec fn handles(&self) -> Seq<Option<u64>> {
        Seq::new(
            self.engines@.len(),
            |i: int|
                match self.engines@[i] {
                    Some(s) => Some(s.refcount),
                    None => None,
                },
        )
    }

    /// The buffer store's live allocations.
    pub closed spec fn buffers_view(&self) -> Seq<Option<Seq<u8>>> {
        self.buffers@
    }

    /// A bridge with no engines and no buffers.
    pub fn new() -> (r: Bridge)
        ensures
            r.handles() == Seq::<Option<u64>>::empty(),
            r.buffers_view() == Seq::<Option<Seq<u8>>>::empty(),
    {
        let r = Bridge { engines: Vec::new(), buffers: BufferStore::new() };
        proof {
            assert(r.handles() =~= Seq::<Option<u64>>::empty());
        }
        r
    }

    /// Allocates fresh engine state seeded with a start time and returns a
    /// handle with reference count 1. Zero is never returned.
    pub fn new_engine(&mut self) -> (h: u64)
        ensures
            final(self).buffers_view() == old(self).buffers_view(),
            final(self).handles() == spec_new_engine(old(self).handles()).0,
            h == spec_new_engine(old(self).handles()).1,
            h >= 1,
            spec_valid_handle(final(self).handles(), h),
    {
        let cell = engine_new();
        let mut i: usize = 0;
        while i < self.engines.len() && self.engines[i].is_some()
            invariant
                0 <= i <= self.engines@.len(),
                forall|j: int| 0 <= j < i ==> self.handles()[j] is Some,
            decreases self.engines@.len() - i,
        {
            i = i + 1;
        }
        proof {
            lemma_first_vacant_agrees(self.handles(), i as int);
        }
        if i == self.engines.len() {
            self.engines.push(Some(EngineSlot { refcount: 1, cell }));
            let h = self.engines.len();
            proof {
                assert(self.handles() =~= old(self).handles().push(Some(1u64)));
            }
            h as u64
        } else {
            self.engines[i] = Some(EngineSlot { refcount: 1, cell });
            proof {
                assert(self.handles() =~= old(self).handles().update(i as int, Some(1u64)));
            }
            (i + 1) as u64
        }
    }

    /// Adds one reference to a live handle and returns the same handle; an
    /// invalid or null handle is left alone and zero comes back.
    pub fn clone_engine(&mut self, h: u64) -> (r: u64)
        ensures
            final(self).buffers_view() == old(self).buffers_view(),
            final(self).handles() == spec_clone_engine(old(self).handles(), h),
            r == if spec_valid_handle(old(self).handles(), h) {
                h
            } else {
                0u64
            },
    {
        if h >= 1 && h <= self.engines.len() as u64 {
            let i = (h - 1) as usize;
            let rc = match &self.engines[i] {
                Some(s) => Some(s.refcount),
                None => None,
            };
            match rc {
                Some(c) => {
                    if c < u64::MAX {
                        let cell_slot = self.engines.remove(i);
                        match cell_slot {
                            Some(s) => {
                                self.engines.insert(
                                    i,
                                    Some(EngineSlot { refcount: c + 1, cell: s.cell }),
                                );
                            },
                            None => {
                                proof {
                                    assert(false);
                                }
                            },
                        }
                        proof {
                            assert(self.handles() =~= spec_clone_engine(old(self).handles(), h));
                        }
                    } else {
                        proof {
                            assert(self.handles() =~= spec_clone_engine(old(self).handles(), h));
                        }
                    }
                    h
                },
                None => {
                    proof {
                        assert(self.handles() =~= spec_clone_engine(old(self).handles(), h));
                    }
                    0
                },
            }
        } else {
            proof {
                assert(self.handles() =~= spec_clone_engine(old(self).handles(), h));
            }
            0
        }
    }

    /// Drops one reference. On reaching zero the slot is released; the null
    /// handle and a stale handle are no-ops.
    pub fn free_engine(&mut self, h: u64)
        ensures
            final(self).buffers_view() == old(self).buffers_view(),
            final(self).handles() == spec_free_engine(old(self).handles(), h),
    {
        if h >= 1 && h <= self.engines.len() as u64 {
            let i = (h - 1) as usize;
            let rc = match &self.engines[i] {
                Some(s) => Some(s.refcount),
                None => None,
            };
            match rc {
                Some(c) => {
                    if c > 1 {
                        let cell_slot = self.engines.remove(i);
                        match cell_slot {
                            Some(s) => {
                                self.engines.insert(
                                    i,
                                    Some(EngineSlot { refcount: c - 1, cell: s.cell }),
                                );
                            },
                            None => {
                                proof {
                                    assert(false);
                                }
                            },
                        }
                        proof {
                            assert(self.handles() =~= spec_free_engine(old(self).handles(), h));
                        }
                    } else {
                        self.engines[i] = None;
                        proof {
                            assert(self.handles() =~= spec_free_engine(old(self).handles(), h));
                        }
                    }
                },
                None => {
                    proof {
                        assert(self.handles() =~= spec_free_engine(old(self).handles(), h));
                    }
                },
            }
        } else {
            proof {
                assert(self.handles() =~= spec_free_engine(old(self).handles(), h));
            }
        }
    }

    /// Returns a produced descriptor's bytes, if its slot is live.
    pub fn read_buffer(&self, b: &Buf) -> (r: Option<Vec<u8>>)
        ensures
            match r {
                Some(v) => 1 <= b.ptr <= self.buffers_view().len() && self.buffers_view()[b.ptr
                    - 1] == Some(v@),
                None => b.ptr == 0 || b.ptr > self.buffers_view().len() || self.buffers_view()[b.ptr
                    - 1] is None,
            },
    {
        self.buffers.read_buffer(b)
    }

    /// Returns a boundary-owned buffer exactly once. Requires `cap == len`,
    /// the invariant every produced descriptor satisfies; a zero-length
    /// descriptor is a guaranteed no-op. This can never fault.
    pub fn flat_buf_free(&mut self, b: Buf)
        requires
            b.cap == b.len,
        ensures
            final(self).handles() == old(self).handles(),
            final(self).buffers_view() == spec_release(
                old(self).buffers_view(),
                b.ptr as int,
                b.len as int,
            ),
    {
        self.buffers.release(b);
    }
}

proof fn lemma_first_vacant_agrees(s: Seq<Option<u64>>, i: int)
    requires
        0 <= i <= s.len(),
        forall|j: int| 0 <= j < i ==> s[j] is Some,
        i < s.len() ==> s[i] is None,
    ensures
        spec_first_vacant(s, 0) == i,
{
    lemma_first_vacant_step(s, 0, i);
}

proof fn lemma_first_vacant_step(s: Seq<Option<u64>>, k: int, i: int)
    requires
        0 <= k <= i <= s.len(),
        forall|j: int| k <= j < i ==> s[j] is Some,
        i < s.len() ==> s[i] is None,
    ensures
        spec_first_vacant(s, k) == i,
    decreases i - k,
{
    if k < i {
        lemma_first_vacant_step(s, k + 1, i);
    }
}

/// Law: adding a reference to a live handle and then dropping one leaves
/// every handle exactly as it was: the other reference's access is intact.
pub proof fn lemma_clone_then_free(hs: Seq<Option<u64>>, h: u64)
    requires
        spec_valid_handle(hs, h),
        1 <= hs[h - 1].unwrap() < u64::MAX,
    ensures
        spec_free_engine(spec_clone_engine(hs, h), h) == hs,
{
    let mid = spec_clone_engine(hs, h);
    assert(spec_free_engine(mid, h) =~= hs);
}

/// Law: dropping the last reference releases the slot, and freeing the same
/// handle again has no effect: no double release can happen.
pub proof fn lemma_free_is_once(hs: Seq<Option<u64>>, h: u64)
    requires
        spec_valid_handle(hs, h),
        hs[h - 1].unwrap() == 1,
    ensures
        spec_free_engine(hs, h)[h - 1] is None,
        spec_free_engine(spec_free_engine(hs, h), h) == spec_free_engine(hs, h),
{
}

/// Law: a fresh engine comes with exactly one reference, and freeing that
/// reference releases it: no leak across a create/destroy pair.
pub proof fn lemma_new_then_free(hs: Seq<Option<u64>>)
    requires
        hs.len() < u64::MAX,
    ensures
        ({
            let (ns, h) = spec_new_engine(hs);
            let rs = spec_free_engine(ns, h as u64);
            &&& spec_valid_handle(ns, h as u64)
            &&& ns[h - 1] == Some(1u64)
            &&& rs.len() >= hs.len()
            &&& forall|j: int| 0 <= j < hs.len() ==> rs[j] == hs[j]
            &&& forall|j: int| hs.len() <= j < rs.len() ==> rs[j] is None
        }),
{
    lemma_first_vacant_in_range(hs, 0);
    let i = spec_first_vacant(hs, 0);
    if i < hs.len() {
        lemma_first_vacant_is_vacant(hs, 0);
    }
}

proof fn lemma_first_vacant_in_range(s: Seq<Option<u64>>, k: int)
    requires
        0 <= k <= s.len(),
    ensures
        k <= spec_first_vacant(s, k) <= s.len(),
    decreases s.len() - k,
{
    if k < s.len() && !(s[k] is None) {
        lemma_first_vacant_in_range(s, k + 1);
    }
}

proof fn lemma_first_vacant_is_vacant(s: Seq<Option<u64>>, k: int)
    requires
        0 <= k <= s.len(),
        spec_first_vacant(s, k) < s.len(),
    ensures
        s[spec_first_vacant(s, k)] is None,
    decreases s.len() - k,
{
    if k < s.len() && !(s[k] is None) {
        lemma_first_vacant_is_vacant(s, k + 1);
    }
}

} // verus!

verus! {

// ---------------------------------------------------------------------------
// What each entry point promises
// ---------------------------------------------------------------------------
/// The message failed schema validation or left trailing bytes.
pub open spec fn context_malformed(msg: Seq<u8>) -> bool {
    match sd_context(msg, 0) {
        Some((_c, p)) => p != msg.len(),
        None => true,
    }
}

/// The message parsed but carries no toggle name.
pub open spec fn context_without_toggle(msg: Seq<u8>) -> bool {
    match sd_context(msg, 0) {
        Some((c, p)) => p == msg.len() && c.toggle_name is None,
        None => false,
    }
}

/// The message parsed and names its toggle.
pub open spec fn context_with_toggle(msg: Seq<u8>) -> bool {
    match sd_context(msg, 0) {
        Some((c, p)) => p == msg.len() && c.toggle_name is Some,
        None => false,
    }
}

/// The entry point stored exactly these bytes in a fresh buffer and handed
/// out its descriptor.
pub open spec fn spec_produced(
    old_b: Seq<Option<Seq<u8>>>,
    new_b: Seq<Option<Seq<u8>>>,
    b: Buf,
    bytes: Seq<u8>,
) -> bool {
    &&& new_b == spec_produce(old_b, bytes).0
    &&& b.ptr == spec_produce(old_b, bytes).1
    &&& b.len == bytes.len()
    &&& b.cap == b.len
}

/// Which outcome an enablement call may report: each error exactly on the
/// inputs that earn it, decided before any engine call, and an answer exactly
/// when the message and the handle are good. What the answer contains is the
/// engine's to decide.
pub open spec fn spec_enabled_outcome(
    hs: Seq<Option<u64>>,
    h: u64,
    msg: Seq<u8>,
    outcome: Result<ResponseMessage<bool>, FlatError>,
) -> bool {
    match outcome {
        Err(FlatError::InvalidContext(m)) => context_malformed(msg) && m@
            == "malformed context message"@,
        Err(FlatError::MissingFlagName) => context_without_toggle(msg),
        Err(FlatError::NullError) => context_with_toggle(msg) && h == 0,
        Err(FlatError::InvalidPointer) => context_with_toggle(msg) && h != 0
            && !spec_valid_handle(hs, h),
        Ok(_) => context_with_toggle(msg) && spec_valid_handle(hs, h),
        _ => false,
    }
}

/// Which outcome a variant call may report; the shape mirrors the enablement
/// call.
pub open spec fn spec_variant_outcome(
    hs: Seq<Option<u64>>,
    h: u64,
    msg: Seq<u8>,
    outcome: Result<ResponseMessage<ExtendedVariant>, FlatError>,
) -> bool {
    match outcome {
        Err(FlatError::InvalidContext(m)) => context_malformed(msg) && m@
            == "malformed context message"@,
        Err(FlatError::MissingFlagName) => context_without_toggle(msg),
        Err(FlatError::NullError) => context_with_toggle(msg) && h == 0,
        Err(FlatError::InvalidPointer) => context_with_toggle(msg) && h != 0
            && !spec_valid_handle(hs, h),
        Ok(_) => context_with_toggle(msg) && spec_valid_handle(hs, h),
        _ => false,
    }
}

/// Which outcome a state ingestion may report: handle errors first, then
/// `InvalidState` exactly on payloads that do not parse — parsing happens
/// strictly before any mutation — and otherwise the warnings and snapshot,
/// with no error.
pub open spec fn spec_take_state_outcome(
    hs: Seq<Option<u64>>,
    h: u64,
    payload: Seq<char>,
    outcome: Result<TakeStateResult, FlatError>,
) -> bool {
    match outcome {
        Err(FlatError::NullError) => h == 0,
        Err(FlatError::InvalidPointer) => h != 0 && !spec_valid_handle(hs, h),
        Err(FlatError::InvalidState(m)) => spec_valid_handle(hs, h) && !update_parses(payload)
            && m@ == "Your features does not parse"@,
        Ok(t) => spec_valid_handle(hs, h) && update_parses(payload) && t.error is None,
        _ => false,
    }
}

/// Which outcome a handle-only call (listing, metrics) may report.
pub open spec fn spec_handle_outcome<T>(
    hs: Seq<Option<u64>>,
    h: u64,
    outcome: Result<T, FlatError>,
) -> bool {
    match outcome {
        Err(FlatError::NullError) => h == 0,
        Err(FlatError::InvalidPointer) => h != 0 && !spec_valid_handle(hs, h),
        Ok(_) => spec_valid_handle(hs, h),
        _ => false,
    }
}

impl Bridge {
    /// Full-replace state ingestion. Parses the payload strictly before any
    /// engine mutation; a payload that does not parse earns `InvalidState`
    /// and leaves the engine untouched. On success the response carries the
    /// engine's warnings and a snapshot of every loaded feature, taken after
    /// ingestion and put into canonical name order.
    pub fn flat_take_state(&mut self, h: u64, payload: &str) -> (b: Buf)
        ensures
            final(self).handles() == old(self).handles(),
            exists|outcome: Result<TakeStateResult, FlatError>|
                #[trigger] spec_take_state_outcome(old(self).handles(), h, payload@, outcome)
                    && spec_produced(
                    old(self).buffers_view(),
                    final(self).buffers_view(),
                    b,
                    se_take_state_response(spec_take_state_response(outcome)),
                ),
    {
        let outcome: Result<TakeStateResult, FlatError> = if h == 0 {
            Err(FlatError::NullError)
        } else if h > self.engines.len() as u64 {
            Err(FlatError::InvalidPointer)
        } else {
            let i = (h - 1) as usize;
            match &self.engines[i] {
                None => Err(FlatError::InvalidPointer),
                Some(slot) => {
                    match parse_update_message(payload) {
                        None => Err(
                            FlatError::InvalidState(
                                String::from_str("Your features does not parse"),
                            ),
                        ),
                        Some(upd) => {
                            let mut g = recover_lock(&slot.cell);
                            let warnings = engine_take_state(&mut g, upd);
                            let state = engine_get_state(&g);
                            let snapshot = canonicalize_snapshot(features_snapshot(&state));
                            Ok(
                                TakeStateResult {
                                    warnings,
                                    error: None,
                                    feature_strategies_map: snapshot,
                                },
                            )
                        },
                    }
                },
            }
        };
        let bytes = encode_take_state_response(&outcome);
        proof {
            assert(spec_take_state_outcome(old(self).handles(), h, payload@, outcome));
        }
        let b = self.buffers.produce(bytes);
        proof {
            assert(final(self).handles() =~= old(self).handles());
        }
        b
    }

    /// Enablement check. Decodes the context, validates the toggle name and
    /// the handle — in that order, each failure earning its own error before
    /// any engine call — then asks the engine, asks for the impression
    /// setting, and records the outcome in the metrics counters.
    pub fn flat_check_enabled(&mut self, h: u64, message: &[u8]) -> (b: Buf)
        ensures
            final(self).handles() == old(self).handles(),
            exists|outcome: Result<ResponseMessage<bool>, FlatError>|
                #[trigger] spec_enabled_outcome(old(self).handles(), h, message@, outcome)
                    && spec_produced(
                    old(self).buffers_view(),
                    final(self).buffers_view(),
                    b,
                    se_response(spec_enabled_response(outcome)),
                ),
    {
        let outcome: Result<ResponseMessage<bool>, FlatError> = match decode_context(message) {
            Err(e) => Err(e),
            Ok(cm) => match context_from_message(cm) {
                Err(e) => Err(e),
                Ok(rc) => {
                    let rc = rc.resolve_maps();
                    if h == 0 {
                        Err(FlatError::NullError)
                    } else if h > self.engines.len() as u64 {
                        Err(FlatError::InvalidPointer)
                    } else {
                        let i = (h - 1) as usize;
                        match &self.engines[i] {
                            None => Err(FlatError::InvalidPointer),
                            Some(slot) => {
                                let g = recover_lock(&slot.cell);
                                let ec = to_engine_context(&rc);
                                let ext = match &rc.external_results {
                                    Some(v) => Some(external_results_map(v)),
                                    None => None,
                                };
                                let extr = match &ext {
                                    Some(m) => Some(m),
                                    None => None,
                                };
                                let hostname = match &rc.runtime_hostname {
                                    Some(s) => Some(s.as_str()),
                                    None => None,
                                };
                                let enabled = engine_check_enabled(
                                    &g,
                                    &ec,
                                    rc.toggle_name.as_str(),
                                    hostname,
                                    extr,
                                );
                                let impression = engine_should_emit(&g, rc.toggle_name.as_str());
                                engine_count_toggle(
                                    &g,
                                    rc.toggle_name.as_str(),
                                    match enabled {
                                        Some(e) => e,
                                        None => false,
                                    },
                                );
                                Ok(ResponseMessage { message: enabled, impression_data: impression })
                            },
                        }
                    }
                },
            },
        };
        let bytes = encode_enabled_response(&outcome);
        proof {
            assert(spec_enabled_outcome(old(self).handles(), h, message@, outcome));
        }
        let b = self.buffers.produce(bytes);
        proof {
            assert(final(self).handles() =~= old(self).handles());
        }
        b
    }

    /// Variant check. Decodes and validates like the enablement check, then
    /// asks the engine for the assigned variant and, independently, for the
    /// toggle's own enablement to fill the response's feature-enabled field;
    /// records the toggle outcome, and the variant selection when one was
    /// assigned, in the metrics counters.
    pub fn flat_check_variant(&mut self, h: u64, message: &[u8]) -> (b: Buf)
        ensures
            final(self).handles() == old(self).handles(),
            exists|outcome: Result<ResponseMessage<ExtendedVariant>, FlatError>|
                #[trigger] spec_variant_outcome(old(self).handles(), h, message@, outcome)
                    && spec_produced(
                    old(self).buffers_view(),
                    final(self).buffers_view(),
                    b,
                    se_variant_response(spec_variant_response(outcome)),
                ),
    {
        let outcome: Result<ResponseMessage<ExtendedVariant>, FlatError> = match decode_context(
            message,
        ) {
            Err(e) => Err(e),
            Ok(cm) => match context_from_message(cm) {
                Err(e) => Err(e),
                Ok(rc) => {
                    let rc = rc.resolve_maps();
                    if h == 0 {
                        Err(FlatError::NullError)
                    } else if h > self.engines.len() as u64 {
                        Err(FlatError::InvalidPointer)
                    } else {
                        let i = (h - 1) as usize;
                        match &self.engines[i] {
                            None => Err(FlatError::InvalidPointer),
                            Some(slot) => {
                                let g = recover_lock(&slot.cell);
                                let ec = to_engine_context(&rc);
                                let ext = match &rc.external_results {
                                    Some(v) => Some(external_results_map(v)),
                                    None => None,
                                };
                                let extr = match &ext {
                                    Some(m) => Some(m),
                                    None => None,
                                };
                                let hostname = match &rc.runtime_hostname {
                                    Some(s) => Some(s.as_str()),
                                    None => None,
                                };
                                let base_variant = engine_check_variant(
                                    &g,
                                    &ec,
                                    rc.toggle_name.as_str(),
                                    hostname,
                                    extr,
                                );
                                let toggle_enabled = match engine_check_enabled(
                                    &g,
                                    &ec,
                                    rc.toggle_name.as_str(),
                                    hostname,
                                    extr,
                                ) {
                                    Some(e) => e,
                                    None => false,
                                };
                                let impression = engine_should_emit(&g, rc.toggle_name.as_str());
                                engine_count_toggle(&g, rc.toggle_name.as_str(), toggle_enabled);
                                let message_out = match base_variant {
                                    Some(v) => {
                                        engine_count_variant(
                                            &g,
                                            rc.toggle_name.as_str(),
                                            v.name.as_str(),
                                        );
                                        Some(v.to_enriched_response(toggle_enabled))
                                    },
                                    None => None,
                                };
                                Ok(
                                    ResponseMessage {
                                        message: message_out,
                                        impression_data: impression,
                                    },
                                )
                            },
                        }
                    }
                },
            },
        };
        let bytes = encode_variant_response(&outcome);
        proof {
            assert(spec_variant_outcome(old(self).handles(), h, message@, outcome));
        }
        let b = self.buffers.produce(bytes);
        proof {
            assert(final(self).handles() =~= old(self).handles());
        }
        b
    }

    /// Lists every toggle the engine currently knows.
    pub fn flat_list_known_toggles(&mut self, h: u64) -> (b: Buf)
        ensures
            final(self).handles() == old(self).handles(),
            exists|outcome: Result<Vec<ToggleDefinition>, FlatError>|
                #[trigger] spec_handle_outcome(old(self).handles(), h, outcome) && spec_produced(
                    old(self).buffers_view(),
                    final(self).buffers_view(),
                    b,
                    se_feature_defs_response(spec_feature_defs_response(outcome)),
                ),
    {
        let outcome: Result<Vec<ToggleDefinition>, FlatError> = if h == 0 {
            Err(FlatError::NullError)
        } else if h > self.engines.len() as u64 {
            Err(FlatError::InvalidPointer)
        } else {
            let i = (h - 1) as usize;
            match &self.engines[i] {
                None => Err(FlatError::InvalidPointer),
                Some(slot) => {
                    let g = recover_lock(&slot.cell);
                    Ok(engine_list_known_toggles(&g))
                },
            }
        };
        let bytes = encode_feature_defs_response(&outcome);
        proof {
            assert(spec_handle_outcome(old(self).handles(), h, outcome));
        }
        let b = self.buffers.produce(bytes);
        proof {
            assert(final(self).handles() =~= old(self).handles());
        }
        b
    }

    /// Lists the built-in strategy names: a fixed, fully specified response.
    pub fn flat_built_in_strategies(&mut self) -> (b: Buf)
        ensures
            final(self).handles() == old(self).handles(),
            spec_produced(
                old(self).buffers_view(),
                final(self).buffers_view(),
                b,
                se_built_in_strategies(
                    seq![
                        "default"@,
                        "userWithId"@,
                        "gradualRolloutUserId"@,
                        "gradualRolloutRandom"@,
                        "applicationHostname"@,
                        "gradualRolloutSessionId"@,
                        "remoteAddress"@,
                        "flexibleRollout"@,
                    ],
                ),
            ),
    {
        let names = built_in_strategies();
        let bytes = encode_built_in_strategies(&names);
        proof {
            assert(names.deep_view() =~= seq![
                "default"@,
                "userWithId"@,
                "gradualRolloutUserId"@,
                "gradualRolloutRandom"@,
                "applicationHostname"@,
                "gradualRolloutSessionId"@,
                "remoteAddress"@,
                "flexibleRollout"@,
            ]);
        }
        let b = self.buffers.produce(bytes);
        proof {
            assert(final(self).handles() =~= old(self).handles());
        }
        b
    }

    /// Closes the current metrics window and reports its counters.
    pub fn flat_get_metrics(&mut self, h: u64) -> (b: Buf)
        ensures
            final(self).handles() == old(self).handles(),
            exists|outcome: Result<Option<MetricsData>, FlatError>|
                #[trigger] spec_handle_outcome(old(self).handles(), h, outcome) && spec_produced(
                    old(self).buffers_view(),
                    final(self).buffers_view(),
                    b,
                    se_metrics_response(spec_metrics_response(outcome)),
                ),
    {
        let outcome: Result<Option<MetricsData>, FlatError> = if h == 0 {
            Err(FlatError::NullError)
        } else if h > self.engines.len() as u64 {
            Err(FlatError::InvalidPointer)
        } else {
            let i = (h - 1) as usize;
            match &self.engines[i] {
                None => Err(FlatError::InvalidPointer),
                Some(slot) => {
                    let mut g = recover_lock(&slot.cell);
                    Ok(engine_get_metrics(&mut g))
                },
            }
        };
        let bytes = encode_metrics_response(&outcome);
        proof {
            assert(spec_handle_outcome(old(self).handles(), h, outcome));
        }
        let b = self.buffers.produce(bytes);
        proof {
            assert(final(self).handles() =~= old(self).handles());
        }
        b
    }

    /// Reports the engine's version string, "0.21.5" in this build.
    pub fn flat_get_core_version(&mut self) -> (b: Buf)
        ensures
            final(self).handles() == old(self).handles(),
            spec_produced(
                old(self).buffers_view(),
                final(self).buffers_view(),
                b,
                se_core_version("0.21.5"@),
            ),
    {
        let v = core_version();
        let bytes = encode_core_version(v.as_str());
        let b = self.buffers.produce(bytes);
        proof {
            assert(final(self).handles() =~= old(self).handles());
        }
        b
    }

    /// A textual snapshot of the engine's loaded state, for observability;
    /// nothing for a null or stale handle. The bridge itself is unchanged, so
    /// two snapshots around a failed ingestion can be compared byte for byte.
    pub fn flat_get_state(&mut self, h: u64) -> (r: Option<String>)
        ensures
            final(self).handles() == old(self).handles(),
            final(self).buffers_view() == old(self).buffers_view(),
            r is Some <==> spec_valid_handle(old(self).handles(), h),
    {
        if h >= 1 && h <= self.engines.len() as u64 {
            let i = (h - 1) as usize;
            match &self.engines[i] {
                None => None,
                Some(slot) => {
                    let g = recover_lock(&slot.cell);
                    let state = engine_get_state(&g);
                    Some(state_json(&state))
                },
            }
        } else {
            None
        }
    }
}

} // verus!
