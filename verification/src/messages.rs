//! The request side of the message schema.
//!
//! A `ContextMessage` is the schema-encoded record a caller stages before an
//! evaluation call: the toggle name and the optional enrichment fields, with
//! the two maps travelling as vectors of key/value entries. Decoding validates
//! the schema strictly; a message that does not parse, or leaves trailing
//! bytes, is rejected as `InvalidContext`, and a parsed context without the
//! required toggle name is rejected as `MissingFlagName`.

use vstd::prelude::*;

use crate::errors::FlatError;
use crate::wire::{
    rd_opt_bool_pairs, rd_opt_str, rd_opt_str_pairs, sd_opt_bool_pairs, sd_opt_str,
    sd_opt_str_pairs, se_opt_bool_pairs, se_opt_str, se_opt_str_pairs, lemma_sd_se_opt_bool_pairs,
    lemma_sd_se_opt_str, lemma_sd_se_opt_str_pairs, lemma_split_at, wf_opt_bool_pairs, wf_opt_str,
    wf_opt_str_pairs, wr_opt_bool_pairs, wr_opt_str, wr_opt_str_pairs,
};

verus! {

/// The schema-encoded request record, as staged by a caller. Every field is
/// optional on the wire; the toggle name is checked later, when the context
/// is turned into a `RequestContext`.
pub struct ContextMessage {
    pub toggle_name: Option<String>,
    pub user_id: Option<String>,
    pub session_id: Option<String>,
    pub environment: Option<String>,
    pub app_name: Option<String>,
    pub current_time: Option<String>,
    pub remote_address: Option<String>,
    pub runtime_hostname: Option<String>,
    pub properties: Option<Vec<(String, String)>>,
    pub custom_strategies_results: Option<Vec<(String, bool)>>,
}

/// The mathematical shape of a context message.
pub struct ContextMessageV {
    pub toggle_name: Option<Seq<char>>,
    pub user_id: Option<Seq<char>>,
    pub session_id: Option<Seq<char>>,
    pub environment: Option<Seq<char>>,
    pub app_name: Option<Seq<char>>,
    pub current_time: Option<Seq<char>>,
    pub remote_address: Option<Seq<char>>,
    pub runtime_hostname: Option<Seq<char>>,
    pub properties: Option<Seq<(Seq<char>, Seq<char>)>>,
    pub custom_strategies_results: Option<Seq<(Seq<char>, bool)>>,
}

impl View for ContextMessage {
    type V = ContextMessageV;

    open spec fn view(&self) -> ContextMessageV {
        ContextMessageV {
            toggle_name: self.toggle_name.deep_view(),
            user_id: self.user_id.deep_view(),
            session_id: self.session_id.deep_view(),
            environment: self.environment.deep_view(),
            app_name: self.app_name.deep_view(),
            current_time: self.current_time.deep_view(),
            remote_address: self.remote_address.deep_view(),
            runtime_hostname: self.runtime_hostname.deep_view(),
            properties: self.properties.deep_view(),
            custom_strategies_results: self.custom_strategies_results.deep_view(),
        }
    }
}

/// A context fits the schema when each of its fields does.
pub open spec fn wf_context(c: ContextMessageV) -> bool {
    &&& wf_opt_str(c.toggle_name)
    &&& wf_opt_str(c.user_id)
    &&& wf_opt_str(c.session_id)
    &&& wf_opt_str(c.environment)
    &&& wf_opt_str(c.app_name)
    &&& wf_opt_str(c.current_time)
    &&& wf_opt_str(c.remote_address)
    &&& wf_opt_str(c.runtime_hostname)
    &&& wf_opt_str_pairs(c.properties)
    &&& wf_opt_bool_pairs(c.custom_strategies_results)
}

/// The wire bytes of a context message: its ten fields back to back.
pub open spec fn se_context(c: ContextMessageV) -> Seq<u8> {
    se_opt_str(c.toggle_name) + se_opt_str(c.user_id) + se_opt_str(c.session_id) + se_opt_str(
        c.environment,
    ) + se_opt_str(c.app_name) + se_opt_str(c.current_time) + se_opt_str(c.remote_address)
        + se_opt_str(c.runtime_hostname) + se_opt_str_pairs(c.properties) + se_opt_bool_pairs(
        c.custom_strategies_results,
    )
}

/// Decoding a context message at `i`.
pub open spec fn sd_context(b: Seq<u8>, i: int) -> Option<(ContextMessageV, int)> {
    match sd_opt_str(b, i) {
        Some((toggle_name, p1)) => match sd_opt_str(b, p1) {
            Some((user_id, p2)) => match sd_opt_str(b, p2) {
                Some((session_id, p3)) => match sd_opt_str(b, p3) {
                    Some((environment, p4)) => match sd_opt_str(b, p4) {
                        Some((app_name, p5)) => match sd_opt_str(b, p5) {
                            Some((current_time, p6)) => match sd_opt_str(b, p6) {
                                Some((remote_address, p7)) => match sd_opt_str(b, p7) {
                                    Some((runtime_hostname, p8)) => match sd_opt_str_pairs(b, p8) {
                                        Some((properties, p9)) => match sd_opt_bool_pairs(b, p9) {
                                            Some((custom_strategies_results, p10)) => Some(
                                                (
                                                    ContextMessageV {
                                                        toggle_name,
                                                        user_id,
                                                        session_id,
                                                        environment,
                                                        app_name,
                                                        current_time,
                                                        remote_address,
                                                        runtime_hostname,
                                                        properties,
                                                        custom_strategies_results,
                                                    },
                                                    p10,
                                                ),
                                            ),
                                            None => None,
                                        },
                                        None => None,
                                    },
                                    None => None,
                                },
                                None => None,
                            },
                            None => None,
                        },
                        None => None,
                    },
                    None => None,
                },
                None => None,
            },
            None => None,
        },
        None => None,
    }
}

/// Decoding an encoded context yields the context back.
pub proof fn lemma_sd_se_context(b: Seq<u8>, i: int, c: ContextMessageV)
    requires
        0 <= i,
        wf_context(c),
        i + se_context(c).len() <= b.len(),
        b.subrange(i, i + se_context(c).len()) == se_context(c),
    ensures
        sd_context(b, i) == Some((c, i + se_context(c).len())),
{
    let e1 = se_opt_str(c.toggle_name);
    let e2 = se_opt_str(c.user_id);
    let e3 = se_opt_str(c.session_id);
    let e4 = se_opt_str(c.environment);
    let e5 = se_opt_str(c.app_name);
    let e6 = se_opt_str(c.current_time);
    let e7 = se_opt_str(c.remote_address);
    let e8 = se_opt_str(c.runtime_hostname);
    let e9 = se_opt_str_pairs(c.properties);
    let e10 = se_opt_bool_pairs(c.custom_strategies_results);
    let a1 = e1;
    let a2 = a1 + e2;
    let a3 = a2 + e3;
    let a4 = a3 + e4;
    let a5 = a4 + e5;
    let a6 = a5 + e6;
    let a7 = a6 + e7;
    let a8 = a7 + e8;
    let a9 = a8 + e9;
    lemma_split_at(b, i, a9, e10);
    lemma_split_at(b, i, a8, e9);
    lemma_split_at(b, i, a7, e8);
    lemma_split_at(b, i, a6, e7);
    lemma_split_at(b, i, a5, e6);
    lemma_split_at(b, i, a4, e5);
    lemma_split_at(b, i, a3, e4);
    lemma_split_at(b, i, a2, e3);
    lemma_split_at(b, i, a1, e2);
    lemma_sd_se_opt_str(b, i, c.toggle_name);
    lemma_sd_se_opt_str(b, i + a1.len(), c.user_id);
    lemma_sd_se_opt_str(b, i + a2.len(), c.session_id);
    lemma_sd_se_opt_str(b, i + a3.len(), c.environment);
    lemma_sd_se_opt_str(b, i + a4.len(), c.app_name);
    lemma_sd_se_opt_str(b, i + a5.len(), c.current_time);
    lemma_sd_se_opt_str(b, i + a6.len(), c.remote_address);
    lemma_sd_se_opt_str(b, i + a7.len(), c.runtime_hostname);
    lemma_sd_se_opt_str_pairs(b, i + a8.len(), c.properties);
    lemma_sd_se_opt_bool_pairs(b, i + a9.len(), c.custom_strategies_results);
}

/// Encodes a context message into its wire bytes, exactly as `se_context`
/// describes.
pub fn encode_context(c: &ContextMessage) -> (out: Vec<u8>)
    ensures
        out@ == se_context(c@),
{
    let mut out: Vec<u8> = Vec::new();
    wr_opt_str(&mut out, &c.toggle_name);
    wr_opt_str(&mut out, &c.user_id);
    wr_opt_str(&mut out, &c.session_id);
    wr_opt_str(&mut out, &c.environment);
    wr_opt_str(&mut out, &c.app_name);
    wr_opt_str(&mut out, &c.current_time);
    wr_opt_str(&mut out, &c.remote_address);
    wr_opt_str(&mut out, &c.runtime_hostname);
    wr_opt_str_pairs(&mut out, &c.properties);
    wr_opt_bool_pairs(&mut out, &c.custom_strategies_results);
    proof {
        assert(out@ =~= se_context(c@));
    }
    out
}

/// Decodes a context message. The whole input must be consumed; a message
/// that fails schema validation, or leaves trailing bytes, is rejected as
/// `InvalidContext`.
pub fn decode_context(b: &[u8]) -> (r: Result<ContextMessage, FlatError>)
    ensures
        match r {
            Ok(c) => sd_context(b@, 0) == Some((c@, b@.len() as int)),
            Err(e) => {
                &&& match sd_context(b@, 0) {
                    Some((_c, p)) => p != b@.len(),
                    None => true,
                }
                &&& e matches FlatError::InvalidContext(m) && m@ == "malformed context message"@
            },
        },
{
    let r = decode_context_fields(b);
    match r {
        Some((c, p)) => {
            if p == b.len() {
                Ok(c)
            } else {
                Err(FlatError::InvalidContext(String::from_str("malformed context message")))
            }
        },
        None => Err(FlatError::InvalidContext(String::from_str("malformed context message"))),
    }
}

/// Reads the ten fields of a context message, exactly as `sd_context`
/// describes.
fn decode_context_fields(b: &[u8]) -> (r: Option<(ContextMessage, usize)>)
    ensures
        match r {
            Some(vp) => sd_context(b@, 0) == Some((vp.0@, vp.1 as int)) && vp.1 <= b@.len(),
            None => sd_context(b@, 0) is None,
        },
{
    let (toggle_name, p1) = match rd_opt_str(b, 0) {
        Some(x) => x,
        None => { return None },
    };
    let (user_id, p2) = match rd_opt_str(b, p1) {
        Some(x) => x,
        None => { return None },
    };
    let (session_id, p3) = match rd_opt_str(b, p2) {
        Some(x) => x,
        None => { return None },
    };
    let (environment, p4) = match rd_opt_str(b, p3) {
        Some(x) => x,
        None => { return None },
    };
    let (app_name, p5) = match rd_opt_str(b, p4) {
        Some(x) => x,
        None => { return None },
    };
    let (current_time, p6) = match rd_opt_str(b, p5) {
        Some(x) => x,
        None => { return None },
    };
    let (remote_address, p7) = match rd_opt_str(b, p6) {
        Some(x) => x,
        None => { return None },
    };
    let (runtime_hostname, p8) = match rd_opt_str(b, p7) {
        Some(x) => x,
        None => { return None },
    };
    let (properties, p9) = match rd_opt_str_pairs(b, p8) {
        Some(x) => x,
        None => { return None },
    };
    let (custom_strategies_results, p10) = match rd_opt_bool_pairs(b, p9) {
        Some(x) => x,
        None => { return None },
    };
    let c = ContextMessage {
        toggle_name,
        user_id,
        session_id,
        environment,
        app_name,
        current_time,
        remote_address,
        runtime_hostname,
        properties,
        custom_strategies_results,
    };
    Some((c, p10))
}

/// The immutable input of one evaluation call: the toggle name, which is
/// required, and the optional enrichment fields a caller may supply.
pub struct RequestContext {
    pub toggle_name: String,
    pub user_id: Option<String>,
    pub session_id: Option<String>,
    pub environment: Option<String>,
    pub app_name: Option<String>,
    pub current_time: Option<String>,
    pub remote_address: Option<String>,
    pub runtime_hostname: Option<String>,
    pub properties: Option<Vec<(String, String)>>,
    pub external_results: Option<Vec<(String, bool)>>,
}

/// The mathematical shape of a request context.
pub struct RequestContextV {
    pub toggle_name: Seq<char>,
    pub user_id: Option<Seq<char>>,
    pub session_id: Option<Seq<char>>,
    pub environment: Option<Seq<char>>,
    pub app_name: Option<Seq<char>>,
    pub current_time: Option<Seq<char>>,
    pub remote_address: Option<Seq<char>>,
    pub runtime_hostname: Option<Seq<char>>,
    pub properties: Option<Seq<(Seq<char>, Seq<char>)>>,
    pub external_results: Option<Seq<(Seq<char>, bool)>>,
}

impl View for RequestContext {
    type V = RequestContextV;

    open spec fn view(&self) -> RequestContextV {
        RequestContextV {
            toggle_name: self.toggle_name@,
            user_id: self.user_id.deep_view(),
            session_id: self.session_id.deep_view(),
            environment: self.environment.deep_view(),
            app_name: self.app_name.deep_view(),
            current_time: self.current_time.deep_view(),
            remote_address: self.remote_address.deep_view(),
            runtime_hostname: self.runtime_hostname.deep_view(),
            properties: self.properties.deep_view(),
            external_results: self.external_results.deep_view(),
        }
    }
}

/// The request context a decoded message denotes: the same fields, with the
/// toggle name made mandatory.
pub open spec fn spec_request_of(c: ContextMessageV, toggle_name: Seq<char>) -> RequestContextV {
    RequestContextV {
        toggle_name,
        user_id: c.user_id,
        session_id: c.session_id,
        environment: c.environment,
        app_name: c.app_name,
        current_time: c.current_time,
        remote_address: c.remote_address,
        runtime_hostname: c.runtime_hostname,
        properties: c.properties,
        external_results: c.custom_strategies_results,
    }
}

/// Turns a decoded context message into a request context. A context without
/// the required toggle name is rejected as `MissingFlagName`, before any
/// engine call.
pub fn context_from_message(c: ContextMessage) -> (r: Result<RequestContext, FlatError>)
    ensures
        match r {
            Ok(rc) => c@.toggle_name matches Some(t) && rc@ == spec_request_of(c@, t),
            Err(e) => c@.toggle_name is None && e == FlatError::MissingFlagName,
        },
{
    match c.toggle_name {
        Some(toggle_name) => Ok(
            RequestContext {
                toggle_name,
                user_id: c.user_id,
                session_id: c.session_id,
                environment: c.environment,
                app_name: c.app_name,
                current_time: c.current_time,
                remote_address: c.remote_address,
                runtime_hostname: c.runtime_hostname,
                properties: c.properties,
                external_results: c.custom_strategies_results,
            },
        ),
        None => Err(FlatError::MissingFlagName),
    }
}

} // verus!

verus! {

// ---------------------------------------------------------------------------
// Last-write-wins resolution of key/value entry lists
// ---------------------------------------------------------------------------
/// Whether any entry of `s` carries the key `k`.
pub open spec fn spec_has_key<TV>(s: Seq<(Seq<char>, TV)>, k: Seq<char>) -> bool {
    exists|i: int| 0 <= i < s.len() && s[i].0 == k
}

/// The entries that survive last-write-wins resolution: exactly those whose
/// key does not occur again later in the list, in their original order. A
/// consumer building a standard map from the entries gets the same result.
pub open spec fn spec_last_wins<TV>(s: Seq<(Seq<char>, TV)>) -> Seq<(Seq<char>, TV)>
    decreases s.len(),
{
    if s.len() == 0 {
        Seq::empty()
    } else if spec_has_key(s.drop_first(), s[0].0) {
        spec_last_wins(s.drop_first())
    } else {
        seq![s[0]] + spec_last_wins(s.drop_first())
    }
}

/// Resolves duplicate keys in an entry list: for each key the last entry
/// wins, exactly as `spec_last_wins` describes.
pub fn dedup_last_wins<V: DeepView>(entries: Vec<(String, V)>) -> (r: Vec<(String, V)>)
    ensures
        r.deep_view() == spec_last_wins(entries.deep_view()),
{
    let ghost total = entries.deep_view();
    let mut rest = entries;
    let mut out: Vec<(String, V)> = Vec::new();
    while rest.len() > 0
        invariant
            spec_last_wins(total) == out.deep_view() + spec_last_wins(rest.deep_view()),
        decreases rest@.len(),
    {
        let ghost before = rest.deep_view();
        let e = rest.remove(0);
        proof {
            assert(rest.deep_view() =~= before.drop_first());
            assert(before[0] == (e.0@, e.1.deep_view()));
        }
        let mut found = false;
        let mut j: usize = 0;
        while j < rest.len()
            invariant
                0 <= j <= rest@.len(),
                rest.deep_view().len() == rest@.len(),
                found == spec_has_key(rest.deep_view().take(j as int), e.0@),
            decreases rest@.len() - j,
        {
            let ghost dv = rest.deep_view();
            let ghost k = e.0@;
            if rest[j].0 == e.0 {
                found = true;
                proof {
                    assert(dv.take(j + 1)[j as int] == dv[j as int]);
                    assert(spec_has_key(dv.take(j + 1), k));
                }
            } else {
                proof {
                    if spec_has_key(dv.take(j + 1), k) {
                        let i = choose|i: int|
                            0 <= i < dv.take(j + 1).len() && (#[trigger] dv.take(j + 1)[i]).0
                                == k;
                        assert(dv.take(j + 1)[i] == dv[i]);
                        assert(i != j);
                        assert(dv.take(j as int)[i] == dv[i]);
                        assert(spec_has_key(dv.take(j as int), k));
                    }
                    if spec_has_key(dv.take(j as int), k) {
                        let i = choose|i: int|
                            0 <= i < dv.take(j as int).len() && (#[trigger] dv.take(
                                j as int,
                            )[i]).0 == k;
                        assert(dv.take(j + 1)[i] == dv.take(j as int)[i]);
                        assert(spec_has_key(dv.take(j + 1), k));
                    }
                }
            }
            j = j + 1;
        }
        proof {
            assert(rest.deep_view().take(rest.deep_view().len() as int) =~= rest.deep_view());
            assert(found == spec_has_key(rest.deep_view(), e.0@));
        }
        if !found {
            let ghost out_before = out.deep_view();
            out.push(e);
            proof {
                assert(out.deep_view() =~= out_before + seq![before[0]]);
                assert((out_before + seq![before[0]]) + spec_last_wins(before.drop_first())
                    =~= out_before + (seq![before[0]] + spec_last_wins(before.drop_first())));
            }
        }
    }
    proof {
        assert(out.deep_view() + spec_last_wins(rest.deep_view()) =~= out.deep_view());
    }
    out
}

impl RequestContext {
    /// Resolves the caller-supplied maps before they reach the engine:
    /// duplicate keys in the property bag and in the external strategy
    /// results are resolved last-write-wins, mirroring standard map
    /// construction. Every other field is unchanged, and an absent map stays
    /// absent rather than becoming an empty one.
    pub fn resolve_maps(self) -> (r: RequestContext)
        ensures
            r@.toggle_name == self@.toggle_name,
            r@.user_id == self@.user_id,
            r@.session_id == self@.session_id,
            r@.environment == self@.environment,
            r@.app_name == self@.app_name,
            r@.current_time == self@.current_time,
            r@.remote_address == self@.remote_address,
            r@.runtime_hostname == self@.runtime_hostname,
            r@.properties == match self@.properties {
                Some(ps) => Some(spec_last_wins(ps)),
                None => None,
            },
            r@.external_results == match self@.external_results {
                Some(xs) => Some(spec_last_wins(xs)),
                None => None,
            },
    {
        let properties = match self.properties {
            Some(v) => Some(dedup_last_wins(v)),
            None => None,
        };
        let external_results = match self.external_results {
            Some(v) => Some(dedup_last_wins(v)),
            None => None,
        };
        RequestContext {
            toggle_name: self.toggle_name,
            user_id: self.user_id,
            session_id: self.session_id,
            environment: self.environment,
            app_name: self.app_name,
            current_time: self.current_time,
            remote_address: self.remote_address,
            runtime_hostname: self.runtime_hostname,
            properties,
            external_results,
        }
    }
}

} // verus!
