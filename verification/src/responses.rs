//! The response side of the message schema: enablement and variant answers.
//!
//! Every response carries an optional error string; its presence alone
//! signals failure, and the payload fields of a failed response stay in their
//! "not present" state, so a caller can never mistake an error for a
//! legitimate negative result.

use vstd::prelude::*;

use crate::errors::{spec_error_message, FlatError};
use crate::wire::{
    lemma_sd_se_bool, lemma_sd_se_opt_str, lemma_sd_se_opt_str_pair, lemma_sd_se_str,
    lemma_split_at, rd_bool, rd_opt_str, rd_opt_str_pair, rd_str, sd_bool, sd_opt_str,
    sd_opt_str_pair, sd_str, se_bool, se_opt_str, se_opt_str_pair, se_str, wf_opt_str_pair,
    wf_str, wr_bool, wr_opt_str, wr_opt_str_pair, wr_str,
};

verus! {

/// The outcome of one engine question, ready to be encoded: the answer, if
/// the toggle was known, and whether an impression event should be emitted.
pub struct ResponseMessage<T> {
    pub message: Option<T>,
    pub impression_data: bool,
}

// ---------------------------------------------------------------------------
// Enablement responses
// ---------------------------------------------------------------------------
/// A decoded enablement response. `has_enabled` distinguishes a real answer
/// from "toggle not present"; `enabled` is meaningful only when it is set.
pub struct Response {
    pub has_enabled: bool,
    pub enabled: bool,
    pub impression_data: bool,
    pub error: Option<String>,
}

/// The mathematical shape of an enablement response.
pub struct ResponseV {
    pub has_enabled: bool,
    pub enabled: bool,
    pub impression_data: bool,
    pub error: Option<Seq<char>>,
}

impl View for Response {
    type V = ResponseV;

    open spec fn view(&self) -> ResponseV {
        ResponseV {
            has_enabled: self.has_enabled,
            enabled: self.enabled,
            impression_data: self.impression_data,
            error: self.error.deep_view(),
        }
    }
}

/// The response an enablement outcome denotes: an answered call carries the
/// answer and no error; a missing toggle carries neither; a failure carries
/// only its error text.
pub open spec fn spec_enabled_response(r: Result<ResponseMessage<bool>, FlatError>) -> ResponseV {
    match r {
        Ok(m) => ResponseV {
            has_enabled: m.message is Some,
            enabled: m.message == Some(true),
            impression_data: m.impression_data,
            error: None,
        },
        Err(e) => ResponseV {
            has_enabled: false,
            enabled: false,
            impression_data: false,
            error: Some(spec_error_message(e)),
        },
    }
}

/// The wire bytes of an enablement response.
pub open spec fn se_response(v: ResponseV) -> Seq<u8> {
    se_bool(v.has_enabled) + se_bool(v.enabled) + se_bool(v.impression_data) + se_opt_str(v.error)
}

pub open spec fn wf_response(v: ResponseV) -> bool {
    v.error matches Some(m) ==> wf_str(m)
}

/// Decoding an enablement response at `i`.
pub open spec fn sd_response(b: Seq<u8>, i: int) -> Option<(ResponseV, int)> {
    match sd_bool(b, i) {
        Some((has_enabled, p1)) => match sd_bool(b, p1) {
            Some((enabled, p2)) => match sd_bool(b, p2) {
                Some((impression_data, p3)) => match sd_opt_str(b, p3) {
                    Some((error, p4)) => Some(
                        (ResponseV { has_enabled, enabled, impression_data, error }, p4),
                    ),
                    None => None,
                },
                None => None,
            },
            None => None,
        },
        None => None,
    }
}

/// Decoding an encoded enablement response yields the response back.
pub proof fn lemma_sd_se_response(b: Seq<u8>, i: int, v: ResponseV)
    requires
        0 <= i,
        wf_response(v),
        i + se_response(v).len() <= b.len(),
        b.subrange(i, i + se_response(v).len()) == se_response(v),
    ensures
        sd_response(b, i) == Some((v, i + se_response(v).len())),
{
    let e1 = se_bool(v.has_enabled);
    let e2 = se_bool(v.enabled);
    let e3 = se_bool(v.impression_data);
    let e4 = se_opt_str(v.error);
    let a1 = e1;
    let a2 = a1 + e2;
    let a3 = a2 + e3;
    lemma_split_at(b, i, a3, e4);
    lemma_split_at(b, i, a2, e3);
    lemma_split_at(b, i, a1, e2);
    lemma_sd_se_bool(b, i, v.has_enabled);
    lemma_sd_se_bool(b, i + a1.len(), v.enabled);
    lemma_sd_se_bool(b, i + a2.len(), v.impression_data);
    lemma_sd_se_opt_str(b, i + a3.len(), v.error);
}

/// Encodes an enablement outcome, exactly as `spec_enabled_response` and
/// `se_response` describe.
pub fn encode_enabled_response(r: &Result<ResponseMessage<bool>, FlatError>) -> (out: Vec<u8>)
    ensures
        out@ == se_response(spec_enabled_response(*r)),
{
    let mut out: Vec<u8> = Vec::new();
    match r {
        Ok(m) => {
            wr_bool(&mut out, m.message.is_some());
            wr_bool(
                &mut out,
                match m.message {
                    Some(f) => f,
                    None => false,
                },
            );
            wr_bool(&mut out, m.impression_data);
            wr_opt_str(&mut out, &None);
        },
        Err(e) => {
            wr_bool(&mut out, false);
            wr_bool(&mut out, false);
            wr_bool(&mut out, false);
            let msg = e.message();
            wr_opt_str(&mut out, &Some(msg));
        },
    }
    proof {
        assert(out@ =~= se_response(spec_enabled_response(*r)));
    }
    out
}

/// Decodes an enablement response. The whole input must be consumed.
pub fn decode_response(b: &[u8]) -> (r: Option<Response>)
    ensures
        match r {
            Some(v) => sd_response(b@, 0) == Some((v@, b@.len() as int)),
            None => match sd_response(b@, 0) {
                Some((_v, p)) => p != b@.len(),
                None => true,
            },
        },
{
    let (has_enabled, p1) = match rd_bool(b, 0) {
        Some(x) => x,
        None => { return None },
    };
    let (enabled, p2) = match rd_bool(b, p1) {
        Some(x) => x,
        None => { return None },
    };
    let (impression_data, p3) = match rd_bool(b, p2) {
        Some(x) => x,
        None => { return None },
    };
    let (error, p4) = match rd_opt_str(b, p3) {
        Some(x) => x,
        None => { return None },
    };
    if p4 != b.len() {
        return None;
    }
    Some(Response { has_enabled, enabled, impression_data, error })
}

// ---------------------------------------------------------------------------
// Variant responses
// ---------------------------------------------------------------------------
/// A variant the engine selected, enriched with the toggle's own enablement.
pub struct ExtendedVariant {
    pub name: String,
    pub payload: Option<(String, String)>,
    pub enabled: bool,
    pub feature_enabled: bool,
}

/// A decoded variant response. `name` is present exactly when the engine
/// assigned a variant; the payload is a (type, value) pair.
pub struct VariantResponse {
    pub name: Option<String>,
    pub enabled: bool,
    pub feature_enabled: bool,
    pub payload: Option<(String, String)>,
    pub impression_data: bool,
    pub error: Option<String>,
}

/// The mathematical shape of a variant response.
pub struct VariantResponseV {
    pub name: Option<Seq<char>>,
    pub enabled: bool,
    pub feature_enabled: bool,
    pub payload: Option<(Seq<char>, Seq<char>)>,
    pub impression_data: bool,
    pub error: Option<Seq<char>>,
}

impl View for VariantResponse {
    type V = VariantResponseV;

    open spec fn view(&self) -> VariantResponseV {
        VariantResponseV {
            name: self.name.deep_view(),
            enabled: self.enabled,
            feature_enabled: self.feature_enabled,
            payload: self.payload.deep_view(),
            impression_data: self.impression_data,
            error: self.error.deep_view(),
        }
    }
}

/// The response a variant outcome denotes.
pub open spec fn spec_variant_response(r: Result<ResponseMessage<ExtendedVariant>, FlatError>) -> VariantResponseV {
    match r {
        Ok(m) => match m.message {
            Some(v) => VariantResponseV {
                name: Some(v.name@),
                enabled: v.enabled,
                feature_enabled: v.feature_enabled,
                payload: v.payload.deep_view(),
                impression_data: m.impression_data,
                error: None,
            },
            None => VariantResponseV {
                name: None,
                enabled: false,
                feature_enabled: false,
                payload: None,
                impression_data: m.impression_data,
                error: None,
            },
        },
        Err(e) => VariantResponseV {
            name: None,
            enabled: false,
            feature_enabled: false,
            payload: None,
            impression_data: false,
            error: Some(spec_error_message(e)),
        },
    }
}

/// The wire bytes of a variant response: a presence tag, the variant fields
/// when one was assigned, then the impression flag and the error field.
pub open spec fn se_variant_response(v: VariantResponseV) -> Seq<u8> {
    match v.name {
        Some(name) => se_bool(true) + se_str(name) + se_bool(v.enabled) + se_bool(
            v.feature_enabled,
        ) + se_opt_str_pair(v.payload) + se_bool(v.impression_data) + se_opt_str(v.error),
        None => se_bool(false) + se_bool(v.impression_data) + se_opt_str(v.error),
    }
}

pub open spec fn wf_variant_response(v: VariantResponseV) -> bool {
    &&& v.name matches Some(n) ==> wf_str(n)
    &&& wf_opt_str_pair(v.payload)
    &&& v.error matches Some(m) ==> wf_str(m)
    &&& v.name is None ==> v.payload is None && !v.enabled && !v.feature_enabled
}

/// Decoding a variant response at `i`.
pub open spec fn sd_variant_response(b: Seq<u8>, i: int) -> Option<(VariantResponseV, int)> {
    match sd_bool(b, i) {
        Some((has, p1)) => if has {
            match sd_str(b, p1) {
                Some((name, p2)) => match sd_bool(b, p2) {
                    Some((enabled, p3)) => match sd_bool(b, p3) {
                        Some((feature_enabled, p4)) => match sd_opt_str_pair(b, p4) {
                            Some((payload, p5)) => match sd_bool(b, p5) {
                                Some((impression_data, p6)) => match sd_opt_str(b, p6) {
                                    Some((error, p7)) => Some(
                                        (
                                            VariantResponseV {
                                                name: Some(name),
                                                enabled,
                                                feature_enabled,
                                                payload,
                                                impression_data,
                                                error,
                                            },
                                            p7,
                                        ),
                                    ),
                                    None => None,
                                },
                                None => None,
                            },
                            None => None,
                        },
                        None => None,
                    },
                    None => None,
                },
                None => None,
            }
        } else {
            match sd_bool(b, p1) {
                Some((impression_data, p2)) => match sd_opt_str(b, p2) {
                    Some((error, p3)) => Some(
                        (
                            VariantResponseV {
                                name: None,
                                enabled: false,
                                feature_enabled: false,
                                payload: None,
                                impression_data,
                                error,
                            },
                            p3,
                        ),
                    ),
                    None => None,
                },
                None => None,
            }
        },
        None => None,
    }
}

/// Decoding an encoded variant response yields the response back.
pub proof fn lemma_sd_se_variant_response(b: Seq<u8>, i: int, v: VariantResponseV)
    requires
        0 <= i,
        wf_variant_response(v),
        i + se_variant_response(v).len() <= b.len(),
        b.subrange(i, i + se_variant_response(v).len()) == se_variant_response(v),
    ensures
        sd_variant_response(b, i) == Some((v, i + se_variant_response(v).len())),
{
    match v.name {
        Some(name) => {
            let e1 = se_bool(true);
            let e2 = se_str(name);
            let e3 = se_bool(v.enabled);
            let e4 = se_bool(v.feature_enabled);
            let e5 = se_opt_str_pair(v.payload);
            let e6 = se_bool(v.impression_data);
            let e7 = se_opt_str(v.error);
            let a1 = e1;
            let a2 = a1 + e2;
            let a3 = a2 + e3;
            let a4 = a3 + e4;
            let a5 = a4 + e5;
            let a6 = a5 + e6;
            lemma_split_at(b, i, a6, e7);
            lemma_split_at(b, i, a5, e6);
            lemma_split_at(b, i, a4, e5);
            lemma_split_at(b, i, a3, e4);
            lemma_split_at(b, i, a2, e3);
            lemma_split_at(b, i, a1, e2);
            lemma_sd_se_bool(b, i, true);
            lemma_sd_se_str(b, i + a1.len(), name);
            lemma_sd_se_bool(b, i + a2.len(), v.enabled);
            lemma_sd_se_bool(b, i + a3.len(), v.feature_enabled);
            lemma_sd_se_opt_str_pair(b, i + a4.len(), v.payload);
            lemma_sd_se_bool(b, i + a5.len(), v.impression_data);
            lemma_sd_se_opt_str(b, i + a6.len(), v.error);
        },
        None => {
            let e1 = se_bool(false);
            let e2 = se_bool(v.impression_data);
            let e3 = se_opt_str(v.error);
            let a1 = e1;
            let a2 = a1 + e2;
            lemma_split_at(b, i, a2, e3);
            lemma_split_at(b, i, a1, e2);
            lemma_sd_se_bool(b, i, false);
            lemma_sd_se_bool(b, i + a1.len(), v.impression_data);
            lemma_sd_se_opt_str(b, i + a2.len(), v.error);
        },
    }
}

/// Encodes a variant outcome, exactly as `spec_variant_response` and
/// `se_variant_response` describe.
pub fn encode_variant_response(r: &Result<ResponseMessage<ExtendedVariant>, FlatError>) -> (out:
    Vec<u8>)
    ensures
        out@ == se_variant_response(spec_variant_response(*r)),
{
    let mut out: Vec<u8> = Vec::new();
    match r {
        Ok(m) => match &m.message {
            Some(v) => {
                wr_bool(&mut out, true);
                wr_str(&mut out, v.name.as_str());
                wr_bool(&mut out, v.enabled);
                wr_bool(&mut out, v.feature_enabled);
                wr_opt_str_pair(&mut out, &v.payload);
                wr_bool(&mut out, m.impression_data);
                wr_opt_str(&mut out, &None);
            },
            None => {
                wr_bool(&mut out, false);
                wr_bool(&mut out, m.impression_data);
                wr_opt_str(&mut out, &None);
            },
        },
        Err(e) => {
            wr_bool(&mut out, false);
            wr_bool(&mut out, false);
            let msg = e.message();
            wr_opt_str(&mut out, &Some(msg));
        },
    }
    proof {
        assert(out@ =~= se_variant_response(spec_variant_response(*r)));
    }
    out
}

/// Decodes a variant response. The whole input must be consumed.
pub fn decode_variant_response(b: &[u8]) -> (r: Option<VariantResponse>)
    ensures
        match r {
            Some(v) => sd_variant_response(b@, 0) == Some((v@, b@.len() as int)),
            None => match sd_variant_response(b@, 0) {
                Some((_v, p)) => p != b@.len(),
                None => true,
            },
        },
{
    let (has, p1) = match rd_bool(b, 0) {
        Some(x) => x,
        None => { return None },
    };
    if has {
        let (name, p2) = match rd_str(b, p1) {
            Some(x) => x,
            None => { return None },
        };
        let (enabled, p3) = match rd_bool(b, p2) {
            Some(x) => x,
            None => { return None },
        };
        let (feature_enabled, p4) = match rd_bool(b, p3) {
            Some(x) => x,
            None => { return None },
        };
        let (payload, p5) = match rd_opt_str_pair(b, p4) {
            Some(x) => x,
            None => { return None },
        };
        let (impression_data, p6) = match rd_bool(b, p5) {
            Some(x) => x,
            None => { return None },
        };
        let (error, p7) = match rd_opt_str(b, p6) {
            Some(x) => x,
            None => { return None },
        };
        if p7 != b.len() {
            return None;
        }
        Some(
            VariantResponse {
                name: Some(name),
                enabled,
                feature_enabled,
                payload,
                impression_data,
                error,
            },
        )
    } else {
        let (impression_data, p2) = match rd_bool(b, p1) {
            Some(x) => x,
            None => { return None },
        };
        let (error, p3) = match rd_opt_str(b, p2) {
            Some(x) => x,
            None => { return None },
        };
        if p3 != b.len() {
            return None;
        }
        Some(
            VariantResponse {
                name: None,
                enabled: false,
                feature_enabled: false,
                payload: None,
                impression_data,
                error,
            },
        )
    }
}

} // verus!

verus! {

/// Law: an answered call whose toggle was not present reports "not present"
/// — the enabled field absent rather than false — and carries no error, so a
/// missing toggle can never look like a failure or a legitimate negative.
pub proof fn lemma_absent_toggle_is_not_an_error(imp: bool)
    ensures
        ({
            let v = spec_enabled_response(Ok(ResponseMessage { message: None, impression_data: imp }));
            &&& !v.has_enabled
            &&& !v.enabled
            &&& v.error is None
        }),
{
}

/// Law: a failed call reports an error and leaves the answer fields in their
/// "not present" state, so a failure can never look like a legitimate
/// negative result.
pub proof fn lemma_error_response_has_no_answer(e: FlatError)
    ensures
        ({
            let v = spec_enabled_response(Err(e));
            &&& !v.has_enabled
            &&& !v.enabled
            &&& v.error == Some(spec_error_message(e))
        }),
{
}

} // verus!
