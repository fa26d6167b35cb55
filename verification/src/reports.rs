//! Observability responses: the metrics window, the known-toggle listing,
//! the built-in strategy names, and the bridge's version string.

use vstd::prelude::*;

use crate::errors::{spec_error_message, FlatError};
use crate::wire::{
    lemma_sd_se_bool, lemma_sd_se_i64, lemma_sd_se_opt_str, lemma_sd_se_str, lemma_sd_se_u32,
    lemma_sd_se_u32_pairs, lemma_sd_se_u64, lemma_split_at, rd_bool, rd_i64, rd_opt_str, rd_str,
    rd_u32, rd_u32_pairs, rd_u64, sd_bool, sd_i64, sd_opt_str, sd_str, sd_u32, sd_u32_pairs,
    sd_u64, se_bool, se_i64, se_opt_str, se_str, se_u32, se_u32_pairs, se_u64, wf_opt_str, wf_str,
    wf_u32_pairs, wr_bool, wr_i64, wr_opt_str, wr_str, wr_u32, wr_u32_pairs, wr_u64,
};

verus! {

// ---------------------------------------------------------------------------
// Metrics
// ---------------------------------------------------------------------------
/// The counters of one toggle inside a metrics window.
pub struct ToggleStats {
    pub name: String,
    pub yes: u32,
    pub no: u32,
    pub variants: Vec<(String, u32)>,
}

/// The mathematical shape of one toggle's counters.
pub struct ToggleStatsV {
    pub name: Seq<char>,
    pub yes: u32,
    pub no: u32,
    pub variants: Seq<(Seq<char>, u32)>,
}

impl View for ToggleStats {
    type V = ToggleStatsV;

    open spec fn view(&self) -> ToggleStatsV {
        ToggleStatsV {
            name: self.name@,
            yes: self.yes,
            no: self.no,
            variants: self.variants.deep_view(),
        }
    }
}

impl DeepView for ToggleStats {
    type V = ToggleStatsV;

    open spec fn deep_view(&self) -> ToggleStatsV {
        self.view()
    }
}

/// One closed metrics window: its time span and the per-toggle counters.
pub struct MetricsData {
    pub start: i64,
    pub stop: i64,
    pub toggles: Vec<ToggleStats>,
}

pub open spec fn se_toggle_stat(v: ToggleStatsV) -> Seq<u8> {
    se_str(v.name) + se_u32(v.yes) + se_u32(v.no) + se_u32_pairs(v.variants)
}

pub open spec fn wf_toggle_stat(v: ToggleStatsV) -> bool {
    wf_str(v.name) && wf_u32_pairs(v.variants)
}

pub open spec fn sd_toggle_stat(b: Seq<u8>, i: int) -> Option<(ToggleStatsV, int)> {
    match sd_str(b, i) {
        Some((name, p1)) => match sd_u32(b, p1) {
            Some((yes, p2)) => match sd_u32(b, p2) {
                Some((no, p3)) => match sd_u32_pairs(b, p3) {
                    Some((variants, p4)) => Some((ToggleStatsV { name, yes, no, variants }, p4)),
                    None => None,
                },
                None => None,
            },
            None => None,
        },
        None => None,
    }
}

pub proof fn lemma_sd_se_toggle_stat(b: Seq<u8>, i: int, v: ToggleStatsV)
    requires
        0 <= i,
        wf_toggle_stat(v),
        i + se_toggle_stat(v).len() <= b.len(),
        b.subrange(i, i + se_toggle_stat(v).len()) == se_toggle_stat(v),
    ensures
        sd_toggle_stat(b, i) == Some((v, i + se_toggle_stat(v).len())),
{
    let e1 = se_str(v.name);
    let e2 = se_u32(v.yes);
    let e3 = se_u32(v.no);
    let e4 = se_u32_pairs(v.variants);
    let a1 = e1;
    let a2 = a1 + e2;
    let a3 = a2 + e3;
    lemma_split_at(b, i, a3, e4);
    lemma_split_at(b, i, a2, e3);
    lemma_split_at(b, i, a1, e2);
    lemma_sd_se_str(b, i, v.name);
    lemma_sd_se_u32(b, i + a1.len(), v.yes);
    lemma_sd_se_u32(b, i + a2.len(), v.no);
    lemma_sd_se_u32_pairs(b, i + a3.len(), v.variants);
}

pub open spec fn se_toggle_stats_items(vs: Seq<ToggleStatsV>) -> Seq<u8>
    decreases vs.len(),
{
    if vs.len() == 0 {
        Seq::empty()
    } else {
        se_toggle_stat(vs[0]) + se_toggle_stats_items(vs.drop_first())
    }
}

pub open spec fn se_toggle_stats(vs: Seq<ToggleStatsV>) -> Seq<u8> {
    se_u64(vs.len() as u64) + se_toggle_stats_items(vs)
}

pub open spec fn wf_toggle_stats(vs: Seq<ToggleStatsV>) -> bool {
    vs.len() <= u64::MAX && forall|k: int| 0 <= k < vs.len() ==> wf_toggle_stat(#[trigger] vs[k])
}

pub open spec fn sd_toggle_stats_items(b: Seq<u8>, i: int, n: nat) -> Option<(Seq<ToggleStatsV>, int)>
    decreases n,
{
    if n == 0 {
        Some((Seq::empty(), i))
    } else {
        match sd_toggle_stat(b, i) {
            Some((e, p)) => match sd_toggle_stats_items(b, p, (n - 1) as nat) {
                Some((vs, q)) => Some((seq![e] + vs, q)),
                None => None,
            },
            None => None,
        }
    }
}

pub open spec fn sd_toggle_stats(b: Seq<u8>, i: int) -> Option<(Seq<ToggleStatsV>, int)> {
    match sd_u64(b, i) {
        Some((n, p)) => sd_toggle_stats_items(b, p, n as nat),
        None => None,
    }
}

proof fn lemma_sd_se_toggle_stats_items(b: Seq<u8>, i: int, vs: Seq<ToggleStatsV>)
    requires
        0 <= i,
        forall|k: int| 0 <= k < vs.len() ==> wf_toggle_stat(#[trigger] vs[k]),
        i + se_toggle_stats_items(vs).len() <= b.len(),
        b.subrange(i, i + se_toggle_stats_items(vs).len()) == se_toggle_stats_items(vs),
    ensures
        sd_toggle_stats_items(b, i, vs.len()) == Some((vs, i + se_toggle_stats_items(vs).len())),
    decreases vs.len(),
{
    if vs.len() == 0 {
        assert(vs =~= Seq::<ToggleStatsV>::empty());
    } else {
        let rest = vs.drop_first();
        lemma_split_at(b, i, se_toggle_stat(vs[0]), se_toggle_stats_items(rest));
        lemma_sd_se_toggle_stat(b, i, vs[0]);
        let p = i + se_toggle_stat(vs[0]).len();
        lemma_sd_se_toggle_stats_items(b, p, rest);
        assert(seq![vs[0]] + rest =~= vs);
    }
}

pub proof fn lemma_sd_se_toggle_stats(b: Seq<u8>, i: int, vs: Seq<ToggleStatsV>)
    requires
        0 <= i,
        wf_toggle_stats(vs),
        i + se_toggle_stats(vs).len() <= b.len(),
        b.subrange(i, i + se_toggle_stats(vs).len()) == se_toggle_stats(vs),
    ensures
        sd_toggle_stats(b, i) == Some((vs, i + se_toggle_stats(vs).len())),
{
    lemma_split_at(b, i, se_u64(vs.len() as u64), se_toggle_stats_items(vs));
    lemma_sd_se_u64(b, i, vs.len() as u64);
    lemma_sd_se_toggle_stats_items(b, i + 8, vs);
}

proof fn lemma_toggle_stats_items_snoc(vs: Seq<ToggleStatsV>, k: int)
    requires
        0 <= k < vs.len(),
    ensures
        se_toggle_stats_items(vs.subrange(0, k + 1)) == se_toggle_stats_items(vs.subrange(0, k))
            + se_toggle_stat(vs[k]),
    decreases k,
{
    if k == 0 {
        let s1 = vs.subrange(0, 1);
        let s0 = vs.subrange(0, 0);
        assert(s1.len() == 1 && s1[0] == vs[0]);
        assert(s1.drop_first() =~= Seq::<ToggleStatsV>::empty());
        assert(se_toggle_stats_items(s1.drop_first()) =~= Seq::<u8>::empty());
        assert(se_toggle_stats_items(s1) =~= se_toggle_stat(vs[0]) + se_toggle_stats_items(
            s1.drop_first(),
        ));
        assert(se_toggle_stats_items(s0) =~= Seq::<u8>::empty());
        assert(se_toggle_stats_items(s1) =~= se_toggle_stats_items(s0) + se_toggle_stat(vs[0]));
    } else {
        let a = vs.subrange(0, k + 1);
        let c = vs.subrange(0, k);
        assert(a.drop_first() =~= vs.drop_first().subrange(0, k));
        assert(c.drop_first() =~= vs.drop_first().subrange(0, k - 1));
        lemma_toggle_stats_items_snoc(vs.drop_first(), k - 1);
        assert(vs.drop_first()[k - 1] == vs[k]);
        assert(se_toggle_stats_items(a) == se_toggle_stat(a[0]) + se_toggle_stats_items(
            a.drop_first(),
        ));
        assert(se_toggle_stats_items(c) == se_toggle_stat(c[0]) + se_toggle_stats_items(
            c.drop_first(),
        ));
        assert(se_toggle_stat(vs[0]) + (se_toggle_stats_items(vs.drop_first().subrange(0, k - 1))
            + se_toggle_stat(vs[k])) =~= (se_toggle_stat(vs[0]) + se_toggle_stats_items(
            vs.drop_first().subrange(0, k - 1),
        )) + se_toggle_stat(vs[k]));
    }
}

/// Appends a count-prefixed toggle-counter list.
pub fn wr_toggle_stats(out: &mut Vec<u8>, vs: &Vec<ToggleStats>)
    ensures
        final(out)@ == old(out)@ + se_toggle_stats(vs.deep_view()),
{
    wr_u64(out, vs.len() as u64);
    let ghost base = out@;
    let mut k: usize = 0;
    while k < vs.len()
        invariant
            0 <= k <= vs@.len(),
            vs.deep_view().len() == vs@.len(),
            out@ == base + se_toggle_stats_items(vs.deep_view().subrange(0, k as int)),
        decreases vs@.len() - k,
    {
        let ghost before = out@;
        wr_str(out, vs[k].name.as_str());
        wr_u32(out, vs[k].yes);
        wr_u32(out, vs[k].no);
        wr_u32_pairs(out, &vs[k].variants);
        proof {
            lemma_toggle_stats_items_snoc(vs.deep_view(), k as int);
            assert(vs.deep_view()[k as int] == vs@[k as int]@);
            assert(out@ =~= before + se_toggle_stat(vs.deep_view()[k as int]));
            assert(out@ =~= base + se_toggle_stats_items(vs.deep_view().subrange(0, k + 1)));
        }
        k = k + 1;
    }
    proof {
        assert(vs.deep_view().subrange(0, vs.deep_view().len() as int) =~= vs.deep_view());
        assert(out@ =~= old(out)@ + se_toggle_stats(vs.deep_view()));
    }
}

/// Reads a count-prefixed toggle-counter list, exactly as `sd_toggle_stats`
/// describes.
pub fn rd_toggle_stats(b: &[u8], pos: usize) -> (r: Option<(Vec<ToggleStats>, usize)>)
    ensures
        match r {
            Some(vp) => sd_toggle_stats(b@, pos as int) == Some((vp.0.deep_view(), vp.1 as int))
                && vp.1 <= b@.len(),
            None => sd_toggle_stats(b@, pos as int) is None,
        },
{
    let (n, start) = match rd_u64(b, pos) {
        Some(x) => x,
        None => { return None },
    };
    let mut acc: Vec<ToggleStats> = Vec::new();
    let mut cur: usize = start;
    let mut k: u64 = 0;
    while k < n
        invariant
            0 <= k <= n,
            cur <= b@.len(),
            acc.deep_view().len() == k,
            sd_u64(b@, pos as int) == Some((n, start as int)),
            sd_toggle_stats_items(b@, start as int, n as nat) == match sd_toggle_stats_items(
                b@,
                cur as int,
                (n - k) as nat,
            ) {
                Some((rest, q)) => Some((acc.deep_view() + rest, q)),
                None => None::<(Seq<ToggleStatsV>, int)>,
            },
        decreases n - k,
    {
        let (name, p1) = match rd_str(b, cur) {
            Some(x) => x,
            None => {
                proof {
                    assert(sd_toggle_stat(b@, cur as int) is None);
                    assert(sd_toggle_stats_items(b@, cur as int, (n - k) as nat) is None);
                }
                return None
            },
        };
        let (yes, p2) = match rd_u32(b, p1) {
            Some(x) => x,
            None => {
                proof {
                    assert(sd_toggle_stat(b@, cur as int) is None);
                    assert(sd_toggle_stats_items(b@, cur as int, (n - k) as nat) is None);
                }
                return None
            },
        };
        let (no, p3) = match rd_u32(b, p2) {
            Some(x) => x,
            None => {
                proof {
                    assert(sd_toggle_stat(b@, cur as int) is None);
                    assert(sd_toggle_stats_items(b@, cur as int, (n - k) as nat) is None);
                }
                return None
            },
        };
        let (variants, p4) = match rd_u32_pairs(b, p3) {
            Some(x) => x,
            None => {
                proof {
                    assert(sd_toggle_stat(b@, cur as int) is None);
                    assert(sd_toggle_stats_items(b@, cur as int, (n - k) as nat) is None);
                }
                return None
            },
        };
        let e = ToggleStats { name, yes, no, variants };
        proof {
            assert(sd_toggle_stat(b@, cur as int) == Some((e@, p4 as int)));
        }
        let ghost old_acc = acc.deep_view();
        acc.push(e);
        proof {
            assert(acc.deep_view() =~= old_acc.push(acc@[k as int]@));
            assert forall|rest: Seq<ToggleStatsV>|
                true implies old_acc + (seq![acc@[k as int]@] + rest) =~= acc.deep_view()
                + rest by {}
        }
        cur = p4;
        k = k + 1;
    }
    proof {
        assert(acc.deep_view() + Seq::<ToggleStatsV>::empty() =~= acc.deep_view());
    }
    Some((acc, cur))
}

/// A decoded metrics response. `has_metrics` is clear when no window was
/// available to close.
pub struct MetricsResponse {
    pub has_metrics: bool,
    pub start: i64,
    pub stop: i64,
    pub toggles: Vec<ToggleStats>,
    pub error: Option<String>,
}

/// The mathematical shape of a metrics response.
#[verifier::ext_equal]
pub struct MetricsResponseV {
    pub has_metrics: bool,
    pub start: i64,
    pub stop: i64,
    pub toggles: Seq<ToggleStatsV>,
    pub error: Option<Seq<char>>,
}

impl View for MetricsResponse {
    type V = MetricsResponseV;

    open spec fn view(&self) -> MetricsResponseV {
        MetricsResponseV {
            has_metrics: self.has_metrics,
            start: self.start,
            stop: self.stop,
            toggles: self.toggles.deep_view(),
            error: self.error.deep_view(),
        }
    }
}

/// The response a metrics outcome denotes: the window when one was closed,
/// nothing when none was available, only the error text on failure.
pub open spec fn spec_metrics_response(r: Result<Option<MetricsData>, FlatError>) -> MetricsResponseV {
    match r {
        Ok(Some(m)) => MetricsResponseV {
            has_metrics: true,
            start: m.start,
            stop: m.stop,
            toggles: m.toggles.deep_view(),
            error: None,
        },
        Ok(None) => MetricsResponseV {
            has_metrics: false,
            start: 0,
            stop: 0,
            toggles: Seq::empty(),
            error: None,
        },
        Err(e) => MetricsResponseV {
            has_metrics: false,
            start: 0,
            stop: 0,
            toggles: Seq::empty(),
            error: Some(spec_error_message(e)),
        },
    }
}

/// The wire bytes of a metrics response: a presence tag, the window when one
/// is present, then the error field.
pub open spec fn se_metrics_response(v: MetricsResponseV) -> Seq<u8> {
    if v.has_metrics {
        se_bool(true) + se_i64(v.start) + se_i64(v.stop) + se_toggle_stats(v.toggles) + se_opt_str(
            v.error,
        )
    } else {
        se_bool(false) + se_opt_str(v.error)
    }
}

pub open spec fn wf_metrics_response(v: MetricsResponseV) -> bool {
    &&& wf_toggle_stats(v.toggles)
    &&& wf_opt_str(v.error)
    &&& !v.has_metrics ==> v.start == 0 && v.stop == 0 && v.toggles.len() == 0
}

/// Decoding a metrics response at `i`.
pub open spec fn sd_metrics_response(b: Seq<u8>, i: int) -> Option<(MetricsResponseV, int)> {
    match sd_bool(b, i) {
        Some((has, p1)) => if has {
            match sd_i64(b, p1) {
                Some((start, p2)) => match sd_i64(b, p2) {
                    Some((stop, p3)) => match sd_toggle_stats(b, p3) {
                        Some((toggles, p4)) => match sd_opt_str(b, p4) {
                            Some((error, p5)) => Some(
                                (
                                    MetricsResponseV {
                                        has_metrics: true,
                                        start,
                                        stop,
                                        toggles,
                                        error,
                                    },
                                    p5,
                                ),
                            ),
                            None => None,
                        },
                        None => None,
                    },
                    None => None,
                },
                None => None,
            }
        } else {
            match sd_opt_str(b, p1) {
                Some((error, p2)) => Some(
                    (
                        MetricsResponseV {
                            has_metrics: false,
                            start: 0,
                            stop: 0,
                            toggles: Seq::empty(),
                            error,
                        },
                        p2,
                    ),
                ),
                None => None,
            }
        },
        None => None,
    }
}

/// Decoding an encoded metrics response yields the response back.
pub proof fn lemma_sd_se_metrics_response(b: Seq<u8>, i: int, v: MetricsResponseV)
    requires
        0 <= i,
        wf_metrics_response(v),
        i + se_metrics_response(v).len() <= b.len(),
        b.subrange(i, i + se_metrics_response(v).len()) == se_metrics_response(v),
    ensures
        sd_metrics_response(b, i) == Some((v, i + se_metrics_response(v).len())),
{
    if v.has_metrics {
        let e1 = se_bool(true);
        let e2 = se_i64(v.start);
        let e3 = se_i64(v.stop);
        let e4 = se_toggle_stats(v.toggles);
        let e5 = se_opt_str(v.error);
        let a1 = e1;
        let a2 = a1 + e2;
        let a3 = a2 + e3;
        let a4 = a3 + e4;
        lemma_split_at(b, i, a4, e5);
        lemma_split_at(b, i, a3, e4);
        lemma_split_at(b, i, a2, e3);
        lemma_split_at(b, i, a1, e2);
        lemma_sd_se_bool(b, i, true);
        lemma_sd_se_i64(b, i + a1.len(), v.start);
        lemma_sd_se_i64(b, i + a2.len(), v.stop);
        lemma_sd_se_toggle_stats(b, i + a3.len(), v.toggles);
        lemma_sd_se_opt_str(b, i + a4.len(), v.error);
        assert(v =~= sd_metrics_response(b, i).unwrap().0);
    } else {
        let e1 = se_bool(false);
        let e2 = se_opt_str(v.error);
        lemma_split_at(b, i, e1, e2);
        lemma_sd_se_bool(b, i, false);
        lemma_sd_se_opt_str(b, i + e1.len(), v.error);
        assert(v =~= sd_metrics_response(b, i).unwrap().0);
    }
}

/// Encodes a metrics outcome, exactly as `spec_metrics_response` and
/// `se_metrics_response` describe.
pub fn encode_metrics_response(r: &Result<Option<MetricsData>, FlatError>) -> (out: Vec<u8>)
    ensures
        out@ == se_metrics_response(spec_metrics_response(*r)),
{
    let mut out: Vec<u8> = Vec::new();
    match r {
        Ok(Some(m)) => {
            wr_bool(&mut out, true);
            wr_i64(&mut out, m.start);
            wr_i64(&mut out, m.stop);
            wr_toggle_stats(&mut out, &m.toggles);
            wr_opt_str(&mut out, &None);
        },
        Ok(None) => {
            wr_bool(&mut out, false);
            wr_opt_str(&mut out, &None);
        },
        Err(e) => {
            wr_bool(&mut out, false);
            let msg = e.message();
            wr_opt_str(&mut out, &Some(msg));
        },
    }
    proof {
        assert(out@ =~= se_metrics_response(spec_metrics_response(*r)));
    }
    out
}

/// Decodes a metrics response. The whole input must be consumed.
pub fn decode_metrics_response(b: &[u8]) -> (r: Option<MetricsResponse>)
    ensures
        match r {
            Some(v) => sd_metrics_response(b@, 0) == Some((v@, b@.len() as int)),
            None => match sd_metrics_response(b@, 0) {
                Some((_v, p)) => p != b@.len(),
                None => true,
            },
        },
{
    let (has, p1) = match rd_bool(b, 0) {
        Some(x) => x,
        None => { return None },
    };
    if has {
        let (start, p2) = match rd_i64(b, p1) {
            Some(x) => x,
            None => { return None },
        };
        let (stop, p3) = match rd_i64(b, p2) {
            Some(x) => x,
            None => { return None },
        };
        let (toggles, p4) = match rd_toggle_stats(b, p3) {
            Some(x) => x,
            None => { return None },
        };
        let (error, p5) = match rd_opt_str(b, p4) {
            Some(x) => x,
            None => { return None },
        };
        if p5 != b.len() {
            return None;
        }
        let v = MetricsResponse { has_metrics: true, start, stop, toggles, error };
        proof {
            assert(v@ =~= sd_metrics_response(b@, 0).unwrap().0);
        }
        Some(v)
    } else {
        let (error, p2) = match rd_opt_str(b, p1) {
            Some(x) => x,
            None => { return None },
        };
        if p2 != b.len() {
            return None;
        }
        let v = MetricsResponse {
            has_metrics: false,
            start: 0,
            stop: 0,
            toggles: Vec::new(),
            error,
        };
        proof {
            assert(v@ =~= sd_metrics_response(b@, 0).unwrap().0);
        }
        Some(v)
    }
}

} // verus!

verus! {

// ---------------------------------------------------------------------------
// Known-toggle listing
// ---------------------------------------------------------------------------
/// One known toggle: its name, project, enablement and optional type.
pub struct ToggleDefinition {
    pub name: String,
    pub project: String,
    pub enabled: bool,
    pub feature_type: Option<String>,
}

/// The mathematical shape of a toggle definition.
pub struct ToggleDefinitionV {
    pub name: Seq<char>,
    pub project: Seq<char>,
    pub enabled: bool,
    pub feature_type: Option<Seq<char>>,
}

impl View for ToggleDefinition {
    type V = ToggleDefinitionV;

    open spec fn view(&self) -> ToggleDefinitionV {
        ToggleDefinitionV {
            name: self.name@,
            project: self.project@,
            enabled: self.enabled,
            feature_type: self.feature_type.deep_view(),
        }
    }
}

impl DeepView for ToggleDefinition {
    type V = ToggleDefinitionV;

    open spec fn deep_view(&self) -> ToggleDefinitionV {
        self.view()
    }
}

pub open spec fn se_toggle_def(v: ToggleDefinitionV) -> Seq<u8> {
    se_str(v.name) + se_str(v.project) + se_bool(v.enabled) + se_opt_str(v.feature_type)
}

pub open spec fn wf_toggle_def(v: ToggleDefinitionV) -> bool {
    wf_str(v.name) && wf_str(v.project) && wf_opt_str(v.feature_type)
}

pub open spec fn sd_toggle_def(b: Seq<u8>, i: int) -> Option<(ToggleDefinitionV, int)> {
    match sd_str(b, i) {
        Some((name, p1)) => match sd_str(b, p1) {
            Some((project, p2)) => match sd_bool(b, p2) {
                Some((enabled, p3)) => match sd_opt_str(b, p3) {
                    Some((feature_type, p4)) => Some(
                        (ToggleDefinitionV { name, project, enabled, feature_type }, p4),
                    ),
                    None => None,
                },
                None => None,
            },
            None => None,
        },
        None => None,
    }
}

pub proof fn lemma_sd_se_toggle_def(b: Seq<u8>, i: int, v: ToggleDefinitionV)
    requires
        0 <= i,
        wf_toggle_def(v),
        i + se_toggle_def(v).len() <= b.len(),
        b.subrange(i, i + se_toggle_def(v).len()) == se_toggle_def(v),
    ensures
        sd_toggle_def(b, i) == Some((v, i + se_toggle_def(v).len())),
{
    let e1 = se_str(v.name);
    let e2 = se_str(v.project);
    let e3 = se_bool(v.enabled);
    let e4 = se_opt_str(v.feature_type);
    let a1 = e1;
    let a2 = a1 + e2;
    let a3 = a2 + e3;
    lemma_split_at(b, i, a3, e4);
    lemma_split_at(b, i, a2, e3);
    lemma_split_at(b, i, a1, e2);
    lemma_sd_se_str(b, i, v.name);
    lemma_sd_se_str(b, i + a1.len(), v.project);
    lemma_sd_se_bool(b, i + a2.len(), v.enabled);
    lemma_sd_se_opt_str(b, i + a3.len(), v.feature_type);
}

pub open spec fn se_toggle_defs_items(vs: Seq<ToggleDefinitionV>) -> Seq<u8>
    decreases vs.len(),
{
    if vs.len() == 0 {
        Seq::empty()
    } else {
        se_toggle_def(vs[0]) + se_toggle_defs_items(vs.drop_first())
    }
}

pub open spec fn se_toggle_defs(vs: Seq<ToggleDefinitionV>) -> Seq<u8> {
    se_u64(vs.len() as u64) + se_toggle_defs_items(vs)
}

pub open spec fn wf_toggle_defs(vs: Seq<ToggleDefinitionV>) -> bool {
    vs.len() <= u64::MAX && forall|k: int| 0 <= k < vs.len() ==> wf_toggle_def(#[trigger] vs[k])
}

pub open spec fn sd_toggle_defs_items(b: Seq<u8>, i: int, n: nat) -> Option<(Seq<
    ToggleDefinitionV,
>, int)>
    decreases n,
{
    if n == 0 {
        Some((Seq::empty(), i))
    } else {
        match sd_toggle_def(b, i) {
            Some((e, p)) => match sd_toggle_defs_items(b, p, (n - 1) as nat) {
                Some((vs, q)) => Some((seq![e] + vs, q)),
                None => None,
            },
            None => None,
        }
    }
}

pub open spec fn sd_toggle_defs(b: Seq<u8>, i: int) -> Option<(Seq<ToggleDefinitionV>, int)> {
    match sd_u64(b, i) {
        Some((n, p)) => sd_toggle_defs_items(b, p, n as nat),
        None => None,
    }
}

proof fn lemma_sd_se_toggle_defs_items(b: Seq<u8>, i: int, vs: Seq<ToggleDefinitionV>)
    requires
        0 <= i,
        forall|k: int| 0 <= k < vs.len() ==> wf_toggle_def(#[trigger] vs[k]),
        i + se_toggle_defs_items(vs).len() <= b.len(),
        b.subrange(i, i + se_toggle_defs_items(vs).len()) == se_toggle_defs_items(vs),
    ensures
        sd_toggle_defs_items(b, i, vs.len()) == Some((vs, i + se_toggle_defs_items(vs).len())),
    decreases vs.len(),
{
    if vs.len() == 0 {
        assert(vs =~= Seq::<ToggleDefinitionV>::empty());
    } else {
        let rest = vs.drop_first();
        lemma_split_at(b, i, se_toggle_def(vs[0]), se_toggle_defs_items(rest));
        lemma_sd_se_toggle_def(b, i, vs[0]);
        let p = i + se_toggle_def(vs[0]).len();
        lemma_sd_se_toggle_defs_items(b, p, rest);
        assert(seq![vs[0]] + rest =~= vs);
    }
}

pub proof fn lemma_sd_se_toggle_defs(b: Seq<u8>, i: int, vs: Seq<ToggleDefinitionV>)
    requires
        0 <= i,
        wf_toggle_defs(vs),
        i + se_toggle_defs(vs).len() <= b.len(),
        b.subrange(i, i + se_toggle_defs(vs).len()) == se_toggle_defs(vs),
    ensures
        sd_toggle_defs(b, i) == Some((vs, i + se_toggle_defs(vs).len())),
{
    lemma_split_at(b, i, se_u64(vs.len() as u64), se_toggle_defs_items(vs));
    lemma_sd_se_u64(b, i, vs.len() as u64);
    lemma_sd_se_toggle_defs_items(b, i + 8, vs);
}

proof fn lemma_toggle_defs_items_snoc(vs: Seq<ToggleDefinitionV>, k: int)
    requires
        0 <= k < vs.len(),
    ensures
        se_toggle_defs_items(vs.subrange(0, k + 1)) == se_toggle_defs_items(vs.subrange(0, k))
            + se_toggle_def(vs[k]),
    decreases k,
{
    if k == 0 {
        let s1 = vs.subrange(0, 1);
        let s0 = vs.subrange(0, 0);
        assert(s1.len() == 1 && s1[0] == vs[0]);
        assert(s1.drop_first() =~= Seq::<ToggleDefinitionV>::empty());
        assert(se_toggle_defs_items(s1.drop_first()) =~= Seq::<u8>::empty());
        assert(se_toggle_defs_items(s1) =~= se_toggle_def(vs[0]) + se_toggle_defs_items(
            s1.drop_first(),
        ));
        assert(se_toggle_defs_items(s0) =~= Seq::<u8>::empty());
        assert(se_toggle_defs_items(s1) =~= se_toggle_defs_items(s0) + se_toggle_def(vs[0]));
    } else {
        let a = vs.subrange(0, k + 1);
        let c = vs.subrange(0, k);
        assert(a.drop_first() =~= vs.drop_first().subrange(0, k));
        assert(c.drop_first() =~= vs.drop_first().subrange(0, k - 1));
        lemma_toggle_defs_items_snoc(vs.drop_first(), k - 1);
        assert(vs.drop_first()[k - 1] == vs[k]);
        assert(se_toggle_defs_items(a) == se_toggle_def(a[0]) + se_toggle_defs_items(
            a.drop_first(),
        ));
        assert(se_toggle_defs_items(c) == se_toggle_def(c[0]) + se_toggle_defs_items(
            c.drop_first(),
        ));
        assert(se_toggle_def(vs[0]) + (se_toggle_defs_items(vs.drop_first().subrange(0, k - 1))
            + se_toggle_def(vs[k])) =~= (se_toggle_def(vs[0]) + se_toggle_defs_items(
            vs.drop_first().subrange(0, k - 1),
        )) + se_toggle_def(vs[k]));
    }
}

/// Appends a count-prefixed toggle-definition list.
pub fn wr_toggle_defs(out: &mut Vec<u8>, vs: &Vec<ToggleDefinition>)
    ensures
        final(out)@ == old(out)@ + se_toggle_defs(vs.deep_view()),
{
    wr_u64(out, vs.len() as u64);
    let ghost base = out@;
    let mut k: usize = 0;
    while k < vs.len()
        invariant
            0 <= k <= vs@.len(),
            vs.deep_view().len() == vs@.len(),
            out@ == base + se_toggle_defs_items(vs.deep_view().subrange(0, k as int)),
        decreases vs@.len() - k,
    {
        let ghost before = out@;
        wr_str(out, vs[k].name.as_str());
        wr_str(out, vs[k].project.as_str());
        wr_bool(out, vs[k].enabled);
        wr_opt_str(out, &vs[k].feature_type);
        proof {
            lemma_toggle_defs_items_snoc(vs.deep_view(), k as int);
            assert(vs.deep_view()[k as int] == vs@[k as int]@);
            assert(out@ =~= before + se_toggle_def(vs.deep_view()[k as int]));
            assert(out@ =~= base + se_toggle_defs_items(vs.deep_view().subrange(0, k + 1)));
        }
        k = k + 1;
    }
    proof {
        assert(vs.deep_view().subrange(0, vs.deep_view().len() as int) =~= vs.deep_view());
        assert(out@ =~= old(out)@ + se_toggle_defs(vs.deep_view()));
    }
}

/// Reads a count-prefixed toggle-definition list, exactly as `sd_toggle_defs`
/// describes.
pub fn rd_toggle_defs(b: &[u8], pos: usize) -> (r: Option<(Vec<ToggleDefinition>, usize)>)
    ensures
        match r {
            Some(vp) => sd_toggle_defs(b@, pos as int) == Some((vp.0.deep_view(), vp.1 as int))
                && vp.1 <= b@.len(),
            None => sd_toggle_defs(b@, pos as int) is None,
        },
{
    let (n, start) = match rd_u64(b, pos) {
        Some(x) => x,
        None => { return None },
    };
    let mut acc: Vec<ToggleDefinition> = Vec::new();
    let mut cur: usize = start;
    let mut k: u64 = 0;
    while k < n
        invariant
            0 <= k <= n,
            cur <= b@.len(),
            acc.deep_view().len() == k,
            sd_u64(b@, pos as int) == Some((n, start as int)),
            sd_toggle_defs_items(b@, start as int, n as nat) == match sd_toggle_defs_items(
                b@,
                cur as int,
                (n - k) as nat,
            ) {
                Some((rest, q)) => Some((acc.deep_view() + rest, q)),
                None => None::<(Seq<ToggleDefinitionV>, int)>,
            },
        decreases n - k,
    {
        let (name, p1) = match rd_str(b, cur) {
            Some(x) => x,
            None => {
                proof {
                    assert(sd_toggle_def(b@, cur as int) is None);
                    assert(sd_toggle_defs_items(b@, cur as int, (n - k) as nat) is None);
                }
                return None
            },
        };
        let (project, p2) = match rd_str(b, p1) {
            Some(x) => x,
            None => {
                proof {
                    assert(sd_toggle_def(b@, cur as int) is None);
                    assert(sd_toggle_defs_items(b@, cur as int, (n - k) as nat) is None);
                }
                return None
            },
        };
        let (enabled, p3) = match rd_bool(b, p2) {
            Some(x) => x,
            None => {
                proof {
                    assert(sd_toggle_def(b@, cur as int) is None);
                    assert(sd_toggle_defs_items(b@, cur as int, (n - k) as nat) is None);
                }
                return None
            },
        };
        let (feature_type, p4) = match rd_opt_str(b, p3) {
            Some(x) => x,
            None => {
                proof {
                    assert(sd_toggle_def(b@, cur as int) is None);
                    assert(sd_toggle_defs_items(b@, cur as int, (n - k) as nat) is None);
                }
                return None
            },
        };
        let e = ToggleDefinition { name, project, enabled, feature_type };
        proof {
            assert(sd_toggle_def(b@, cur as int) == Some((e@, p4 as int)));
        }
        let ghost old_acc = acc.deep_view();
        acc.push(e);
        proof {
            assert(acc.deep_view() =~= old_acc.push(acc@[k as int]@));
            assert forall|rest: Seq<ToggleDefinitionV>|
                true implies old_acc + (seq![acc@[k as int]@] + rest) =~= acc.deep_view()
                + rest by {}
        }
        cur = p4;
        k = k + 1;
    }
    proof {
        assert(acc.deep_view() + Seq::<ToggleDefinitionV>::empty() =~= acc.deep_view());
    }
    Some((acc, cur))
}

/// The response a listing outcome denotes: the known toggles, or only the
/// error text on failure.
pub open spec fn spec_feature_defs_response(r: Result<Vec<ToggleDefinition>, FlatError>) -> (Seq<
    ToggleDefinitionV,
>, Option<Seq<char>>) {
    match r {
        Ok(vs) => (vs.deep_view(), None),
        Err(e) => (Seq::empty(), Some(spec_error_message(e))),
    }
}

/// The wire bytes of a known-toggle listing: the definitions, then the error
/// field.
pub open spec fn se_feature_defs_response(v: (Seq<ToggleDefinitionV>, Option<Seq<char>>)) -> Seq<
    u8,
> {
    se_toggle_defs(v.0) + se_opt_str(v.1)
}

pub open spec fn wf_feature_defs_response(v: (Seq<ToggleDefinitionV>, Option<Seq<char>>)) -> bool {
    wf_toggle_defs(v.0) && wf_opt_str(v.1)
}

/// Decoding a known-toggle listing at `i`.
pub open spec fn sd_feature_defs_response(b: Seq<u8>, i: int) -> Option<((Seq<ToggleDefinitionV>, Option<Seq<char>>), int)> {
    match sd_toggle_defs(b, i) {
        Some((vs, p1)) => match sd_opt_str(b, p1) {
            Some((error, p2)) => Some(((vs, error), p2)),
            None => None,
        },
        None => None,
    }
}

/// Decoding an encoded listing yields the listing back.
pub proof fn lemma_sd_se_feature_defs_response(
    b: Seq<u8>,
    i: int,
    v: (Seq<ToggleDefinitionV>, Option<Seq<char>>),
)
    requires
        0 <= i,
        wf_feature_defs_response(v),
        i + se_feature_defs_response(v).len() <= b.len(),
        b.subrange(i, i + se_feature_defs_response(v).len()) == se_feature_defs_response(v),
    ensures
        sd_feature_defs_response(b, i) == Some((v, i + se_feature_defs_response(v).len())),
{
    lemma_split_at(b, i, se_toggle_defs(v.0), se_opt_str(v.1));
    lemma_sd_se_toggle_defs(b, i, v.0);
    lemma_sd_se_opt_str(b, i + se_toggle_defs(v.0).len(), v.1);
}

/// A decoded known-toggle listing.
pub struct FeatureDefs {
    pub items: Vec<ToggleDefinition>,
    pub error: Option<String>,
}

/// Encodes a listing outcome, exactly as `spec_feature_defs_response` and
/// `se_feature_defs_response` describe.
pub fn encode_feature_defs_response(r: &Result<Vec<ToggleDefinition>, FlatError>) -> (out: Vec<u8>)
    ensures
        out@ == se_feature_defs_response(spec_feature_defs_response(*r)),
{
    let mut out: Vec<u8> = Vec::new();
    match r {
        Ok(vs) => {
            wr_toggle_defs(&mut out, vs);
            wr_opt_str(&mut out, &None);
        },
        Err(e) => {
            let empty: Vec<ToggleDefinition> = Vec::new();
            wr_toggle_defs(&mut out, &empty);
            let msg = e.message();
            wr_opt_str(&mut out, &Some(msg));
        },
    }
    proof {
        assert(out@ =~= se_feature_defs_response(spec_feature_defs_response(*r)));
    }
    out
}

/// Decodes a known-toggle listing. The whole input must be consumed.
pub fn decode_feature_defs_response(b: &[u8]) -> (r: Option<FeatureDefs>)
    ensures
        match r {
            Some(v) => sd_feature_defs_response(b@, 0) == Some(
                ((v.items.deep_view(), v.error.deep_view()), b@.len() as int),
            ),
            None => match sd_feature_defs_response(b@, 0) {
                Some((_v, p)) => p != b@.len(),
                None => true,
            },
        },
{
    let (items, p1) = match rd_toggle_defs(b, 0) {
        Some(x) => x,
        None => { return None },
    };
    let (error, p2) = match rd_opt_str(b, p1) {
        Some(x) => x,
        None => { return None },
    };
    if p2 != b.len() {
        return None;
    }
    Some(FeatureDefs { items, error })
}

// ---------------------------------------------------------------------------
// Built-in strategies and the version string
// ---------------------------------------------------------------------------
/// The wire bytes of the built-in strategy listing: a plain string list.
pub open spec fn se_built_in_strategies(vs: Seq<Seq<char>>) -> Seq<u8> {
    crate::wire::se_str_list(vs)
}

/// Encodes the built-in strategy names.
pub fn encode_built_in_strategies(vs: &Vec<String>) -> (out: Vec<u8>)
    ensures
        out@ == se_built_in_strategies(vs.deep_view()),
{
    let mut out: Vec<u8> = Vec::new();
    crate::wire::wr_str_list(&mut out, vs);
    proof {
        assert(out@ =~= se_built_in_strategies(vs.deep_view()));
    }
    out
}

/// Decodes the built-in strategy listing. The whole input must be consumed.
pub fn decode_built_in_strategies(b: &[u8]) -> (r: Option<Vec<String>>)
    ensures
        match r {
            Some(v) => crate::wire::sd_str_list(b@, 0) == Some((v.deep_view(), b@.len() as int)),
            None => match crate::wire::sd_str_list(b@, 0) {
                Some((_v, p)) => p != b@.len(),
                None => true,
            },
        },
{
    let (vs, p) = match crate::wire::rd_str_list(b, 0) {
        Some(x) => x,
        None => { return None },
    };
    if p != b.len() {
        return None;
    }
    Some(vs)
}

/// The wire bytes of the version response: a single string.
pub open spec fn se_core_version(v: Seq<char>) -> Seq<u8> {
    se_str(v)
}

/// Encodes the version string.
pub fn encode_core_version(v: &str) -> (out: Vec<u8>)
    ensures
        out@ == se_core_version(v@),
{
    let mut out: Vec<u8> = Vec::new();
    wr_str(&mut out, v);
    proof {
        assert(out@ =~= se_core_version(v@));
    }
    out
}

/// Decodes the version response. The whole input must be consumed.
pub fn decode_core_version(b: &[u8]) -> (r: Option<String>)
    ensures
        match r {
            Some(v) => sd_str(b@, 0) == Some((v@, b@.len() as int)),
            None => match sd_str(b@, 0) {
                Some((_v, p)) => p != b@.len(),
                None => true,
            },
        },
{
    let (v, p) = match rd_str(b, 0) {
        Some(x) => x,
        None => { return None },
    };
    if p != b.len() {
        return None;
    }
    Some(v)
}

} // verus!
