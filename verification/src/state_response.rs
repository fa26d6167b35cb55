//! The state-ingestion response: warnings plus a full snapshot of every
//! loaded feature and its strategies' parameter maps.
//!
//! The snapshot travels as a vector of features, each carrying a vector of
//! strategy definitions, each carrying its parameters as key/value entries.
//! The whole snapshot is put into canonical order before encoding: features
//! sorted by name, strategies by name within each feature, and parameter
//! entries by key within each strategy. Warnings travel
//! as formatted strings; the optional error field is set exactly when the
//! ingestion payload failed to parse.

use vstd::prelude::*;

use crate::errors::{spec_error_message, FlatError};
use crate::wire::{
    lemma_sd_se_opt_str, lemma_sd_se_str, lemma_sd_se_str_list, lemma_sd_se_str_pairs,
    lemma_split_at, rd_opt_str, rd_str, rd_str_list, rd_str_pairs, rd_u64, sd_opt_str, sd_str,
    sd_str_list, sd_str_pairs, sd_u64, se_opt_str, se_str, se_str_list, se_str_pairs, se_u64,
    wf_opt_str, wf_str, wf_str_list, wf_str_pairs, wr_opt_str, wr_str, wr_str_list, wr_str_pairs,
    wr_u64, lemma_sd_se_u64,
};
use vstd::string::StringExecFns;

verus! {

/// One strategy of a loaded feature: its name and its parameter map.
pub struct StrategyDefinition {
    pub name: String,
    pub parameters: Vec<(String, String)>,
}

/// The mathematical shape of a strategy definition.
pub struct StrategyDefinitionV {
    pub name: Seq<char>,
    pub parameters: Seq<(Seq<char>, Seq<char>)>,
}

impl View for StrategyDefinition {
    type V = StrategyDefinitionV;

    open spec fn view(&self) -> StrategyDefinitionV {
        StrategyDefinitionV { name: self.name@, parameters: self.parameters.deep_view() }
    }
}

impl DeepView for StrategyDefinition {
    type V = StrategyDefinitionV;

    open spec fn deep_view(&self) -> StrategyDefinitionV {
        self.view()
    }
}

/// One loaded feature and its strategies.
pub struct StrategyFeature {
    pub feature_name: String,
    pub strategies: Vec<StrategyDefinition>,
}

/// The mathematical shape of a feature snapshot entry.
pub struct StrategyFeatureV {
    pub feature_name: Seq<char>,
    pub strategies: Seq<StrategyDefinitionV>,
}

impl View for StrategyFeature {
    type V = StrategyFeatureV;

    open spec fn view(&self) -> StrategyFeatureV {
        StrategyFeatureV {
            feature_name: self.feature_name@,
            strategies: self.strategies.deep_view(),
        }
    }
}

impl DeepView for StrategyFeature {
    type V = StrategyFeatureV;

    open spec fn deep_view(&self) -> StrategyFeatureV {
        self.view()
    }
}

/// One warning the engine produced while integrating new state.
pub struct Warning {
    pub toggle_name: String,
    pub message: String,
}

impl View for Warning {
    type V = (Seq<char>, Seq<char>);

    open spec fn view(&self) -> (Seq<char>, Seq<char>) {
        (self.toggle_name@, self.message@)
    }
}

impl DeepView for Warning {
    type V = (Seq<char>, Seq<char>);

    open spec fn deep_view(&self) -> (Seq<char>, Seq<char>) {
        self.view()
    }
}

/// The caller-facing text of a warning.
pub open spec fn spec_warning_text(w: (Seq<char>, Seq<char>)) -> Seq<char> {
    "toggle: "@ + w.0 + " warned "@ + w.1
}

/// Formats a warning for the response, character by character.
pub fn format_warning(w: &Warning) -> (r: String)
    ensures
        r@ == spec_warning_text(w@),
{
    let mut s = String::from_str("toggle: ");
    s.append(w.toggle_name.as_str());
    s.append(" warned ");
    s.append(w.message.as_str());
    s
}

/// The outcome of a state ingestion: the engine's warnings, the snapshot of
/// every loaded feature, and the error field, set only on parse failure.
pub struct TakeStateResult {
    pub warnings: Vec<Warning>,
    pub error: Option<String>,
    pub feature_strategies_map: Vec<StrategyFeature>,
}

// ---------------------------------------------------------------------------
// Wire layout of strategies and features
// ---------------------------------------------------------------------------
pub open spec fn se_strategy(v: StrategyDefinitionV) -> Seq<u8> {
    se_str(v.name) + se_str_pairs(v.parameters)
}

pub open spec fn wf_strategy(v: StrategyDefinitionV) -> bool {
    wf_str(v.name) && wf_str_pairs(v.parameters)
}

pub open spec fn sd_strategy(b: Seq<u8>, i: int) -> Option<(StrategyDefinitionV, int)> {
    match sd_str(b, i) {
        Some((name, p)) => match sd_str_pairs(b, p) {
            Some((parameters, q)) => Some((StrategyDefinitionV { name, parameters }, q)),
            None => None,
        },
        None => None,
    }
}

pub proof fn lemma_sd_se_strategy(b: Seq<u8>, i: int, v: StrategyDefinitionV)
    requires
        0 <= i,
        wf_strategy(v),
        i + se_strategy(v).len() <= b.len(),
        b.subrange(i, i + se_strategy(v).len()) == se_strategy(v),
    ensures
        sd_strategy(b, i) == Some((v, i + se_strategy(v).len())),
{
    lemma_split_at(b, i, se_str(v.name), se_str_pairs(v.parameters));
    lemma_sd_se_str(b, i, v.name);
    lemma_sd_se_str_pairs(b, i + se_str(v.name).len(), v.parameters);
}

pub open spec fn se_strategies_items(vs: Seq<StrategyDefinitionV>) -> Seq<u8>
    decreases vs.len(),
{
    if vs.len() == 0 {
        Seq::empty()
    } else {
        se_strategy(vs[0]) + se_strategies_items(vs.drop_first())
    }
}

pub open spec fn se_strategies(vs: Seq<StrategyDefinitionV>) -> Seq<u8> {
    se_u64(vs.len() as u64) + se_strategies_items(vs)
}

pub open spec fn wf_strategies(vs: Seq<StrategyDefinitionV>) -> bool {
    vs.len() <= u64::MAX && forall|k: int| 0 <= k < vs.len() ==> wf_strategy(#[trigger] vs[k])
}

pub open spec fn sd_strategies_items(b: Seq<u8>, i: int, n: nat) -> Option<(Seq<
    StrategyDefinitionV,
>, int)>
    decreases n,
{
    if n == 0 {
        Some((Seq::empty(), i))
    } else {
        match sd_strategy(b, i) {
            Some((e, p)) => match sd_strategies_items(b, p, (n - 1) as nat) {
                Some((vs, q)) => Some((seq![e] + vs, q)),
                None => None,
            },
            None => None,
        }
    }
}

pub open spec fn sd_strategies(b: Seq<u8>, i: int) -> Option<(Seq<StrategyDefinitionV>, int)> {
    match sd_u64(b, i) {
        Some((n, p)) => sd_strategies_items(b, p, n as nat),
        None => None,
    }
}

proof fn lemma_sd_se_strategies_items(b: Seq<u8>, i: int, vs: Seq<StrategyDefinitionV>)
    requires
        0 <= i,
        forall|k: int| 0 <= k < vs.len() ==> wf_strategy(#[trigger] vs[k]),
        i + se_strategies_items(vs).len() <= b.len(),
        b.subrange(i, i + se_strategies_items(vs).len()) == se_strategies_items(vs),
    ensures
        sd_strategies_items(b, i, vs.len()) == Some((vs, i + se_strategies_items(vs).len())),
    decreases vs.len(),
{
    if vs.len() == 0 {
        assert(vs =~= Seq::<StrategyDefinitionV>::empty());
    } else {
        let rest = vs.drop_first();
        lemma_split_at(b, i, se_strategy(vs[0]), se_strategies_items(rest));
        lemma_sd_se_strategy(b, i, vs[0]);
        let p = i + se_strategy(vs[0]).len();
        lemma_sd_se_strategies_items(b, p, rest);
        assert(seq![vs[0]] + rest =~= vs);
    }
}

pub proof fn lemma_sd_se_strategies(b: Seq<u8>, i: int, vs: Seq<StrategyDefinitionV>)
    requires
        0 <= i,
        wf_strategies(vs),
        i + se_strategies(vs).len() <= b.len(),
        b.subrange(i, i + se_strategies(vs).len()) == se_strategies(vs),
    ensures
        sd_strategies(b, i) == Some((vs, i + se_strategies(vs).len())),
{
    lemma_split_at(b, i, se_u64(vs.len() as u64), se_strategies_items(vs));
    lemma_sd_se_u64(b, i, vs.len() as u64);
    lemma_sd_se_strategies_items(b, i + 8, vs);
}

proof fn lemma_strategies_items_snoc(vs: Seq<StrategyDefinitionV>, k: int)
    requires
        0 <= k < vs.len(),
    ensures
        se_strategies_items(vs.subrange(0, k + 1)) == se_strategies_items(vs.subrange(0, k))
            + se_strategy(vs[k]),
    decreases k,
{
    if k == 0 {
        let s1 = vs.subrange(0, 1);
        let s0 = vs.subrange(0, 0);
        assert(s1.len() == 1 && s1[0] == vs[0]);
        assert(s1.drop_first() =~= Seq::<StrategyDefinitionV>::empty());
        assert(se_strategies_items(s1.drop_first()) =~= Seq::<u8>::empty());
        assert(se_strategies_items(s1) =~= se_strategy(vs[0]) + se_strategies_items(
            s1.drop_first(),
        ));
        assert(se_strategies_items(s0) =~= Seq::<u8>::empty());
        assert(se_strategies_items(s1) =~= se_strategies_items(s0) + se_strategy(vs[0]));
    } else {
        let a = vs.subrange(0, k + 1);
        let c = vs.subrange(0, k);
        assert(a.drop_first() =~= vs.drop_first().subrange(0, k));
        assert(c.drop_first() =~= vs.drop_first().subrange(0, k - 1));
        lemma_strategies_items_snoc(vs.drop_first(), k - 1);
        assert(vs.drop_first()[k - 1] == vs[k]);
        assert(se_strategies_items(a) == se_strategy(a[0]) + se_strategies_items(a.drop_first()));
        assert(se_strategies_items(c) == se_strategy(c[0]) + se_strategies_items(c.drop_first()));
        assert(se_strategy(vs[0]) + (se_strategies_items(vs.drop_first().subrange(0, k - 1))
            + se_strategy(vs[k])) =~= (se_strategy(vs[0]) + se_strategies_items(
            vs.drop_first().subrange(0, k - 1),
        )) + se_strategy(vs[k]));
    }
}

/// Appends a count-prefixed strategy list.
pub fn wr_strategies(out: &mut Vec<u8>, vs: &Vec<StrategyDefinition>)
    ensures
        final(out)@ == old(out)@ + se_strategies(vs.deep_view()),
{
    wr_u64(out, vs.len() as u64);
    let ghost base = out@;
    let mut k: usize = 0;
    while k < vs.len()
        invariant
            0 <= k <= vs@.len(),
            vs.deep_view().len() == vs@.len(),
            out@ == base + se_strategies_items(vs.deep_view().subrange(0, k as int)),
        decreases vs@.len() - k,
    {
        let ghost before = out@;
        wr_str(out, vs[k].name.as_str());
        wr_str_pairs(out, &vs[k].parameters);
        proof {
            lemma_strategies_items_snoc(vs.deep_view(), k as int);
            assert(vs.deep_view()[k as int] == vs@[k as int]@);
            assert(out@ =~= before + se_strategy(vs.deep_view()[k as int]));
            assert(out@ =~= base + se_strategies_items(vs.deep_view().subrange(0, k + 1)));
        }
        k = k + 1;
    }
    proof {
        assert(vs.deep_view().subrange(0, vs.deep_view().len() as int) =~= vs.deep_view());
        assert(out@ =~= old(out)@ + se_strategies(vs.deep_view()));
    }
}

/// Reads a count-prefixed strategy list, exactly as `sd_strategies` describes.
pub fn rd_strategies(b: &[u8], pos: usize) -> (r: Option<(Vec<StrategyDefinition>, usize)>)
    ensures
        match r {
            Some(vp) => sd_strategies(b@, pos as int) == Some((vp.0.deep_view(), vp.1 as int))
                && vp.1 <= b@.len(),
            None => sd_strategies(b@, pos as int) is None,
        },
{
    let (n, start) = match rd_u64(b, pos) {
        Some(x) => x,
        None => { return None },
    };
    let mut acc: Vec<StrategyDefinition> = Vec::new();
    let mut cur: usize = start;
    let mut k: u64 = 0;
    while k < n
        invariant
            0 <= k <= n,
            cur <= b@.len(),
            acc.deep_view().len() == k,
            sd_u64(b@, pos as int) == Some((n, start as int)),
            sd_strategies_items(b@, start as int, n as nat) == match sd_strategies_items(
                b@,
                cur as int,
                (n - k) as nat,
            ) {
                Some((rest, q)) => Some((acc.deep_view() + rest, q)),
                None => None::<(Seq<StrategyDefinitionV>, int)>,
            },
        decreases n - k,
    {
        let (name, p1) = match rd_str(b, cur) {
            Some(x) => x,
            None => {
                proof {
                    assert(sd_strategy(b@, cur as int) is None);
                    assert(sd_strategies_items(b@, cur as int, (n - k) as nat) is None);
                }
                return None
            },
        };
        let (parameters, p2) = match rd_str_pairs(b, p1) {
            Some(x) => x,
            None => {
                proof {
                    assert(sd_strategy(b@, cur as int) is None);
                    assert(sd_strategies_items(b@, cur as int, (n - k) as nat) is None);
                }
                return None
            },
        };
        let e = StrategyDefinition { name, parameters };
        proof {
            assert(sd_strategy(b@, cur as int) == Some((e@, p2 as int)));
        }
        let ghost old_acc = acc.deep_view();
        acc.push(e);
        proof {
            assert(acc.deep_view() =~= old_acc.push(acc@[k as int]@));
            assert forall|rest: Seq<StrategyDefinitionV>|
                true implies old_acc + (seq![acc@[k as int]@] + rest) =~= acc.deep_view()
                + rest by {}
        }
        cur = p2;
        k = k + 1;
    }
    proof {
        assert(acc.deep_view() + Seq::<StrategyDefinitionV>::empty() =~= acc.deep_view());
    }
    Some((acc, cur))
}

} // verus!

verus! {

// ---------------------------------------------------------------------------
// The feature list and the whole response
// ---------------------------------------------------------------------------
pub open spec fn se_feature(v: StrategyFeatureV) -> Seq<u8> {
    se_str(v.feature_name) + se_strategies(v.strategies)
}

pub open spec fn wf_feature(v: StrategyFeatureV) -> bool {
    wf_str(v.feature_name) && wf_strategies(v.strategies)
}

pub open spec fn sd_feature(b: Seq<u8>, i: int) -> Option<(StrategyFeatureV, int)> {
    match sd_str(b, i) {
        Some((feature_name, p)) => match sd_strategies(b, p) {
            Some((strategies, q)) => Some((StrategyFeatureV { feature_name, strategies }, q)),
            None => None,
        },
        None => None,
    }
}

pub proof fn lemma_sd_se_feature(b: Seq<u8>, i: int, v: StrategyFeatureV)
    requires
        0 <= i,
        wf_feature(v),
        i + se_feature(v).len() <= b.len(),
        b.subrange(i, i + se_feature(v).len()) == se_feature(v),
    ensures
        sd_feature(b, i) == Some((v, i + se_feature(v).len())),
{
    lemma_split_at(b, i, se_str(v.feature_name), se_strategies(v.strategies));
    lemma_sd_se_str(b, i, v.feature_name);
    lemma_sd_se_strategies(b, i + se_str(v.feature_name).len(), v.strategies);
}

pub open spec fn se_features_items(vs: Seq<StrategyFeatureV>) -> Seq<u8>
    decreases vs.len(),
{
    if vs.len() == 0 {
        Seq::empty()
    } else {
        se_feature(vs[0]) + se_features_items(vs.drop_first())
    }
}

pub open spec fn se_features(vs: Seq<StrategyFeatureV>) -> Seq<u8> {
    se_u64(vs.len() as u64) + se_features_items(vs)
}

pub open spec fn wf_features(vs: Seq<StrategyFeatureV>) -> bool {
    vs.len() <= u64::MAX && forall|k: int| 0 <= k < vs.len() ==> wf_feature(#[trigger] vs[k])
}

pub open spec fn sd_features_items(b: Seq<u8>, i: int, n: nat) -> Option<(Seq<StrategyFeatureV>, int)>
    decreases n,
{
    if n == 0 {
        Some((Seq::empty(), i))
    } else {
        match sd_feature(b, i) {
            Some((e, p)) => match sd_features_items(b, p, (n - 1) as nat) {
                Some((vs, q)) => Some((seq![e] + vs, q)),
                None => None,
            },
            None => None,
        }
    }
}

pub open spec fn sd_features(b: Seq<u8>, i: int) -> Option<(Seq<StrategyFeatureV>, int)> {
    match sd_u64(b, i) {
        Some((n, p)) => sd_features_items(b, p, n as nat),
        None => None,
    }
}

proof fn lemma_sd_se_features_items(b: Seq<u8>, i: int, vs: Seq<StrategyFeatureV>)
    requires
        0 <= i,
        forall|k: int| 0 <= k < vs.len() ==> wf_feature(#[trigger] vs[k]),
        i + se_features_items(vs).len() <= b.len(),
        b.subrange(i, i + se_features_items(vs).len()) == se_features_items(vs),
    ensures
        sd_features_items(b, i, vs.len()) == Some((vs, i + se_features_items(vs).len())),
    decreases vs.len(),
{
    if vs.len() == 0 {
        assert(vs =~= Seq::<StrategyFeatureV>::empty());
    } else {
        let rest = vs.drop_first();
        lemma_split_at(b, i, se_feature(vs[0]), se_features_items(rest));
        lemma_sd_se_feature(b, i, vs[0]);
        let p = i + se_feature(vs[0]).len();
        lemma_sd_se_features_items(b, p, rest);
        assert(seq![vs[0]] + rest =~= vs);
    }
}

pub proof fn lemma_sd_se_features(b: Seq<u8>, i: int, vs: Seq<StrategyFeatureV>)
    requires
        0 <= i,
        wf_features(vs),
        i + se_features(vs).len() <= b.len(),
        b.subrange(i, i + se_features(vs).len()) == se_features(vs),
    ensures
        sd_features(b, i) == Some((vs, i + se_features(vs).len())),
{
    lemma_split_at(b, i, se_u64(vs.len() as u64), se_features_items(vs));
    lemma_sd_se_u64(b, i, vs.len() as u64);
    lemma_sd_se_features_items(b, i + 8, vs);
}

proof fn lemma_features_items_snoc(vs: Seq<StrategyFeatureV>, k: int)
    requires
        0 <= k < vs.len(),
    ensures
        se_features_items(vs.subrange(0, k + 1)) == se_features_items(vs.subrange(0, k))
            + se_feature(vs[k]),
    decreases k,
{
    if k == 0 {
        let s1 = vs.subrange(0, 1);
        let s0 = vs.subrange(0, 0);
        assert(s1.len() == 1 && s1[0] == vs[0]);
        assert(s1.drop_first() =~= Seq::<StrategyFeatureV>::empty());
        assert(se_features_items(s1.drop_first()) =~= Seq::<u8>::empty());
        assert(se_features_items(s1) =~= se_feature(vs[0]) + se_features_items(s1.drop_first()));
        assert(se_features_items(s0) =~= Seq::<u8>::empty());
        assert(se_features_items(s1) =~= se_features_items(s0) + se_feature(vs[0]));
    } else {
        let a = vs.subrange(0, k + 1);
        let c = vs.subrange(0, k);
        assert(a.drop_first() =~= vs.drop_first().subrange(0, k));
        assert(c.drop_first() =~= vs.drop_first().subrange(0, k - 1));
        lemma_features_items_snoc(vs.drop_first(), k - 1);
        assert(vs.drop_first()[k - 1] == vs[k]);
        assert(se_features_items(a) == se_feature(a[0]) + se_features_items(a.drop_first()));
        assert(se_features_items(c) == se_feature(c[0]) + se_features_items(c.drop_first()));
        assert(se_feature(vs[0]) + (se_features_items(vs.drop_first().subrange(0, k - 1))
            + se_feature(vs[k])) =~= (se_feature(vs[0]) + se_features_items(
            vs.drop_first().subrange(0, k - 1),
        )) + se_feature(vs[k]));
    }
}

/// Appends a count-prefixed feature list.
pub fn wr_features(out: &mut Vec<u8>, vs: &Vec<StrategyFeature>)
    ensures
        final(out)@ == old(out)@ + se_features(vs.deep_view()),
{
    wr_u64(out, vs.len() as u64);
    let ghost base = out@;
    let mut k: usize = 0;
    while k < vs.len()
        invariant
            0 <= k <= vs@.len(),
            vs.deep_view().len() == vs@.len(),
            out@ == base + se_features_items(vs.deep_view().subrange(0, k as int)),
        decreases vs@.len() - k,
    {
        let ghost before = out@;
        wr_str(out, vs[k].feature_name.as_str());
        wr_strategies(out, &vs[k].strategies);
        proof {
            lemma_features_items_snoc(vs.deep_view(), k as int);
            assert(vs.deep_view()[k as int] == vs@[k as int]@);
            assert(out@ =~= before + se_feature(vs.deep_view()[k as int]));
            assert(out@ =~= base + se_features_items(vs.deep_view().subrange(0, k + 1)));
        }
        k = k + 1;
    }
    proof {
        assert(vs.deep_view().subrange(0, vs.deep_view().len() as int) =~= vs.deep_view());
        assert(out@ =~= old(out)@ + se_features(vs.deep_view()));
    }
}

/// Reads a count-prefixed feature list, exactly as `sd_features` describes.
pub fn rd_features(b: &[u8], pos: usize) -> (r: Option<(Vec<StrategyFeature>, usize)>)
    ensures
        match r {
            Some(vp) => sd_features(b@, pos as int) == Some((vp.0.deep_view(), vp.1 as int))
                && vp.1 <= b@.len(),
            None => sd_features(b@, pos as int) is None,
        },
{
    let (n, start) = match rd_u64(b, pos) {
        Some(x) => x,
        None => { return None },
    };
    let mut acc: Vec<StrategyFeature> = Vec::new();
    let mut cur: usize = start;
    let mut k: u64 = 0;
    while k < n
        invariant
            0 <= k <= n,
            cur <= b@.len(),
            acc.deep_view().len() == k,
            sd_u64(b@, pos as int) == Some((n, start as int)),
            sd_features_items(b@, start as int, n as nat) == match sd_features_items(
                b@,
                cur as int,
                (n - k) as nat,
            ) {
                Some((rest, q)) => Some((acc.deep_view() + rest, q)),
                None => None::<(Seq<StrategyFeatureV>, int)>,
            },
        decreases n - k,
    {
        let (feature_name, p1) = match rd_str(b, cur) {
            Some(x) => x,
            None => {
                proof {
                    assert(sd_feature(b@, cur as int) is None);
                    assert(sd_features_items(b@, cur as int, (n - k) as nat) is None);
                }
                return None
            },
        };
        let (strategies, p2) = match rd_strategies(b, p1) {
            Some(x) => x,
            None => {
                proof {
                    assert(sd_feature(b@, cur as int) is None);
                    assert(sd_features_items(b@, cur as int, (n - k) as nat) is None);
                }
                return None
            },
        };
        let e = StrategyFeature { feature_name, strategies };
        proof {
            assert(sd_feature(b@, cur as int) == Some((e@, p2 as int)));
        }
        let ghost old_acc = acc.deep_view();
        acc.push(e);
        proof {
            assert(acc.deep_view() =~= old_acc.push(acc@[k as int]@));
            assert forall|rest: Seq<StrategyFeatureV>|
                true implies old_acc + (seq![acc@[k as int]@] + rest) =~= acc.deep_view()
                + rest by {}
        }
        cur = p2;
        k = k + 1;
    }
    proof {
        assert(acc.deep_view() + Seq::<StrategyFeatureV>::empty() =~= acc.deep_view());
    }
    Some((acc, cur))
}

// ---------------------------------------------------------------------------
// The whole take-state response
// ---------------------------------------------------------------------------
/// A decoded state-ingestion response.
pub struct TakeStateResponse {
    pub features: Vec<StrategyFeature>,
    pub warnings: Vec<String>,
    pub error: Option<String>,
}

/// The mathematical shape of a state-ingestion response.
pub struct TakeStateResponseV {
    pub features: Seq<StrategyFeatureV>,
    pub warnings: Seq<Seq<char>>,
    pub error: Option<Seq<char>>,
}

impl View for TakeStateResponse {
    type V = TakeStateResponseV;

    open spec fn view(&self) -> TakeStateResponseV {
        TakeStateResponseV {
            features: self.features.deep_view(),
            warnings: self.warnings.deep_view(),
            error: self.error.deep_view(),
        }
    }
}

/// The texts of a sequence of warnings.
pub open spec fn spec_warning_texts(ws: Seq<(Seq<char>, Seq<char>)>) -> Seq<Seq<char>> {
    ws.map_values(|w: (Seq<char>, Seq<char>)| spec_warning_text(w))
}

/// The response a state-ingestion outcome denotes: on success the snapshot
/// and the formatted warnings; on failure only the error text.
pub open spec fn spec_take_state_response(r: Result<TakeStateResult, FlatError>) -> TakeStateResponseV {
    match r {
        Ok(t) => TakeStateResponseV {
            features: t.feature_strategies_map.deep_view(),
            warnings: spec_warning_texts(t.warnings.deep_view()),
            error: t.error.deep_view(),
        },
        Err(e) => TakeStateResponseV {
            features: Seq::empty(),
            warnings: Seq::empty(),
            error: Some(spec_error_message(e)),
        },
    }
}

/// The wire bytes of a state-ingestion response.
pub open spec fn se_take_state_response(v: TakeStateResponseV) -> Seq<u8> {
    se_features(v.features) + se_str_list(v.warnings) + se_opt_str(v.error)
}

pub open spec fn wf_take_state_response(v: TakeStateResponseV) -> bool {
    wf_features(v.features) && wf_str_list(v.warnings) && wf_opt_str(v.error)
}

/// Decoding a state-ingestion response at `i`.
pub open spec fn sd_take_state_response(b: Seq<u8>, i: int) -> Option<(TakeStateResponseV, int)> {
    match sd_features(b, i) {
        Some((features, p1)) => match sd_str_list(b, p1) {
            Some((warnings, p2)) => match sd_opt_str(b, p2) {
                Some((error, p3)) => Some((TakeStateResponseV { features, warnings, error }, p3)),
                None => None,
            },
            None => None,
        },
        None => None,
    }
}

/// Decoding an encoded state-ingestion response yields the response back.
pub proof fn lemma_sd_se_take_state_response(b: Seq<u8>, i: int, v: TakeStateResponseV)
    requires
        0 <= i,
        wf_take_state_response(v),
        i + se_take_state_response(v).len() <= b.len(),
        b.subrange(i, i + se_take_state_response(v).len()) == se_take_state_response(v),
    ensures
        sd_take_state_response(b, i) == Some((v, i + se_take_state_response(v).len())),
{
    let e1 = se_features(v.features);
    let e2 = se_str_list(v.warnings);
    let e3 = se_opt_str(v.error);
    let a1 = e1;
    let a2 = a1 + e2;
    lemma_split_at(b, i, a2, e3);
    lemma_split_at(b, i, a1, e2);
    lemma_sd_se_features(b, i, v.features);
    lemma_sd_se_str_list(b, i + a1.len(), v.warnings);
    lemma_sd_se_opt_str(b, i + a2.len(), v.error);
}

/// Encodes a state-ingestion outcome, exactly as `spec_take_state_response`
/// and `se_take_state_response` describe.
pub fn encode_take_state_response(r: &Result<TakeStateResult, FlatError>) -> (out: Vec<u8>)
    ensures
        out@ == se_take_state_response(spec_take_state_response(*r)),
{
    let mut out: Vec<u8> = Vec::new();
    match r {
        Ok(t) => {
            wr_features(&mut out, &t.feature_strategies_map);
            let mut texts: Vec<String> = Vec::new();
            let mut k: usize = 0;
            while k < t.warnings.len()
                invariant
                    0 <= k <= t.warnings@.len(),
                    t.warnings.deep_view().len() == t.warnings@.len(),
                    texts.deep_view().len() == k,
                    forall|j: int|
                        0 <= j < k ==> texts.deep_view()[j] == spec_warning_text(
                            #[trigger] t.warnings.deep_view()[j],
                        ),
                decreases t.warnings@.len() - k,
            {
                let w = format_warning(&t.warnings[k]);
                texts.push(w);
                k = k + 1;
            }
            proof {
                assert(texts.deep_view() =~= spec_warning_texts(t.warnings.deep_view()));
            }
            wr_str_list(&mut out, &texts);
            wr_opt_str(&mut out, &t.error);
        },
        Err(e) => {
            let empty_features: Vec<StrategyFeature> = Vec::new();
            wr_features(&mut out, &empty_features);
            let empty_warnings: Vec<String> = Vec::new();
            wr_str_list(&mut out, &empty_warnings);
            let msg = e.message();
            wr_opt_str(&mut out, &Some(msg));
        },
    }
    proof {
        assert(out@ =~= se_take_state_response(spec_take_state_response(*r)));
    }
    out
}

/// Decodes a state-ingestion response. The whole input must be consumed.
pub fn decode_take_state_response(b: &[u8]) -> (r: Option<TakeStateResponse>)
    ensures
        match r {
            Some(v) => sd_take_state_response(b@, 0) == Some((v@, b@.len() as int)),
            None => match sd_take_state_response(b@, 0) {
                Some((_v, p)) => p != b@.len(),
                None => true,
            },
        },
{
    let (features, p1) = match rd_features(b, 0) {
        Some(x) => x,
        None => { return None },
    };
    let (warnings, p2) = match rd_str_list(b, p1) {
        Some(x) => x,
        None => { return None },
    };
    let (error, p3) = match rd_opt_str(b, p2) {
        Some(x) => x,
        None => { return None },
    };
    if p3 != b.len() {
        return None;
    }
    Some(TakeStateResponse { features, warnings, error })
}

} // verus!

verus! {

/// Law: a rejected ingestion reports a non-empty error and no snapshot, and
/// a successful one reports no error at all: the error field alone tells the
/// caller which happened.
pub proof fn lemma_take_state_error_is_populated(m: String)
    ensures
        ({
            let v = spec_take_state_response(Err(FlatError::InvalidState(m)));
            &&& v.error matches Some(t) && t.len() > 0
            &&& v.features.len() == 0
            &&& v.warnings.len() == 0
        }),
{
    reveal_strlit("Invalid state: ");
}

} // verus!

verus! {

// ---------------------------------------------------------------------------
// A canonical order for the snapshot's parameter maps
// ---------------------------------------------------------------------------
/// Lexicographic order on byte strings, compared from position `i` on.
pub open spec fn bytes_le_from(a: Seq<u8>, b: Seq<u8>, i: int) -> bool
    decreases a.len() - i,
{
    if i < 0 || i >= a.len() {
        true
    } else if i >= b.len() {
        false
    } else if a[i] < b[i] {
        true
    } else if a[i] > b[i] {
        false
    } else {
        bytes_le_from(a, b, i + 1)
    }
}

/// Lexicographic order on byte strings.
pub open spec fn bytes_le(a: Seq<u8>, b: Seq<u8>) -> bool {
    bytes_le_from(a, b, 0)
}

/// Order on parameter entries: by key, in UTF-8 byte order.
pub open spec fn param_le(a: (Seq<char>, Seq<char>), b: (Seq<char>, Seq<char>)) -> bool {
    bytes_le(vstd::utf8::encode_utf8(a.0), vstd::utf8::encode_utf8(b.0))
}

/// Compares two strings in UTF-8 byte order, exactly as `bytes_le` describes.
fn leq_key(a: &str, b: &str) -> (r: bool)
    ensures
        r == bytes_le(vstd::utf8::encode_utf8(a@), vstd::utf8::encode_utf8(b@)),
{
    let ab = a.as_bytes();
    let bb = b.as_bytes();
    let mut i: usize = 0;
    while i < ab.len() && i < bb.len() && ab[i] == bb[i]
        invariant
            0 <= i <= ab@.len(),
            i <= bb@.len(),
            ab@ == vstd::utf8::encode_utf8(a@),
            bb@ == vstd::utf8::encode_utf8(b@),
            bytes_le(ab@, bb@) == bytes_le_from(ab@, bb@, i as int),
        decreases ab@.len() - i,
    {
        i = i + 1;
    }
    if i >= ab.len() {
        true
    } else if i >= bb.len() {
        false
    } else {
        ab[i] < bb[i]
    }
}

/// Insertion of an entry into a parameter list, before the first entry it
/// does not come after.
pub open spec fn spec_param_insert(
    s: Seq<(Seq<char>, Seq<char>)>,
    x: (Seq<char>, Seq<char>),
) -> Seq<(Seq<char>, Seq<char>)>
    decreases s.len(),
{
    if s.len() == 0 {
        seq![x]
    } else if param_le(x, s[0]) {
        seq![x] + s
    } else {
        seq![s[0]] + spec_param_insert(s.drop_first(), x)
    }
}

/// Insertion sort of a parameter list, entry by entry from the front.
pub open spec fn spec_sort_params_from(
    acc: Seq<(Seq<char>, Seq<char>)>,
    s: Seq<(Seq<char>, Seq<char>)>,
) -> Seq<(Seq<char>, Seq<char>)>
    decreases s.len(),
{
    if s.len() == 0 {
        acc
    } else {
        spec_sort_params_from(spec_param_insert(acc, s[0]), s.drop_first())
    }
}

/// The canonical order of a parameter map on the wire: its entries sorted by
/// key, in UTF-8 byte order.
pub open spec fn spec_sort_params(s: Seq<(Seq<char>, Seq<char>)>) -> Seq<(Seq<char>, Seq<char>)> {
    spec_sort_params_from(Seq::empty(), s)
}

/// Inserting before the first entry `x` comes before lands it at exactly the
/// scanned position.
proof fn lemma_param_insert_at(s: Seq<(Seq<char>, Seq<char>)>, x: (Seq<char>, Seq<char>), k: int)
    requires
        0 <= k <= s.len(),
        forall|m: int| 0 <= m < k ==> !param_le(x, #[trigger] s[m]),
        k < s.len() ==> param_le(x, s[k]),
    ensures
        spec_param_insert(s, x) == s.subrange(0, k) + seq![x] + s.subrange(k, s.len() as int),
    decreases k,
{
    if k == 0 {
        if s.len() == 0 {
            assert(spec_param_insert(s, x) =~= s.subrange(0, 0) + seq![x] + s.subrange(
                0,
                s.len() as int,
            ));
        } else {
            assert(spec_param_insert(s, x) =~= s.subrange(0, 0) + seq![x] + s.subrange(
                0,
                s.len() as int,
            ));
        }
    } else {
        let rest = s.drop_first();
        assert(!param_le(x, s[0]));
        assert forall|m: int| 0 <= m < k - 1 implies !param_le(x, #[trigger] rest[m]) by {
            assert(rest[m] == s[m + 1]);
        }
        assert(k - 1 < rest.len() ==> param_le(x, rest[k - 1]));
        lemma_param_insert_at(rest, x, k - 1);
        assert(seq![s[0]] + (rest.subrange(0, k - 1) + seq![x] + rest.subrange(
            k - 1,
            rest.len() as int,
        )) =~= s.subrange(0, k) + seq![x] + s.subrange(k, s.len() as int));
    }
}

/// Inserts one entry at its canonical position, exactly as
/// `spec_param_insert` describes.
fn insert_param(acc: &mut Vec<(String, String)>, x: (String, String))
    ensures
        final(acc).deep_view() == spec_param_insert(old(acc).deep_view(), (x.0@, x.1@)),
{
    let ghost dv = acc.deep_view();
    let ghost xv = (x.0@, x.1@);
    let mut k: usize = 0;
    let mut stop = false;
    while k < acc.len() && !stop
        invariant
            0 <= k <= acc@.len(),
            acc.deep_view() == dv,
            acc.deep_view().len() == acc@.len(),
            xv == (x.0@, x.1@),
            forall|m: int| 0 <= m < k ==> !param_le(xv, #[trigger] dv[m]),
            stop ==> k < acc@.len() && param_le(xv, dv[k as int]),
        decreases acc@.len() - k, if stop { 0int } else { 1int },
    {
        proof {
            assert(dv[k as int] == (acc@[k as int].0@, acc@[k as int].1@));
        }
        let le = leq_key(x.0.as_str(), acc[k].0.as_str());
        proof {
            assert(param_le(xv, dv[k as int]) == le);
        }
        if le {
            stop = true;
        } else {
            k = k + 1;
        }
    }
    proof {
        lemma_param_insert_at(dv, xv, k as int);
    }
    acc.insert(k, x);
    proof {
        assert(acc.deep_view() =~~= dv.subrange(0, k as int) + seq![xv] + dv.subrange(
            k as int,
            dv.len() as int,
        ));
    }
}

/// Sorts a parameter map's entries by key, in UTF-8 byte order, exactly as
/// `spec_sort_params` describes.
pub fn sort_params(ps: Vec<(String, String)>) -> (r: Vec<(String, String)>)
    ensures
        r.deep_view() == spec_sort_params(ps.deep_view()),
{
    let ghost total = ps.deep_view();
    let mut rest = ps;
    let mut acc: Vec<(String, String)> = Vec::new();
    while rest.len() > 0
        invariant
            spec_sort_params_from(acc.deep_view(), rest.deep_view()) == spec_sort_params_from(
                Seq::empty(),
                total,
            ),
        decreases rest@.len(),
    {
        let ghost before = rest.deep_view();
        let x = rest.remove(0);
        proof {
            assert(rest.deep_view() =~= before.drop_first());
            assert(before[0] == (x.0@, x.1@));
        }
        insert_param(&mut acc, x);
    }
    acc
}

/// Order on strategies: by name, in UTF-8 byte order.
pub open spec fn strategy_le(a: StrategyDefinitionV, b: StrategyDefinitionV) -> bool {
    bytes_le(vstd::utf8::encode_utf8(a.name), vstd::utf8::encode_utf8(b.name))
}

/// Insertion of a strategy into a list, before the first one it does not
/// come after.
pub open spec fn spec_strategy_insert(
    s: Seq<StrategyDefinitionV>,
    x: StrategyDefinitionV,
) -> Seq<StrategyDefinitionV>
    decreases s.len(),
{
    if s.len() == 0 {
        seq![x]
    } else if strategy_le(x, s[0]) {
        seq![x] + s
    } else {
        seq![s[0]] + spec_strategy_insert(s.drop_first(), x)
    }
}

pub open spec fn spec_sort_strategies_from(
    acc: Seq<StrategyDefinitionV>,
    s: Seq<StrategyDefinitionV>,
) -> Seq<StrategyDefinitionV>
    decreases s.len(),
{
    if s.len() == 0 {
        acc
    } else {
        spec_sort_strategies_from(spec_strategy_insert(acc, s[0]), s.drop_first())
    }
}

/// The canonical order of a feature's strategies: sorted by name.
pub open spec fn spec_sort_strategies(s: Seq<StrategyDefinitionV>) -> Seq<StrategyDefinitionV> {
    spec_sort_strategies_from(Seq::empty(), s)
}

proof fn lemma_strategy_insert_at(s: Seq<StrategyDefinitionV>, x: StrategyDefinitionV, k: int)
    requires
        0 <= k <= s.len(),
        forall|m: int| 0 <= m < k ==> !strategy_le(x, #[trigger] s[m]),
        k < s.len() ==> strategy_le(x, s[k]),
    ensures
        spec_strategy_insert(s, x) == s.subrange(0, k) + seq![x] + s.subrange(k, s.len() as int),
    decreases k,
{
    if k == 0 {
        assert(spec_strategy_insert(s, x) =~= s.subrange(0, 0) + seq![x] + s.subrange(
            0,
            s.len() as int,
        ));
    } else {
        let rest = s.drop_first();
        assert forall|m: int| 0 <= m < k - 1 implies !strategy_le(x, #[trigger] rest[m]) by {
            assert(rest[m] == s[m + 1]);
        }
        lemma_strategy_insert_at(rest, x, k - 1);
        assert(seq![s[0]] + (rest.subrange(0, k - 1) + seq![x] + rest.subrange(
            k - 1,
            rest.len() as int,
        )) =~= s.subrange(0, k) + seq![x] + s.subrange(k, s.len() as int));
    }
}

fn insert_strategy(acc: &mut Vec<StrategyDefinition>, x: StrategyDefinition)
    ensures
        final(acc).deep_view() == spec_strategy_insert(old(acc).deep_view(), x@),
{
    let ghost dv = acc.deep_view();
    let ghost xv = x@;
    let mut k: usize = 0;
    let mut stop = false;
    while k < acc.len() && !stop
        invariant
            0 <= k <= acc@.len(),
            acc.deep_view() == dv,
            acc.deep_view().len() == acc@.len(),
            xv == x@,
            forall|m: int| 0 <= m < k ==> !strategy_le(xv, #[trigger] dv[m]),
            stop ==> k < acc@.len() && strategy_le(xv, dv[k as int]),
        decreases acc@.len() - k, if stop { 0int } else { 1int },
    {
        proof {
            assert(dv[k as int] == acc@[k as int]@);
        }
        let le = leq_key(x.name.as_str(), acc[k].name.as_str());
        proof {
            assert(strategy_le(xv, dv[k as int]) == le);
        }
        if le {
            stop = true;
        } else {
            k = k + 1;
        }
    }
    proof {
        lemma_strategy_insert_at(dv, xv, k as int);
    }
    acc.insert(k, x);
    proof {
        assert(acc.deep_view() =~~= dv.subrange(0, k as int) + seq![xv] + dv.subrange(
            k as int,
            dv.len() as int,
        ));
    }
}

/// Sorts a feature's strategies by name, exactly as `spec_sort_strategies`
/// describes.
pub fn sort_strategies(vs: Vec<StrategyDefinition>) -> (r: Vec<StrategyDefinition>)
    ensures
        r.deep_view() == spec_sort_strategies(vs.deep_view()),
{
    let ghost total = vs.deep_view();
    let mut rest = vs;
    let mut acc: Vec<StrategyDefinition> = Vec::new();
    while rest.len() > 0
        invariant
            spec_sort_strategies_from(acc.deep_view(), rest.deep_view())
                == spec_sort_strategies_from(Seq::empty(), total),
        decreases rest@.len(),
    {
        let ghost before = rest.deep_view();
        let x = rest.remove(0);
        proof {
            assert(rest.deep_view() =~= before.drop_first());
            assert(before[0] == x@);
        }
        insert_strategy(&mut acc, x);
    }
    acc
}

/// Order on feature snapshot entries: by feature name, in UTF-8 byte order.
pub open spec fn feature_le(a: StrategyFeatureV, b: StrategyFeatureV) -> bool {
    bytes_le(vstd::utf8::encode_utf8(a.feature_name), vstd::utf8::encode_utf8(b.feature_name))
}

/// Insertion of a feature into a list, before the first one it does not come
/// after.
pub open spec fn spec_feature_insert(
    s: Seq<StrategyFeatureV>,
    x: StrategyFeatureV,
) -> Seq<StrategyFeatureV>
    decreases s.len(),
{
    if s.len() == 0 {
        seq![x]
    } else if feature_le(x, s[0]) {
        seq![x] + s
    } else {
        seq![s[0]] + spec_feature_insert(s.drop_first(), x)
    }
}

pub open spec fn spec_sort_features_from(
    acc: Seq<StrategyFeatureV>,
    s: Seq<StrategyFeatureV>,
) -> Seq<StrategyFeatureV>
    decreases s.len(),
{
    if s.len() == 0 {
        acc
    } else {
        spec_sort_features_from(spec_feature_insert(acc, s[0]), s.drop_first())
    }
}

/// The canonical order of the snapshot's features: sorted by name.
pub open spec fn spec_sort_features(s: Seq<StrategyFeatureV>) -> Seq<StrategyFeatureV> {
    spec_sort_features_from(Seq::empty(), s)
}

proof fn lemma_feature_insert_at(s: Seq<StrategyFeatureV>, x: StrategyFeatureV, k: int)
    requires
        0 <= k <= s.len(),
        forall|m: int| 0 <= m < k ==> !feature_le(x, #[trigger] s[m]),
        k < s.len() ==> feature_le(x, s[k]),
    ensures
        spec_feature_insert(s, x) == s.subrange(0, k) + seq![x] + s.subrange(k, s.len() as int),
    decreases k,
{
    if k == 0 {
        assert(spec_feature_insert(s, x) =~= s.subrange(0, 0) + seq![x] + s.subrange(
            0,
            s.len() as int,
        ));
    } else {
        let rest = s.drop_first();
        assert forall|m: int| 0 <= m < k - 1 implies !feature_le(x, #[trigger] rest[m]) by {
            assert(rest[m] == s[m + 1]);
        }
        lemma_feature_insert_at(rest, x, k - 1);
        assert(seq![s[0]] + (rest.subrange(0, k - 1) + seq![x] + rest.subrange(
            k - 1,
            rest.len() as int,
        )) =~= s.subrange(0, k) + seq![x] + s.subrange(k, s.len() as int));
    }
}

fn insert_feature(acc: &mut Vec<StrategyFeature>, x: StrategyFeature)
    ensures
        final(acc).deep_view() == spec_feature_insert(old(acc).deep_view(), x@),
{
    let ghost dv = acc.deep_view();
    let ghost xv = x@;
    let mut k: usize = 0;
    let mut stop = false;
    while k < acc.len() && !stop
        invariant
            0 <= k <= acc@.len(),
            acc.deep_view() == dv,
            acc.deep_view().len() == acc@.len(),
            xv == x@,
            forall|m: int| 0 <= m < k ==> !feature_le(xv, #[trigger] dv[m]),
            stop ==> k < acc@.len() && feature_le(xv, dv[k as int]),
        decreases acc@.len() - k, if stop { 0int } else { 1int },
    {
        proof {
            assert(dv[k as int] == acc@[k as int]@);
        }
        let le = leq_key(x.feature_name.as_str(), acc[k].feature_name.as_str());
        proof {
            assert(feature_le(xv, dv[k as int]) == le);
        }
        if le {
            stop = true;
        } else {
            k = k + 1;
        }
    }
    proof {
        lemma_feature_insert_at(dv, xv, k as int);
    }
    acc.insert(k, x);
    proof {
        assert(acc.deep_view() =~~= dv.subrange(0, k as int) + seq![xv] + dv.subrange(
            k as int,
            dv.len() as int,
        ));
    }
}

/// Sorts the snapshot's features by name, exactly as `spec_sort_features`
/// describes.
pub fn sort_features(vs: Vec<StrategyFeature>) -> (r: Vec<StrategyFeature>)
    ensures
        r.deep_view() == spec_sort_features(vs.deep_view()),
{
    let ghost total = vs.deep_view();
    let mut rest = vs;
    let mut acc: Vec<StrategyFeature> = Vec::new();
    while rest.len() > 0
        invariant
            spec_sort_features_from(acc.deep_view(), rest.deep_view())
                == spec_sort_features_from(Seq::empty(), total),
        decreases rest@.len(),
    {
        let ghost before = rest.deep_view();
        let x = rest.remove(0);
        proof {
            assert(rest.deep_view() =~= before.drop_first());
            assert(before[0] == x@);
        }
        insert_feature(&mut acc, x);
    }
    acc
}

/// A strategy with its parameter map in canonical order.
pub open spec fn spec_canonical_strategy(sd: StrategyDefinitionV) -> StrategyDefinitionV {
    StrategyDefinitionV { name: sd.name, parameters: spec_sort_params(sd.parameters) }
}

/// A feature snapshot entry in canonical order: its strategies sorted by
/// name, each with its parameter map sorted by key.
pub open spec fn spec_canonical_feature(f: StrategyFeatureV) -> StrategyFeatureV {
    StrategyFeatureV {
        feature_name: f.feature_name,
        strategies: spec_sort_strategies(
            f.strategies.map_values(|sd: StrategyDefinitionV| spec_canonical_strategy(sd)),
        ),
    }
}

/// A whole snapshot in canonical order: features sorted by name, and each
/// feature canonical in turn.
pub open spec fn spec_canonical_snapshot(fs: Seq<StrategyFeatureV>) -> Seq<StrategyFeatureV> {
    spec_sort_features(fs.map_values(|f: StrategyFeatureV| spec_canonical_feature(f)))
}

/// Puts a snapshot into canonical order: features sorted by name, strategies
/// by name within each feature, parameters by key within each strategy.
pub fn canonicalize_snapshot(features: Vec<StrategyFeature>) -> (r: Vec<StrategyFeature>)
    ensures
        r.deep_view() == spec_canonical_snapshot(features.deep_view()),
{
    let ghost total = features.deep_view();
    let mut rest = features;
    let mut out: Vec<StrategyFeature> = Vec::new();
    while rest.len() > 0
        invariant
            out.deep_view().len() + rest.deep_view().len() == total.len(),
            rest.deep_view() == total.subrange(
                out.deep_view().len() as int,
                total.len() as int,
            ),
            forall|m: int|
                0 <= m < out.deep_view().len() ==> out.deep_view()[m] == spec_canonical_feature(
                    #[trigger] total[m],
                ),
        decreases rest@.len(),
    {
        let ghost before = rest.deep_view();
        let f = rest.remove(0);
        proof {
            assert(rest.deep_view() =~= before.drop_first());
            assert(before[0] == f@);
        }
        let ghost strategies_total = f.strategies.deep_view();
        let mut srest = f.strategies;
        let mut sout: Vec<StrategyDefinition> = Vec::new();
        while srest.len() > 0
            invariant
                sout.deep_view().len() + srest.deep_view().len() == strategies_total.len(),
                srest.deep_view() == strategies_total.subrange(
                    sout.deep_view().len() as int,
                    strategies_total.len() as int,
                ),
                forall|m: int|
                    0 <= m < sout.deep_view().len() ==> sout.deep_view()[m]
                        == spec_canonical_strategy(#[trigger] strategies_total[m]),
            decreases srest@.len(),
        {
            let ghost sbefore = srest.deep_view();
            let sd = srest.remove(0);
            proof {
                assert(srest.deep_view() =~= sbefore.drop_first());
                assert(sbefore[0] == sd@);
            }
            let sorted = sort_params(sd.parameters);
            sout.push(StrategyDefinition { name: sd.name, parameters: sorted });
        }
        proof {
            assert(sout.deep_view() =~= strategies_total.map_values(
                |sd: StrategyDefinitionV| spec_canonical_strategy(sd),
            ));
        }
        let sorted_strategies = sort_strategies(sout);
        out.push(StrategyFeature { feature_name: f.feature_name, strategies: sorted_strategies });
    }
    proof {
        assert(out.deep_view() =~= total.map_values(
            |f: StrategyFeatureV| spec_canonical_feature(f),
        ));
    }
    sort_features(out)
}

} // verus!
