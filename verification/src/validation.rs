//! The structural validation rules of a basket manifest.
use vstd::prelude::*;

use crate::manifest::{BasketManifest, BasketManifestView, ConstituentView};
use crate::text::{is_ascii_digit, is_ascii_uppercase};

verus! {

/// Total weight in basis points that a valid basket must sum to.
pub const TOTAL_WEIGHT_BPS: u32 = 10_000;

/// Maximum allowed fee, in basis points (10000 = 100%). Any individual fee
/// above this is rejected — a sanity bound, well above any realistic value.
pub const MAX_FEE_BPS: u32 = 10_000;

/// Maximum allowed drift threshold, in basis points. A threshold above this
/// would effectively disable rebalancing.
pub const MAX_DRIFT_THRESHOLD_BPS: u32 = 5_000;

/// Largest accepted value of `basket_faucet_decimals`.
pub const MAX_BASKET_FAUCET_DECIMALS: u8 = 18;

/// Why a manifest failed validation.
#[derive(Debug, PartialEq, Eq)]
pub enum ValidationError {
    /// The basket has no constituents.
    NoConstituents,
    /// A faucet alias occurs a second time.
    DuplicateConstituent(String),
    /// A constituent has target weight 0.
    ZeroWeight { alias: String },
    /// The constituent weights do not sum to the required total.
    WeightSumMismatch { sum: u32, expected: u32 },
    /// A fee exceeds the maximum.
    FeeOutOfRange { field: &'static str, value: u32, max: u32 },
    /// The drift threshold is 0 or exceeds the maximum.
    DriftOutOfRange { value: u32, max: u32 },
    /// The symbol is not 1-5 ASCII uppercase characters.
    InvalidSymbol(String),
    /// The version is not a `major.minor.patch` tag of digits.
    InvalidVersion(String),
    /// `basket_faucet_decimals` exceeds 18.
    DecimalsOutOfRange(u8),
}

/// The mathematical value of a [`ValidationError`]: its strings as
/// character sequences.
pub enum ValidationFailure {
    NoConstituents,
    DuplicateConstituent(Seq<char>),
    ZeroWeight { alias: Seq<char> },
    WeightSumMismatch { sum: nat, expected: nat },
    FeeOutOfRange { field: Seq<char>, value: u32, max: u32 },
    DriftOutOfRange { value: u32, max: u32 },
    InvalidSymbol(Seq<char>),
    InvalidVersion(Seq<char>),
    DecimalsOutOfRange(u8),
}

impl View for ValidationError {
    type V = ValidationFailure;

    open spec fn view(&self) -> ValidationFailure {
        match self {
            ValidationError::NoConstituents => ValidationFailure::NoConstituents,
            ValidationError::DuplicateConstituent(a) => ValidationFailure::DuplicateConstituent(
                a@,
            ),
            ValidationError::ZeroWeight { alias } => ValidationFailure::ZeroWeight {
                alias: alias@,
            },
            ValidationError::WeightSumMismatch { sum, expected } =>
                ValidationFailure::WeightSumMismatch { sum: *sum as nat, expected: *expected as nat },
            ValidationError::FeeOutOfRange { field, value, max } =>
                ValidationFailure::FeeOutOfRange { field: field@, value: *value, max: *max },
            ValidationError::DriftOutOfRange { value, max } => ValidationFailure::DriftOutOfRange {
                value: *value,
                max: *max,
            },
            ValidationError::InvalidSymbol(s) => ValidationFailure::InvalidSymbol(s@),
            ValidationError::InvalidVersion(s) => ValidationFailure::InvalidVersion(s@),
            ValidationError::DecimalsOutOfRange(d) => ValidationFailure::DecimalsOutOfRange(*d),
        }
    }
}

/// The mathematical value of the result of a validation step.
pub open spec fn outcome(r: Result<(), ValidationError>) -> Result<(), ValidationFailure> {
    match r {
        Ok(()) => Ok(()),
        Err(e) => Err(e@),
    }
}

/// Sum of the target weights of `cs`.
pub open spec fn weight_sum(cs: Seq<ConstituentView>) -> nat
    decreases cs.len(),
{
    if cs.len() == 0 {
        0
    } else {
        weight_sum(cs.drop_last()) + cs.last().target_weight_bps as nat
    }
}

/// The faucet alias of `cs[i]` already occurs at an earlier index.
pub open spec fn alias_seen_before(cs: Seq<ConstituentView>, i: int) -> bool {
    exists|j: int| 0 <= j < i && cs[j].faucet_alias == #[trigger] cs[i].faucet_alias
}

/// The first failure among the constituents from index `i` on: walking in
/// order, a constituent whose alias occurred earlier is a duplicate, else one
/// with weight 0 is a zero weight.
pub open spec fn first_constituent_failure(cs: Seq<ConstituentView>, i: int) -> Option<
    ValidationFailure,
>
    decreases cs.len() - i,
{
    if i < 0 || i >= cs.len() {
        None
    } else if alias_seen_before(cs, i) {
        Some(ValidationFailure::DuplicateConstituent(cs[i].faucet_alias))
    } else if cs[i].target_weight_bps == 0 {
        Some(ValidationFailure::ZeroWeight { alias: cs[i].faucet_alias })
    } else {
        first_constituent_failure(cs, i + 1)
    }
}

/// The weight sum as a `u32` reports it: the true sum, or `u32::MAX` when
/// the true sum does not fit.
pub open spec fn reported_weight_sum(cs: Seq<ConstituentView>) -> nat {
    if weight_sum(cs) <= u32::MAX {
        weight_sum(cs)
    } else {
        u32::MAX as nat
    }
}

/// A symbol of 1 to 5 characters, each an ASCII uppercase letter.
pub open spec fn valid_symbol(s: Seq<char>) -> bool {
    1 <= s.len() <= 5 && forall|i: int| 0 <= i < s.len() ==> is_ascii_uppercase(#[trigger] s[i])
}

/// The pieces of `s` between the `'.'` separators, as `str::split('.')`
/// yields them: `k` dots give `k + 1` pieces, empty ones included.
pub open spec fn split_dots(s: Seq<char>) -> Seq<Seq<char>>
    decreases s.len(),
{
    if s.len() == 0 {
        seq![Seq::empty()]
    } else {
        let init = split_dots(s.drop_last());
        if s.last() == '.' {
            init.push(Seq::empty())
        } else {
            init.update(init.len() - 1, init.last().push(s.last()))
        }
    }
}

/// A non-empty run of ASCII digits.
pub open spec fn numeric_component(p: Seq<char>) -> bool {
    p.len() > 0 && forall|k: int| 0 <= k < p.len() ==> is_ascii_digit(#[trigger] p[k])
}

/// A `major.minor.patch` version: exactly three dot-separated components,
/// each a non-empty run of ASCII digits.
pub open spec fn valid_version(s: Seq<char>) -> bool {
    let parts = split_dots(s);
    parts.len() == 3 && forall|j: int| 0 <= j < 3 ==> numeric_component(#[trigger] parts[j])
}

/// The fee check of one fee field.
pub open spec fn fee_outcome(field: Seq<char>, value: u32) -> Result<(), ValidationFailure> {
    if value > MAX_FEE_BPS {
        Err(ValidationFailure::FeeOutOfRange { field, value, max: MAX_FEE_BPS })
    } else {
        Ok(())
    }
}

/// What validating `m` gives: the first failure, the rules taken in this
/// order, or `Ok` when every rule holds.
pub open spec fn spec_validate(m: BasketManifestView) -> Result<(), ValidationFailure> {
    let cs = m.constituents;
    let drift = m.rebalancing.drift_threshold_bps;
    if cs.len() == 0 {
        Err(ValidationFailure::NoConstituents)
    } else if first_constituent_failure(cs, 0) is Some {
        Err(first_constituent_failure(cs, 0)->0)
    } else if weight_sum(cs) != TOTAL_WEIGHT_BPS {
        Err(
            ValidationFailure::WeightSumMismatch {
                sum: reported_weight_sum(cs),
                expected: TOTAL_WEIGHT_BPS as nat,
            },
        )
    } else if fee_outcome("mint_fee_bps"@, m.fees.mint_fee_bps) is Err {
        fee_outcome("mint_fee_bps"@, m.fees.mint_fee_bps)
    } else if fee_outcome("redeem_fee_bps"@, m.fees.redeem_fee_bps) is Err {
        fee_outcome("redeem_fee_bps"@, m.fees.redeem_fee_bps)
    } else if fee_outcome("management_fee_bps_year"@, m.fees.management_fee_bps_year) is Err {
        fee_outcome("management_fee_bps_year"@, m.fees.management_fee_bps_year)
    } else if drift == 0 || drift > MAX_DRIFT_THRESHOLD_BPS {
        Err(ValidationFailure::DriftOutOfRange { value: drift, max: MAX_DRIFT_THRESHOLD_BPS })
    } else if !valid_symbol(m.symbol) {
        Err(ValidationFailure::InvalidSymbol(m.symbol))
    } else if !valid_version(m.version) {
        Err(ValidationFailure::InvalidVersion(m.version))
    } else if m.basket_faucet_decimals > MAX_BASKET_FAUCET_DECIMALS {
        Err(ValidationFailure::DecimalsOutOfRange(m.basket_faucet_decimals))
    } else {
        Ok(())
    }
}

/// Every faucet alias of `cs` occurs once.
pub open spec fn aliases_unique(cs: Seq<ConstituentView>) -> bool {
    forall|a: int, b: int|
        0 <= a < b < cs.len() ==> (#[trigger] cs[a]).faucet_alias != (#[trigger] cs[b]).faucet_alias
}

/// The rules a valid manifest meets, stated each on its own.
pub open spec fn manifest_rules_hold(m: BasketManifestView) -> bool {
    let cs = m.constituents;
    &&& cs.len() > 0
    &&& aliases_unique(cs)
    &&& forall|i: int| 0 <= i < cs.len() ==> (#[trigger] cs[i]).target_weight_bps > 0
    &&& weight_sum(cs) == TOTAL_WEIGHT_BPS
    &&& m.fees.mint_fee_bps <= MAX_FEE_BPS
    &&& m.fees.redeem_fee_bps <= MAX_FEE_BPS
    &&& m.fees.management_fee_bps_year <= MAX_FEE_BPS
    &&& 0 < m.rebalancing.drift_threshold_bps <= MAX_DRIFT_THRESHOLD_BPS
    &&& valid_symbol(m.symbol)
    &&& valid_version(m.version)
    &&& m.basket_faucet_decimals <= MAX_BASKET_FAUCET_DECIMALS
}

/// The sum of a prefix never exceeds the sum of the whole.
pub proof fn lemma_weight_sum_prefix_le(cs: Seq<ConstituentView>, k: int)
    requires
        0 <= k <= cs.len(),
    ensures
        weight_sum(cs.take(k)) <= weight_sum(cs),
    decreases cs.len() - k,
{
    if k < cs.len() {
        lemma_weight_sum_prefix_le(cs, k + 1);
        assert(cs.take(k + 1).drop_last() =~= cs.take(k));
    } else {
        assert(cs.take(k) =~= cs);
    }
}

/// No constituent from index `i` on fails exactly when each of them has an
/// alias not seen before and a positive weight.
pub proof fn lemma_first_constituent_failure_none(cs: Seq<ConstituentView>, i: int)
    requires
        0 <= i <= cs.len(),
    ensures
        first_constituent_failure(cs, i) is None <==> (forall|k: int|
            i <= k < cs.len() ==> !alias_seen_before(cs, k) && (#[trigger] cs[k]).target_weight_bps
                > 0),
    decreases cs.len() - i,
{
    if i < cs.len() {
        lemma_first_constituent_failure_none(cs, i + 1);
    }
}

/// A manifest passes validation if and only if it meets every rule: it has
/// constituents, no faucet alias twice, only positive weights summing to
/// exactly 10000 bps, each fee at most 10000 bps, a drift threshold in
/// 1..=5000 bps, a symbol of 1-5 ASCII uppercase characters, a
/// `major.minor.patch` version of digits, and at most 18 faucet decimals.
pub proof fn lemma_valid_iff_rules_hold(m: BasketManifestView)
    ensures
        spec_validate(m) is Ok <==> manifest_rules_hold(m),
{
    let cs = m.constituents;
    lemma_first_constituent_failure_none(cs, 0);
    if first_constituent_failure(cs, 0) is None {
        assert forall|a: int, b: int| 0 <= a < b < cs.len() implies (#[trigger] cs[a]).faucet_alias
            != (#[trigger] cs[b]).faucet_alias by {
            assert(!alias_seen_before(cs, b));
        }
    }
    if manifest_rules_hold(m) {
        assert forall|k: int| 0 <= k < cs.len() implies !alias_seen_before(cs, k)
            && (#[trigger] cs[k]).target_weight_bps > 0 by {
            if alias_seen_before(cs, k) {
                let j = choose|j: int| 0 <= j < k && cs[j].faucet_alias == cs[k].faucet_alias;
                assert(cs[j].faucet_alias != cs[k].faucet_alias);
            }
        }
    }
}

/// Two constituent lists that agree, position by position, on every alias
/// and weight (names of price pairs may differ).
pub open spec fn same_aliases_and_weights(a: Seq<ConstituentView>, b: Seq<ConstituentView>) -> bool {
    &&& a.len() == b.len()
    &&& forall|i: int|
        0 <= i < a.len() ==> (#[trigger] a[i]).faucet_alias == b[i].faucet_alias
            && a[i].target_weight_bps == b[i].target_weight_bps
}

proof fn lemma_weight_sum_same(a: Seq<ConstituentView>, b: Seq<ConstituentView>)
    requires
        same_aliases_and_weights(a, b),
    ensures
        weight_sum(a) == weight_sum(b),
    decreases a.len(),
{
    if a.len() > 0 {
        assert(a.last() == a[a.len() - 1]);
        lemma_weight_sum_same(a.drop_last(), b.drop_last());
    }
}

proof fn lemma_first_constituent_failure_same(
    a: Seq<ConstituentView>,
    b: Seq<ConstituentView>,
    i: int,
)
    requires
        same_aliases_and_weights(a, b),
        0 <= i <= a.len(),
    ensures
        first_constituent_failure(a, i) == first_constituent_failure(b, i),
    decreases a.len() - i,
{
    if i < a.len() {
        assert(a[i].faucet_alias == b[i].faucet_alias);
        if alias_seen_before(a, i) {
            let j = choose|j: int| 0 <= j < i && a[j].faucet_alias == a[i].faucet_alias;
            assert(a[j].faucet_alias == b[j].faucet_alias);
            assert(alias_seen_before(b, i));
        }
        if alias_seen_before(b, i) {
            let j = choose|j: int| 0 <= j < i && b[j].faucet_alias == b[i].faucet_alias;
            assert(a[j].faucet_alias == b[j].faucet_alias);
            assert(alias_seen_before(a, i));
        }
        lemma_first_constituent_failure_same(a, b, i + 1);
    }
}

/// The basket's name and the constituents' price pairs never affect
/// validation: two manifests that differ only there get the same verdict and
/// the same error.
pub proof fn lemma_validation_ignores_names_and_pairs(m: BasketManifestView, m2: BasketManifestView)
    requires
        m2.symbol == m.symbol,
        m2.version == m.version,
        m2.basket_faucet_decimals == m.basket_faucet_decimals,
        m2.rebalancing == m.rebalancing,
        m2.fees == m.fees,
        same_aliases_and_weights(m.constituents, m2.constituents),
    ensures
        spec_validate(m2) == spec_validate(m),
{
    lemma_weight_sum_same(m.constituents, m2.constituents);
    lemma_first_constituent_failure_same(m.constituents, m2.constituents, 0);
}

/// Adding weights, the step that `weight_sum` folds with.
pub open spec fn add_weight(acc: nat, c: ConstituentView) -> nat {
    acc + c.target_weight_bps as nat
}

proof fn lemma_weight_sum_is_fold(cs: Seq<ConstituentView>)
    ensures
        weight_sum(cs) == cs.fold_left(0nat, |acc: nat, c: ConstituentView| add_weight(acc, c)),
    decreases cs.len(),
{
    if cs.len() > 0 {
        lemma_weight_sum_is_fold(cs.drop_last());
    }
}

/// Reordering the constituents keeps their weight sum.
proof fn lemma_weight_sum_permutation(s: Seq<ConstituentView>, t: Seq<ConstituentView>)
    requires
        s.to_multiset() == t.to_multiset(),
    ensures
        weight_sum(s) == weight_sum(t),
{
    let f = |acc: nat, c: ConstituentView| add_weight(acc, c);
    assert(vstd::seq_lib::commutative_foldl(f)) by {
        assert forall|x: ConstituentView, y: ConstituentView, v: nat|
            #[trigger] f(f(v, x), y) == f(f(v, y), x) by {}
    }
    vstd::seq_lib::lemma_fold_left_permutation(s, t, f, 0nat);
    lemma_weight_sum_is_fold(s);
    lemma_weight_sum_is_fold(t);
}

/// Reordering the constituents keeps every alias distinct and every weight
/// positive.
proof fn lemma_constituent_rules_permutation(s: Seq<ConstituentView>, t: Seq<ConstituentView>)
    requires
        s.to_multiset() == t.to_multiset(),
        aliases_unique(s),
        forall|i: int| 0 <= i < s.len() ==> (#[trigger] s[i]).target_weight_bps > 0,
    ensures
        aliases_unique(t),
        forall|i: int| 0 <= i < t.len() ==> (#[trigger] t[i]).target_weight_bps > 0,
    decreases s.len(),
{
    broadcast use vstd::seq_lib::group_to_multiset_ensures;

    s.to_multiset_ensures();
    t.to_multiset_ensures();
    assert(s.len() == t.len()) by {
        assert(s.to_multiset().len() == t.to_multiset().len());
    }
    assert forall|k: int| 0 <= k < t.len() implies (#[trigger] t[k]).target_weight_bps > 0 by {
        assert(t.contains(t[k]));
        assert(t.to_multiset().count(t[k]) > 0);
        assert(s.contains(t[k]));
    }
    if s.len() == 0 {
        assert(t.len() == 0);
    } else {
        let last = s.len() - 1;
        let x = s[last];
        assert(s.contains(x));
        assert(s.to_multiset().count(x) > 0);
        assert(t.to_multiset().count(x) > 0);
        assert(t.contains(x));
        let i = choose|i: int| 0 <= i < t.len() && t[i] == x;
        let s1 = s.remove(last);
        let t1 = t.remove(i);
        assert(s1.to_multiset() == s.to_multiset().remove(x));
        assert(t1.to_multiset() == t.to_multiset().remove(t[i]));
        s1.to_multiset_ensures();
        t1.to_multiset_ensures();
        assert(s1.to_multiset() == t1.to_multiset());
        assert(aliases_unique(s1)) by {
            assert forall|a: int, b: int| 0 <= a < b < s1.len() implies (#[trigger] s1[a]).faucet_alias
                != (#[trigger] s1[b]).faucet_alias by {
                assert(s1[a] == s[a]);
                assert(s1[b] == s[b]);
            }
        }
        assert forall|j: int| 0 <= j < s1.len() implies (#[trigger] s1[j]).target_weight_bps > 0 by {
            assert(s1[j] == s[j]);
        }
        lemma_constituent_rules_permutation(s1, t1);
        // Where the rest of `t` stands in `t1`.
        assert forall|k: int| 0 <= k < t.len() && k != i implies (#[trigger] t[k]).faucet_alias
            != x.faucet_alias by {
            let k1 = if k < i {
                k
            } else {
                k - 1
            };
            assert(t1[k1] == t[k]);
            assert(t1.contains(t[k]));
            assert(t1.to_multiset().count(t[k]) > 0);
            assert(s1.to_multiset().count(t[k]) > 0);
            assert(s1.contains(t[k]));
            let j = choose|j: int| 0 <= j < s1.len() && s1[j] == t[k];
            assert(s1[j] == s[j]);
            assert(s[j].faucet_alias != s[last].faucet_alias);
        }
        assert forall|a: int, b: int| 0 <= a < b < t.len() implies (#[trigger] t[a]).faucet_alias
            != (#[trigger] t[b]).faucet_alias by {
            if a == i {
                assert(t[b].faucet_alias != x.faucet_alias);
            } else if b == i {
                assert(t[a].faucet_alias != x.faucet_alias);
            } else {
                let a1 = if a < i {
                    a
                } else {
                    a - 1
                };
                let b1 = if b < i {
                    b
                } else {
                    b - 1
                };
                assert(t1[a1] == t[a]);
                assert(t1[b1] == t[b]);
            }
        }
    }
}

/// Validity does not depend on the order of the constituents: reordering
/// them (any permutation, given as equal multisets) keeps a valid manifest
/// valid and an invalid one invalid.
pub proof fn lemma_validity_ignores_constituent_order(m: BasketManifestView, m2: BasketManifestView)
    requires
        m2.constituents.to_multiset() == m.constituents.to_multiset(),
        m2.symbol == m.symbol,
        m2.version == m.version,
        m2.basket_faucet_decimals == m.basket_faucet_decimals,
        m2.rebalancing == m.rebalancing,
        m2.fees == m.fees,
    ensures
        spec_validate(m2) is Ok <==> spec_validate(m) is Ok,
{
    broadcast use vstd::seq_lib::group_to_multiset_ensures;

    lemma_valid_iff_rules_hold(m);
    lemma_valid_iff_rules_hold(m2);
    lemma_weight_sum_permutation(m.constituents, m2.constituents);
    m.constituents.to_multiset_ensures();
    m2.constituents.to_multiset_ensures();
    assert(m.constituents.len() == m2.constituents.len()) by {
        assert(m.constituents.to_multiset().len() == m2.constituents.to_multiset().len());
    }
    if manifest_rules_hold(m) {
        lemma_constituent_rules_permutation(m.constituents, m2.constituents);
    }
    if manifest_rules_hold(m2) {
        lemma_constituent_rules_permutation(m2.constituents, m.constituents);
    }
}

/// A manifest that passes validation has weights summing to 10000 bps.
pub proof fn lemma_valid_weights_total(m: BasketManifestView)
    requires
        spec_validate(m) is Ok,
    ensures
        weight_sum(m.constituents) == TOTAL_WEIGHT_BPS,
{
}

fn check_fee(field: &'static str, value: u32) -> (r: Result<(), ValidationError>)
    ensures
        outcome(r) == fee_outcome(field@, value),
{
    if value > MAX_FEE_BPS {
        return Err(ValidationError::FeeOutOfRange { field, value, max: MAX_FEE_BPS });
    }
    Ok(())
}

/// The symbol check. Counting characters rather than UTF-8 bytes gives the
/// same answer: an ASCII uppercase letter is one byte, and any other
/// character already fails the letter test.
fn check_symbol(symbol: &str) -> (r: Result<(), ValidationError>)
    ensures
        outcome(r) == (if valid_symbol(symbol@) {
            Ok(())
        } else {
            Err(ValidationFailure::InvalidSymbol(symbol@))
        }),
{
    let n = symbol.unicode_len();
    if n < 1 || n > 5 {
        return Err(ValidationError::InvalidSymbol(symbol.to_owned()));
    }
    let mut i: usize = 0;
    while i < n
        invariant
            n == symbol@.len(),
            0 <= i <= n,
            forall|k: int| 0 <= k < i ==> is_ascii_uppercase(#[trigger] symbol@[k]),
        decreases n - i,
    {
        let c = symbol.get_char(i);
        if !('A' <= c && c <= 'Z') {
            return Err(ValidationError::InvalidSymbol(symbol.to_owned()));
        }
        i = i + 1;
    }
    Ok(())
}

/// `split_dots` always yields at least one piece.
proof fn lemma_split_dots_nonempty(s: Seq<char>)
    ensures
        split_dots(s).len() >= 1,
    decreases s.len(),
{
    if s.len() > 0 {
        lemma_split_dots_nonempty(s.drop_last());
    }
}

/// A string without dots is a single piece.
proof fn lemma_split_dots_no_dot(x: Seq<char>)
    requires
        forall|k: int| 0 <= k < x.len() ==> x[k] != '.',
    ensures
        split_dots(x) == seq![x],
    decreases x.len(),
{
    if x.len() == 0 {
        assert(x =~= Seq::<char>::empty());
        assert(split_dots(x) =~= seq![x]);
    } else {
        let d = x.drop_last();
        lemma_split_dots_no_dot(d);
        assert(d.push(x.last()) =~= x);
        assert(x.last() == x[x.len() - 1]);
        assert(split_dots(x) =~= seq![x]);
    }
}

/// Splitting at a dot: the pieces of `a . b` are those of `a` followed by
/// those of `b`.
proof fn lemma_split_dots_at_dot(a: Seq<char>, b: Seq<char>)
    ensures
        split_dots(a + seq!['.'] + b) == split_dots(a) + split_dots(b),
    decreases b.len(),
{
    lemma_split_dots_nonempty(a);
    lemma_split_dots_nonempty(b);
    let s = a + seq!['.'] + b;
    if b.len() == 0 {
        assert(s.drop_last() =~= a);
        assert(s.last() == '.');
        assert(b =~= Seq::<char>::empty());
        assert(split_dots(s) =~= split_dots(a) + split_dots(b));
    } else {
        let b1 = b.drop_last();
        let c = b.last();
        lemma_split_dots_at_dot(a, b1);
        lemma_split_dots_nonempty(b1);
        assert(s.drop_last() =~= a + seq!['.'] + b1);
        assert(s.last() == c);
        let p = split_dots(a) + split_dots(b1);
        assert(p.last() == split_dots(b1).last());
        if c == '.' {
            assert(split_dots(s) =~= split_dots(a) + split_dots(b));
        } else {
            assert(split_dots(s) =~= split_dots(a) + split_dots(b));
        }
    }
}

/// A string holding a dot has a first dot.
proof fn lemma_first_dot(s: Seq<char>, d: int)
    requires
        0 <= d < s.len(),
        s[d] == '.',
    ensures
        exists|i: int|
            0 <= i < s.len() && #[trigger] s[i] == '.' && forall|k: int| 0 <= k < i ==> s[k] != '.',
    decreases d,
{
    if exists|k: int| 0 <= k < d && #[trigger] s[k] == '.' {
        let k = choose|k: int| 0 <= k < d && #[trigger] s[k] == '.';
        lemma_first_dot(s, k);
    } else {
        assert(forall|k: int| 0 <= k < d ==> s[k] != '.');
    }
}

/// A string holding a dot splits into at least two pieces.
proof fn lemma_split_dots_with_dot(s: Seq<char>, d: int)
    requires
        0 <= d < s.len(),
        s[d] == '.',
    ensures
        split_dots(s).len() >= 2,
{
    let a = s.subrange(0, d);
    let b = s.subrange(d + 1, s.len() as int);
    assert(s =~= a + seq!['.'] + b);
    lemma_split_dots_at_dot(a, b);
    lemma_split_dots_nonempty(a);
    lemma_split_dots_nonempty(b);
}

/// A version shaped as digits, a dot at `i`, digits, a dot at `j`, digits,
/// passes the version rule.
proof fn lemma_version_from_shape(v: Seq<char>, i: int, j: int)
    requires
        forall|k: int| 0 <= k < v.len() ==> ('0' <= #[trigger] v[k] <= '9' || v[k] == '.'),
        0 < i,
        i + 1 < j,
        j + 1 < v.len(),
        v[i] == '.',
        v[j] == '.',
        forall|k: int| 0 <= k < v.len() && v[k] == '.' ==> k == i || k == j,
    ensures
        valid_version(v),
{
    let p0 = v.subrange(0, i);
    let p1 = v.subrange(i + 1, j);
    let p2 = v.subrange(j + 1, v.len() as int);
    assert(v =~= (p0 + seq!['.'] + p1) + seq!['.'] + p2);
    lemma_split_dots_at_dot(p0 + seq!['.'] + p1, p2);
    lemma_split_dots_at_dot(p0, p1);
    assert forall|k: int| 0 <= k < p0.len() implies p0[k] != '.' && is_ascii_digit(p0[k]) by {
        assert(p0[k] == v[k]);
    }
    assert forall|k: int| 0 <= k < p1.len() implies p1[k] != '.' && is_ascii_digit(p1[k]) by {
        assert(p1[k] == v[k + i + 1]);
    }
    assert forall|k: int| 0 <= k < p2.len() implies p2[k] != '.' && is_ascii_digit(p2[k]) by {
        assert(p2[k] == v[k + j + 1]);
    }
    lemma_split_dots_no_dot(p0);
    lemma_split_dots_no_dot(p1);
    lemma_split_dots_no_dot(p2);
    let parts = split_dots(v);
    assert(parts =~= seq![p0, p1, p2]);
    assert(numeric_component(parts[0]));
    assert(numeric_component(parts[1]));
    assert(numeric_component(parts[2]));
}

/// The first dot of `s` and what lies on either side of it.
proof fn lemma_split_at_first_dot(s: Seq<char>) -> (i: int)
    requires
        exists|k: int| 0 <= k < s.len() && s[k] == '.',
    ensures
        0 <= i < s.len(),
        s[i] == '.',
        forall|k: int| 0 <= k < i ==> s[k] != '.',
        split_dots(s) == seq![s.subrange(0, i)] + split_dots(s.subrange(i + 1, s.len() as int)),
{
    let d0 = choose|k: int| 0 <= k < s.len() && s[k] == '.';
    lemma_first_dot(s, d0);
    let i = choose|i: int|
        0 <= i < s.len() && #[trigger] s[i] == '.' && forall|k: int| 0 <= k < i ==> s[k] != '.';
    let p0 = s.subrange(0, i);
    let r = s.subrange(i + 1, s.len() as int);
    assert(s =~= p0 + seq!['.'] + r);
    lemma_split_dots_at_dot(p0, r);
    lemma_split_dots_no_dot(p0);
    i
}

/// A version passing the version rule has the shape of digits, a dot,
/// digits, a dot, digits.
proof fn lemma_shape_from_version(v: Seq<char>) -> (ij: (int, int))
    requires
        valid_version(v),
    ensures
        forall|k: int| 0 <= k < v.len() ==> ('0' <= #[trigger] v[k] <= '9' || v[k] == '.'),
        0 < ij.0,
        ij.0 + 1 < ij.1,
        ij.1 + 1 < v.len(),
        v[ij.0] == '.',
        v[ij.1] == '.',
        forall|k: int| 0 <= k < v.len() && v[k] == '.' ==> k == ij.0 || k == ij.1,
{
    let parts = split_dots(v);
    if forall|k: int| 0 <= k < v.len() ==> v[k] != '.' {
        lemma_split_dots_no_dot(v);
    }
    let i = lemma_split_at_first_dot(v);
    let p0 = v.subrange(0, i);
    let r = v.subrange(i + 1, v.len() as int);
    assert(split_dots(r).len() == 2);
    if forall|k: int| 0 <= k < r.len() ==> r[k] != '.' {
        lemma_split_dots_no_dot(r);
    }
    let jr = lemma_split_at_first_dot(r);
    let p1 = r.subrange(0, jr);
    let p2 = r.subrange(jr + 1, r.len() as int);
    assert(split_dots(p2).len() == 1);
    if exists|k: int| 0 <= k < p2.len() && p2[k] == '.' {
        let k = choose|k: int| 0 <= k < p2.len() && p2[k] == '.';
        lemma_split_dots_with_dot(p2, k);
    }
    lemma_split_dots_no_dot(p2);
    assert(parts =~= seq![p0, p1, p2]);
    assert(numeric_component(parts[0]));
    assert(numeric_component(parts[1]));
    assert(numeric_component(parts[2]));
    let j = i + 1 + jr;
    assert forall|k: int| 0 <= k < v.len() implies ('0' <= #[trigger] v[k] <= '9' || v[k] == '.')
        && (v[k] == '.' ==> k == i || k == j) by {
        if k < i {
            assert(v[k] == p0[k]);
            assert(is_ascii_digit(p0[k]));
        } else if i < k < j {
            assert(v[k] == p1[k - i - 1]);
            assert(is_ascii_digit(p1[k - i - 1]));
        } else if k > j {
            assert(v[k] == p2[k - j - 1]);
            assert(is_ascii_digit(p2[k - j - 1]));
        } else if k == j {
            assert(v[k] == r[jr]);
        }
    }
    (i, j)
}

/// A version passes the version rule exactly when, character by character,
/// it is ASCII digits and exactly two dots, with a digit before the first
/// dot, between the dots and after the second.
pub proof fn lemma_version_characters(v: Seq<char>)
    ensures
        valid_version(v) <==> ((forall|k: int| 0 <= k < v.len() ==> ('0' <= #[trigger] v[k] <= '9' || v[k] == '.'))
            && exists|i: int, j: int|
            #![trigger v[i], v[j]]
            0 < i && i + 1 < j && j + 1 < v.len() && v[i] == '.' && v[j] == '.' && forall|k: int|
                0 <= k < v.len() && v[k] == '.' ==> k == i || k == j),
{
    if exists|i: int, j: int|
        #![trigger v[i], v[j]]
        0 < i && i + 1 < j && j + 1 < v.len() && v[i] == '.' && v[j] == '.' && forall|k: int|
            0 <= k < v.len() && v[k] == '.' ==> k == i || k == j {
        let (i, j) = choose|i: int, j: int|
            #![trigger v[i], v[j]]
            0 < i && i + 1 < j && j + 1 < v.len() && v[i] == '.' && v[j] == '.' && forall|k: int|
                0 <= k < v.len() && v[k] == '.' ==> k == i || k == j;
        if forall|k: int| 0 <= k < v.len() ==> ('0' <= #[trigger] v[k] <= '9' || v[k] == '.') {
            lemma_version_from_shape(v, i, j);
        }
    }
    if valid_version(v) {
        let (i, j) = lemma_shape_from_version(v);
        assert(v[i] == '.' && v[j] == '.');
    }
}

/// Every version a manifest is accepted with is ASCII digits and exactly two
/// dots, no dot first, last, or next to another; and any other version of
/// that shape is accepted in its place.
pub proof fn lemma_version_rule(m: BasketManifestView, v: Seq<char>)
    requires
        spec_validate(m) is Ok,
    ensures
        forall|k: int| 0 <= k < m.version.len() ==> ('0' <= #[trigger] m.version[k] <= '9' || m.version[k] == '.'),
        exists|i: int, j: int|
            #![trigger m.version[i], m.version[j]]
            0 < i && i + 1 < j && j + 1 < m.version.len() && m.version[i] == '.' && m.version[j] == '.'
                && forall|k: int| 0 <= k < m.version.len() && m.version[k] == '.' ==> k == i || k == j,
        ((forall|k: int| 0 <= k < v.len() ==> ('0' <= #[trigger] v[k] <= '9' || v[k] == '.'))
            && exists|i: int, j: int|
            #![trigger v[i], v[j]]
            0 < i && i + 1 < j && j + 1 < v.len() && v[i] == '.' && v[j] == '.' && forall|k: int|
                0 <= k < v.len() && v[k] == '.' ==> k == i || k == j)
            ==> spec_validate(BasketManifestView { version: v, ..m }) is Ok,
{
    lemma_valid_iff_rules_hold(m);
    lemma_version_characters(m.version);
    lemma_version_characters(v);
    lemma_valid_iff_rules_hold(BasketManifestView { version: v, ..m });
}

/// Every symbol a manifest is accepted with is 1 to 5 characters, each in
/// `'A'..='Z'`; and any other symbol of that shape, of any length from 1 to
/// 5, is accepted in its place.
pub proof fn lemma_symbol_rule(m: BasketManifestView, sym: Seq<char>)
    requires
        spec_validate(m) is Ok,
    ensures
        1 <= m.symbol.len() <= 5,
        forall|k: int| 0 <= k < m.symbol.len() ==> 'A' <= #[trigger] m.symbol[k] <= 'Z',
        (1 <= sym.len() <= 5 && forall|k: int| 0 <= k < sym.len() ==> 'A' <= #[trigger] sym[k] <= 'Z')
            ==> spec_validate(BasketManifestView { symbol: sym, ..m }) is Ok,
{
    lemma_valid_iff_rules_hold(m);
    lemma_valid_iff_rules_hold(BasketManifestView { symbol: sym, ..m });
    assert forall|k: int| 0 <= k < m.symbol.len() implies 'A' <= #[trigger] m.symbol[k] <= 'Z' by {
        assert(is_ascii_uppercase(m.symbol[k]));
    }
    if 1 <= sym.len() <= 5 && forall|k: int| 0 <= k < sym.len() ==> 'A' <= #[trigger] sym[k] <= 'Z' {
        assert forall|k: int| 0 <= k < sym.len() implies is_ascii_uppercase(#[trigger] sym[k]) by {
            assert('A' <= sym[k] <= 'Z');
        }
    }
}

/// Whether `version` is a `major.minor.patch` tag of digits, scanning it once.
fn is_semver(version: &str) -> (r: bool)
    ensures
        r == valid_version(version@),
{
    let n = version.unicode_len();
    let ghost s = version@;
    // The number of pieces so far (counting stops at 4, which already
    // fails), whether every finished piece is a non-empty run of digits, and
    // the length and digit-ness of the piece being read.
    let mut pieces: usize = 1;
    let mut finished_ok = true;
    let mut current_len: usize = 0;
    let mut current_digits = true;
    let mut i: usize = 0;
    proof {
        assert(s.take(0) =~= Seq::<char>::empty());
    }
    while i < n
        invariant
            n == s.len(),
            s == version@,
            0 <= i <= n,
            split_dots(s.take(i as int)).len() >= 1,
            pieces == if split_dots(s.take(i as int)).len() <= 4 {
                split_dots(s.take(i as int)).len()
            } else {
                4
            },
            current_len == split_dots(s.take(i as int)).last().len(),
            current_len <= i,
            current_digits == (forall|k: int|
                0 <= k < current_len ==> is_ascii_digit(
                    #[trigger] split_dots(s.take(i as int)).last()[k],
                )),
            finished_ok == (forall|j: int|
                0 <= j < split_dots(s.take(i as int)).len() - 1 ==> numeric_component(
                    #[trigger] split_dots(s.take(i as int))[j],
                )),
        decreases n - i,
    {
        let c = version.get_char(i);
        let ghost before = split_dots(s.take(i as int));
        proof {
            assert(s.take(i + 1).drop_last() =~= s.take(i as int));
            assert(s.take(i + 1).last() == c);
            lemma_split_dots_nonempty(s.take(i + 1));
        }
        let ghost after = split_dots(s.take(i + 1));
        if c == '.' {
            proof {
                let last = before.len() - 1;
                assert(after == before.push(Seq::<char>::empty()));
                assert(numeric_component(before.last()) == (current_len > 0 && current_digits));
                assert(after[last] == before.last());
                let now_ok = finished_ok && current_len > 0 && current_digits;
                assert(now_ok == (forall|j: int|
                    0 <= j < after.len() - 1 ==> numeric_component(#[trigger] after[j]))) by {
                    if now_ok {
                        assert forall|j: int| 0 <= j < after.len() - 1 implies numeric_component(
                            #[trigger] after[j],
                        ) by {
                            if j < last {
                                assert(after[j] == before[j]);
                            }
                        }
                    } else if !finished_ok {
                        let j0 = choose|j: int| 0 <= j < last && !numeric_component(before[j]);
                        assert(after[j0] == before[j0]);
                    } else {
                        assert(!numeric_component(after[last]));
                    }
                }
            }
            finished_ok = finished_ok && current_len > 0 && current_digits;
            proof {
                assert(finished_ok == (forall|j: int|
                    0 <= j < after.len() - 1 ==> numeric_component(#[trigger] after[j])));
            }
            if pieces < 4 {
                pieces = pieces + 1;
            }
            current_len = 0;
            current_digits = true;
        } else {
            proof {
                assert(after == before.update(before.len() - 1, before.last().push(c)));
                assert(after.last() == before.last().push(c));
                assert forall|j: int| 0 <= j < before.len() - 1 implies (#[trigger] after[j])
                    == before[j] by {}
                assert(after.len() == before.len());
                assert(finished_ok == (forall|j: int|
                    0 <= j < after.len() - 1 ==> numeric_component(#[trigger] after[j]))) by {
                    if finished_ok {
                        assert forall|j: int| 0 <= j < after.len() - 1 implies numeric_component(
                            #[trigger] after[j],
                        ) by {
                            assert(after[j] == before[j]);
                        }
                    } else {
                        let j0 = choose|j: int|
                            0 <= j < before.len() - 1 && !numeric_component(before[j]);
                        assert(after[j0] == before[j0]);
                    }
                }
            }
            current_digits = current_digits && '0' <= c && c <= '9';
            current_len = current_len + 1;
            proof {
                let cur = after.last();
                assert(cur.len() == current_len);
                assert(current_digits == (forall|k: int|
                    0 <= k < current_len ==> is_ascii_digit(#[trigger] cur[k]))) by {
                    if current_digits {
                        assert forall|k: int| 0 <= k < current_len implies is_ascii_digit(
                            #[trigger] cur[k],
                        ) by {
                            if k < current_len - 1 {
                                assert(cur[k] == before.last()[k]);
                            }
                        }
                    } else {
                        if !is_ascii_digit(c) {
                            assert(cur[current_len - 1] == c);
                        } else {
                            let k0 = choose|k: int|
                                0 <= k < current_len - 1 && !is_ascii_digit(before.last()[k]);
                            assert(cur[k0] == before.last()[k0]);
                        }
                    }
                }
            }
        }
        i = i + 1;
    }
    proof {
        assert(s.take(n as int) =~= s);
        let parts = split_dots(s);
        if pieces == 3 {
            assert(numeric_component(parts[2]) == (current_len > 0 && current_digits));
            if finished_ok && current_len > 0 && current_digits {
                assert forall|j: int| 0 <= j < 3 implies numeric_component(#[trigger] parts[j]) by {}
            }
            if valid_version(s) {
                assert(numeric_component(parts[0]));
                assert(numeric_component(parts[1]));
                assert(numeric_component(parts[2]));
            }
        }
    }
    pieces == 3 && finished_ok && current_len > 0 && current_digits
}

fn check_version(version: &str) -> (r: Result<(), ValidationError>)
    ensures
        outcome(r) == (if valid_version(version@) {
            Ok(())
        } else {
            Err(ValidationFailure::InvalidVersion(version@))
        }),
{
    if !is_semver(version) {
        return Err(ValidationError::InvalidVersion(version.to_owned()));
    }
    Ok(())
}

/// The sum of the target weights, saturating at `u32::MAX`.
fn saturating_weight_sum(m: &BasketManifest) -> (total: u32)
    ensures
        total == reported_weight_sum(m@.constituents),
{
    let n = m.constituents.len();
    let ghost cs = m@.constituents;
    let mut total: u32 = 0;
    let mut i: usize = 0;
    while i < n
        invariant
            n == m.constituents@.len(),
            cs == m@.constituents,
            0 <= i <= n,
            total == reported_weight_sum(cs.take(i as int)),
        decreases n - i,
    {
        proof {
            assert(cs.take(i + 1).drop_last() =~= cs.take(i as int));
            assert(cs[i as int] == m.constituents@[i as int]@);
        }
        total = total.saturating_add(m.constituents[i].target_weight_bps);
        i = i + 1;
    }
    proof {
        assert(cs.take(n as int) =~= cs);
    }
    total
}

/// Run all structural validations on the manifest, returning the first
/// failure encountered.
pub fn validate(m: &BasketManifest) -> (r: Result<(), ValidationError>)
    ensures
        outcome(r) == spec_validate(m@),
{
    let n = m.constituents.len();
    if n == 0 {
        return Err(ValidationError::NoConstituents);
    }
    let ghost cs = m@.constituents;
    let mut i: usize = 0;
    while i < n
        invariant
            n == m.constituents@.len(),
            cs == m@.constituents,
            0 <= i <= n,
            first_constituent_failure(cs, 0) == first_constituent_failure(cs, i as int),
        decreases n - i,
    {
        let alias = &m.constituents[i].faucet_alias;
        let mut j: usize = 0;
        while j < i
            invariant
                n == m.constituents@.len(),
                cs == m@.constituents,
                0 <= j <= i < n,
                alias@ == cs[i as int].faucet_alias,
                first_constituent_failure(cs, 0) == first_constituent_failure(cs, i as int),
                forall|k: int| 0 <= k < j ==> cs[k].faucet_alias != cs[i as int].faucet_alias,
            decreases i - j,
        {
            if m.constituents[j].faucet_alias == *alias {
                proof {
                    assert(cs[j as int] == m.constituents@[j as int]@);
                    assert(cs[j as int].faucet_alias == cs[i as int].faucet_alias);
                    assert(alias_seen_before(cs, i as int));
                }
                return Err(ValidationError::DuplicateConstituent(alias.clone()));
            }
            j = j + 1;
        }
        proof {
            assert(!alias_seen_before(cs, i as int));
            assert(cs[i as int] == m.constituents@[i as int]@);
        }
        if m.constituents[i].target_weight_bps == 0 {
            return Err(ValidationError::ZeroWeight { alias: alias.clone() });
        }
        i = i + 1;
    }
    let sum = saturating_weight_sum(m);
    if sum != TOTAL_WEIGHT_BPS {
        return Err(ValidationError::WeightSumMismatch { sum, expected: TOTAL_WEIGHT_BPS });
    }
    if let Err(e) = check_fee("mint_fee_bps", m.fees.mint_fee_bps) {
        return Err(e);
    }
    if let Err(e) = check_fee("redeem_fee_bps", m.fees.redeem_fee_bps) {
        return Err(e);
    }
    if let Err(e) = check_fee("management_fee_bps_year", m.fees.management_fee_bps_year) {
        return Err(e);
    }

    let drift = m.rebalancing.drift_threshold_bps;
    if drift == 0 || drift > MAX_DRIFT_THRESHOLD_BPS {
        return Err(ValidationError::DriftOutOfRange { value: drift, max: MAX_DRIFT_THRESHOLD_BPS });
    }
    if let Err(e) = check_symbol(m.symbol.as_str()) {
        return Err(e);
    }
    if let Err(e) = check_version(m.version.as_str()) {
        return Err(e);
    }

    if m.basket_faucet_decimals > MAX_BASKET_FAUCET_DECIMALS {
        return Err(ValidationError::DecimalsOutOfRange(m.basket_faucet_decimals));
    }
    Ok(())
}

} // verus!
