use vstd::prelude::*;
use crate::model::{
    asset_name, cv_at, delta_model, lemma_cv_neg_at, lemma_pv_at, pv_model,
};
use crate::value::{encode_asset_id, AssetId, ConversionValue, Token};

verus! {

/// A vector of `n` empty memo slots.
fn none_slots<T>(n: usize) -> (r: Vec<Option<T>>)
    ensures
        r@.len() == n,
        forall|i: int| 0 <= i < n ==> r@[i] is None,
    decreases n,
{
    let mut r: Vec<Option<T>> = Vec::new();
    let mut i: usize = 0;
    while i < n
        invariant
            i <= n,
            r@.len() == i,
            forall|j: int| 0 <= j < i ==> r@[j] is None,
        decreases n - i,
    {
        r.push(None);
        i = i + 1;
    }
    r
}

/// The conversion arithmetic engine for one token, denomination, precision
/// and sub-unit position: three memoized operations over the epochs up to
/// the target, each cached in an arena-like table keyed by epoch.
pub struct ConvEngine {
    pub token: Token,
    pub denom: u8,
    pub pos: u8,
    pub precision: i128,
    pub target: u64,
    pub asset_ids: Vec<Option<AssetId>>,
    pub precision_values: Vec<Option<ConversionValue>>,
    pub reward_deltas: Vec<Option<ConversionValue>>,
}

impl ConvEngine {
    pub open spec fn wf(&self) -> bool {
        &&& 1 <= self.precision
        &&& self.target < usize::MAX
        &&& self.asset_ids@.len() == self.target + 1
        &&& self.precision_values@.len() == self.target + 1
        &&& self.reward_deltas@.len() == self.target + 1
        &&& forall|e: int|
            0 <= e <= self.target ==> (#[trigger] self.asset_ids@[e] matches Some(a) ==> a@
                == asset_name(self.token@, self.denom, self.pos, e as u64))
        &&& forall|e: int|
            0 <= e <= self.target ==> (#[trigger] self.precision_values@[e] matches Some(v)
                ==> v.wf() && v@ == pv_model(
                self.token@,
                self.denom,
                self.pos,
                self.precision as int,
                e as u64,
            ))
        &&& forall|e: int|
            0 <= e <= self.target ==> (#[trigger] self.reward_deltas@[e] matches Some(v) ==> v.wf()
                && v@ == delta_model(
                self.token@,
                self.denom,
                self.pos,
                self.precision as int,
                e as u64,
            ))
    }

    /// The engine's fixed context, unchanged by the memoized operations.
    pub open spec fn config(&self) -> (Seq<u8>, u8, u8, i128, u64) {
        (self.token@, self.denom, self.pos, self.precision, self.target)
    }

    pub fn new(token: Token, denom: u8, pos: u8, precision: i128, target: u64) -> (r: ConvEngine)
        requires
            1 <= precision,
            target < usize::MAX,
        ensures
            r.wf(),
            r.config() == (token@, denom, pos, precision, target),
    {
        let slots = target as usize + 1;
        ConvEngine {
            token,
            denom,
            pos,
            precision,
            target,
            asset_ids: none_slots(slots),
            precision_values: none_slots(slots),
            reward_deltas: none_slots(slots),
        }
    }

    /// The asset identifier of this token at `epoch`, memoized.
    pub fn asset_id(&mut self, epoch: u64) -> (r: AssetId)
        requires
            old(self).wf(),
            epoch <= old(self).target,
        ensures
            final(self).wf(),
            final(self).config() == old(self).config(),
            r@ == asset_name(old(self).token@, old(self).denom, old(self).pos, epoch),
    {
        let idx = epoch as usize;
        match &self.asset_ids[idx] {
            Some(a) => {
                return a.dup();
            },
            None => {},
        }
        let a = encode_asset_id(&self.token, self.denom, self.pos, epoch);
        let dup = a.dup();
        self.asset_ids[idx] = Some(dup);
        a
    }

    /// `precision` units of the asset at `epoch`, memoized.
    pub fn precision_value(&mut self, epoch: u64) -> (r: ConversionValue)
        requires
            old(self).wf(),
            epoch <= old(self).target,
        ensures
            final(self).wf(),
            final(self).config() == old(self).config(),
            r.wf(),
            r@ == pv_model(
                old(self).token@,
                old(self).denom,
                old(self).pos,
                old(self).precision as int,
                epoch,
            ),
    {
        let idx = epoch as usize;
        match &self.precision_values[idx] {
            Some(v) => {
                return v.dup();
            },
            None => {},
        }
        let a = self.asset_id(epoch);
        let v = ConversionValue::from_pair(a, self.precision);
        let dup = v.dup();
        self.precision_values[idx] = Some(dup);
        v
    }

    /// The marginal reward between `epoch` and its successor, memoized:
    /// -PRECISION TOK[epoch, pos] + PRECISION TOK[epoch + 1, pos].
    pub fn reward_delta(&mut self, epoch: u64) -> (r: ConversionValue)
        requires
            old(self).wf(),
            epoch < old(self).target,
        ensures
            final(self).wf(),
            final(self).config() == old(self).config(),
            r.wf(),
            r@ == delta_model(
                old(self).token@,
                old(self).denom,
                old(self).pos,
                old(self).precision as int,
                epoch,
            ),
    {
        let idx = epoch as usize;
        match &self.reward_deltas[idx] {
            Some(v) => {
                return v.dup();
            },
            None => {},
        }
        let ghost tok = self.token@;
        let ghost denom = self.denom;
        let ghost pos = self.pos;
        let ghost prec = self.precision as int;
        let pv_lo = self.precision_value(epoch);
        let pv_hi = self.precision_value(epoch + 1);
        proof {
            assert forall|k: Seq<u8>| #[trigger] cv_at(pv_lo@, k) != i128::MIN by {
                lemma_pv_at(tok, denom, pos, prec, epoch, k);
            }
        }
        let neg_lo = pv_lo.neg();
        proof {
            assert forall|k: Seq<u8>|
                i128::MIN <= #[trigger] cv_at(neg_lo@, k) + cv_at(pv_hi@, k) <= i128::MAX by {
                lemma_cv_neg_at(pv_lo@, k);
                lemma_pv_at(tok, denom, pos, prec, epoch, k);
                lemma_pv_at(tok, denom, pos, prec, (epoch + 1) as u64, k);
            }
        }
        let v = neg_lo.add(&pv_hi);
        let dup = v.dup();
        self.reward_deltas[idx] = Some(dup);
        v
    }
}

} // verus!
