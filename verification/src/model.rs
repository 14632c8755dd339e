use vstd::prelude::*;

verus! {

// A conversion value is a formal linear combination of asset identifiers:
// a sparse map from an identifier (its canonical bytes) to a signed
// coefficient.  The map is kept canonical: no key is bound to zero.

/// Coefficient of `k` in `m`, zero where `k` is absent.
pub open spec fn cv_at(m: Map<Seq<u8>, int>, k: Seq<u8>) -> int {
    if m.dom().contains(k) {
        m[k]
    } else {
        0
    }
}

/// Canonical sparse form: no explicit zero coefficients.
pub open spec fn cv_canon(m: Map<Seq<u8>, int>) -> bool {
    forall|k: Seq<u8>| m.dom().contains(k) ==> #[trigger] m[k] != 0
}

/// The all-zero combination.
pub open spec fn cv_empty() -> Map<Seq<u8>, int> {
    Map::empty()
}

/// `n` units of the single identifier `k`.
pub open spec fn cv_single(k: Seq<u8>, n: int) -> Map<Seq<u8>, int> {
    Map::empty().insert(k, n)
}

/// Pointwise sum, dropping keys whose coefficients cancel.
pub open spec fn cv_add(a: Map<Seq<u8>, int>, b: Map<Seq<u8>, int>) -> Map<Seq<u8>, int> {
    Map::new(
        |k: Seq<u8>| cv_at(a, k) + cv_at(b, k) != 0,
        |k: Seq<u8>| cv_at(a, k) + cv_at(b, k),
    )
}

/// Pointwise negation (canonicalizing).
pub open spec fn cv_neg(a: Map<Seq<u8>, int>) -> Map<Seq<u8>, int> {
    Map::new(|k: Seq<u8>| cv_at(a, k) != 0, |k: Seq<u8>| -cv_at(a, k))
}

/// Every coefficient of `m` lies in `[-bound, bound]`.
pub open spec fn cv_bounded(m: Map<Seq<u8>, int>, bound: int) -> bool {
    forall|k: Seq<u8>| -bound <= #[trigger] cv_at(m, k) <= bound
}

pub proof fn lemma_cv_add_at(a: Map<Seq<u8>, int>, b: Map<Seq<u8>, int>, k: Seq<u8>)
    ensures
        cv_at(cv_add(a, b), k) == cv_at(a, k) + cv_at(b, k),
{
}

pub proof fn lemma_cv_neg_at(a: Map<Seq<u8>, int>, k: Seq<u8>)
    ensures
        cv_at(cv_neg(a), k) == -cv_at(a, k),
{
}

pub proof fn lemma_cv_add_canon(a: Map<Seq<u8>, int>, b: Map<Seq<u8>, int>)
    ensures
        cv_canon(cv_add(a, b)),
{
}

/// Canonical combinations with equal coefficients everywhere are equal maps.
pub proof fn lemma_cv_ext(a: Map<Seq<u8>, int>, b: Map<Seq<u8>, int>)
    requires
        cv_canon(a),
        cv_canon(b),
        forall|k: Seq<u8>| cv_at(a, k) == cv_at(b, k),
    ensures
        a == b,
{
    assert forall|k: Seq<u8>| a.dom().contains(k) <==> b.dom().contains(k) by {
        assert(cv_at(a, k) == cv_at(b, k));
    }
    assert forall|k: Seq<u8>| #[trigger] a.dom().contains(k) implies a[k] == b[k] by {
        assert(cv_at(a, k) == cv_at(b, k));
    }
    assert(a =~= b);
}

// ---------------------------------------------------------------------------
// Asset identifiers.
//
// An asset identifier is derived deterministically from a token identity
// (a byte string), a denomination, a sub-unit position and an epoch.  The
// derivation is a canonical, injective framing of those fields: the token
// bytes are length-prefixed, so identifiers of distinct inputs never alias.

/// Little-endian bytes of a 64-bit value.
pub open spec fn le64(e: u64) -> Seq<u8> {
    seq![
        (e & 0xff) as u8,
        ((e >> 8) & 0xff) as u8,
        ((e >> 16) & 0xff) as u8,
        ((e >> 24) & 0xff) as u8,
        ((e >> 32) & 0xff) as u8,
        ((e >> 40) & 0xff) as u8,
        ((e >> 48) & 0xff) as u8,
        ((e >> 56) & 0xff) as u8,
    ]
}

/// The identifier of (token, denomination, sub-unit position, epoch).
pub open spec fn asset_name(token: Seq<u8>, denom: u8, pos: u8, epoch: u64) -> Seq<u8> {
    le64(token.len() as u64) + token + seq![denom, pos] + le64(epoch)
}

// ---------------------------------------------------------------------------
// The conversion schedule, as mathematics.

/// `precision` units of the asset at `epoch`: PRECISION TOK[epoch, pos].
pub open spec fn pv_model(
    token: Seq<u8>,
    denom: u8,
    pos: u8,
    precision: int,
    epoch: u64,
) -> Map<Seq<u8>, int> {
    cv_single(asset_name(token, denom, pos, epoch), precision)
}

/// The marginal reward between consecutive epochs:
/// -PRECISION TOK[epoch, pos] + PRECISION TOK[epoch + 1, pos].
pub open spec fn delta_model(
    token: Seq<u8>,
    denom: u8,
    pos: u8,
    precision: int,
    epoch: u64,
) -> Map<Seq<u8>, int> {
    cv_add(
        cv_neg(pv_model(token, denom, pos, precision, epoch)),
        pv_model(token, denom, pos, precision, (epoch + 1) as u64),
    )
}

/// The schedule entry for `epoch`: the running sum of the marginal rewards
/// of all epochs from `epoch` up to (excluding) `target`, accumulated in
/// descending epoch order.
pub open spec fn entry_model(
    token: Seq<u8>,
    denom: u8,
    pos: u8,
    precision: int,
    target: u64,
    epoch: u64,
) -> Map<Seq<u8>, int>
    decreases target - epoch,
{
    if epoch >= target {
        cv_empty()
    } else {
        cv_add(
            entry_model(token, denom, pos, precision, target, (epoch + 1) as u64),
            delta_model(token, denom, pos, precision, epoch),
        )
    }
}

/// Telescoping invariant: the schedule entry at `epoch` equals the value of
/// the asset at the target epoch minus its value at `epoch`,
/// PRECISION TOK[target, pos] - PRECISION TOK[epoch, pos].
pub proof fn lemma_telescoping(
    token: Seq<u8>,
    denom: u8,
    pos: u8,
    precision: int,
    target: u64,
    epoch: u64,
)
    requires
        epoch <= target,
    ensures
        entry_model(token, denom, pos, precision, target, epoch) == cv_add(
            cv_neg(pv_model(token, denom, pos, precision, epoch)),
            pv_model(token, denom, pos, precision, target),
        ),
    decreases target - epoch,
{
    let lhs = entry_model(token, denom, pos, precision, target, epoch);
    let rhs = cv_add(
        cv_neg(pv_model(token, denom, pos, precision, epoch)),
        pv_model(token, denom, pos, precision, target),
    );
    if epoch >= target {
        assert forall|k: Seq<u8>| cv_at(lhs, k) == cv_at(rhs, k) by {
            lemma_cv_add_at(
                cv_neg(pv_model(token, denom, pos, precision, epoch)),
                pv_model(token, denom, pos, precision, target),
                k,
            );
        }
        assert(cv_canon(lhs));
        lemma_cv_add_canon(
            cv_neg(pv_model(token, denom, pos, precision, epoch)),
            pv_model(token, denom, pos, precision, target),
        );
        lemma_cv_ext(lhs, rhs);
    } else {
        let succ = (epoch + 1) as u64;
        lemma_telescoping(token, denom, pos, precision, target, succ);
        assert forall|k: Seq<u8>| cv_at(lhs, k) == cv_at(rhs, k) by {
            lemma_cv_add_at(
                entry_model(token, denom, pos, precision, target, succ),
                delta_model(token, denom, pos, precision, epoch),
                k,
            );
            lemma_cv_add_at(
                cv_neg(pv_model(token, denom, pos, precision, succ)),
                pv_model(token, denom, pos, precision, target),
                k,
            );
            lemma_cv_add_at(
                cv_neg(pv_model(token, denom, pos, precision, epoch)),
                pv_model(token, denom, pos, precision, succ),
                k,
            );
            lemma_cv_add_at(
                cv_neg(pv_model(token, denom, pos, precision, epoch)),
                pv_model(token, denom, pos, precision, target),
                k,
            );
        }
        lemma_cv_add_canon(
            entry_model(token, denom, pos, precision, target, succ),
            delta_model(token, denom, pos, precision, epoch),
        );
        lemma_cv_add_canon(
            cv_neg(pv_model(token, denom, pos, precision, epoch)),
            pv_model(token, denom, pos, precision, target),
        );
        lemma_cv_ext(lhs, rhs);
    }
}

/// The coefficient of any single-asset value is 0 or its declared amount.
pub proof fn lemma_pv_at(
    token: Seq<u8>,
    denom: u8,
    pos: u8,
    precision: int,
    epoch: u64,
    k: Seq<u8>,
)
    ensures
        cv_at(pv_model(token, denom, pos, precision, epoch), k) == precision
            || cv_at(pv_model(token, denom, pos, precision, epoch), k) == 0,
{
}

/// Schedule entries and marginal rewards stay within the precision bound.
pub proof fn lemma_entry_bounded(
    token: Seq<u8>,
    denom: u8,
    pos: u8,
    precision: int,
    target: u64,
    epoch: u64,
)
    requires
        epoch <= target,
        0 <= precision,
    ensures
        cv_bounded(entry_model(token, denom, pos, precision, target, epoch), precision),
        cv_canon(entry_model(token, denom, pos, precision, target, epoch)),
{
    lemma_telescoping(token, denom, pos, precision, target, epoch);
    assert forall|k: Seq<u8>|
        -precision <= #[trigger] cv_at(
            entry_model(token, denom, pos, precision, target, epoch),
            k,
        ) <= precision by {
        lemma_cv_add_at(
            cv_neg(pv_model(token, denom, pos, precision, epoch)),
            pv_model(token, denom, pos, precision, target),
            k,
        );
        lemma_pv_at(token, denom, pos, precision, epoch, k);
        lemma_pv_at(token, denom, pos, precision, target, k);
    }
    if epoch >= target {
    } else {
        lemma_cv_add_canon(
            entry_model(token, denom, pos, precision, target, (epoch + 1) as u64),
            delta_model(token, denom, pos, precision, epoch),
        );
    }
}

} // verus!
