use vstd::prelude::*;
use crate::model::{
    asset_name, cv_at, entry_model, lemma_cv_add_at, lemma_cv_neg_at, lemma_entry_bounded,
    lemma_pv_at, lemma_telescoping, pv_model,
};
use crate::value::{bytes_eq, clone_bytes, AssetId, ConversionValue, Token};
use crate::engine::ConvEngine;
use crate::{MigrationError, TokenAddress, TokenConfig};

verus! {

/// One staged persistence effect of the migration.  All records are keyed
/// under the single target epoch of the run.
#[derive(Debug)]
pub enum ScheduledWrite {
    /// (target epoch, token) -> declared reward precision.
    TokenPrecision { token: Token, precision: u128 },
    /// target epoch -> precision of the distinguished base token.
    BaseNativePrecision { precision: u128 },
    /// (target epoch, asset identifier) -> conversion value.
    Conversion { epoch: u64, pos: u8, asset: AssetId, value: ConversionValue },
}

/// The mathematical content of one staged write.
pub enum WriteModel {
    TokenPrecision { token: Seq<u8>, precision: int },
    BaseNativePrecision { precision: int },
    Conversion { epoch: u64, pos: u8, asset: Seq<u8>, value: Map<Seq<u8>, int> },
}

impl View for ScheduledWrite {
    type V = WriteModel;

    open spec fn view(&self) -> WriteModel {
        match self {
            ScheduledWrite::TokenPrecision { token, precision } => WriteModel::TokenPrecision {
                token: token@,
                precision: *precision as int,
            },
            ScheduledWrite::BaseNativePrecision { precision } => WriteModel::BaseNativePrecision {
                precision: *precision as int,
            },
            ScheduledWrite::Conversion { epoch, pos, asset, value } => WriteModel::Conversion {
                epoch: *epoch,
                pos: *pos,
                asset: asset@,
                value: value@,
            },
        }
    }
}

/// The models of a staged write list, in order.
pub open spec fn plan_model(s: Seq<ScheduledWrite>) -> Seq<WriteModel> {
    Seq::new(s.len(), |i: int| s[i]@)
}

/// The conversion writes of one sub-unit position, most recent epoch first.
pub open spec fn conv_writes_pos(
    token: Seq<u8>,
    denom: u8,
    pos: u8,
    precision: int,
    target: u64,
) -> Seq<WriteModel> {
    Seq::new(
        target as nat,
        |j: int| WriteModel::Conversion {
            epoch: (target - 1 - j) as u64,
            pos,
            asset: asset_name(token, denom, pos, (target - 1 - j) as u64),
            value: entry_model(token, denom, pos, precision, target, (target - 1 - j) as u64),
        },
    )
}

/// Every write staged for one token: its precision record, the base-native
/// precision record where the token is the base token, and the conversion
/// entries of each sub-unit position.
pub open spec fn token_writes(
    token: Seq<u8>,
    denom: u8,
    precision: int,
    target: u64,
    native: Seq<u8>,
) -> Seq<WriteModel> {
    let head = seq![WriteModel::TokenPrecision { token, precision }];
    let head2 = if token == native {
        head.push(WriteModel::BaseNativePrecision { precision })
    } else {
        head
    };
    head2 + conv_writes_pos(token, denom, 0, precision, target) + conv_writes_pos(
        token,
        denom,
        1,
        precision,
        target,
    ) + conv_writes_pos(token, denom, 2, precision, target) + conv_writes_pos(
        token,
        denom,
        3,
        precision,
        target,
    )
}

/// Stages every record of one token's schedule: walks each sub-unit
/// position from the epoch before the target down to genesis, accumulates
/// the running conversion sum, and stages one entry per epoch.
pub fn write_token_schedule(
    token: &Token,
    denom: u8,
    precision: u128,
    target: u64,
    native: &Token,
    out: &mut Vec<ScheduledWrite>,
) -> (r: Result<(), MigrationError>)
    requires
        1 <= precision,
        target < usize::MAX,
    ensures
        (r is Ok) == (precision <= i128::MAX),
        r matches Err(e) ==> e == MigrationError::PrecisionOverflow && final(out)@ == old(out)@,
        r is Ok ==> plan_model(final(out)@) == plan_model(old(out)@) + token_writes(
            token@,
            denom,
            precision as int,
            target,
            native@,
        ),
{
    if precision > (i128::MAX as u128) {
        return Err(MigrationError::PrecisionOverflow);
    }
    let p: i128 = precision as i128;
    let ghost base = out@;
    out.push(ScheduledWrite::TokenPrecision { token: token.dup(), precision });
    if bytes_eq(&token.ident, &native.ident) {
        out.push(ScheduledWrite::BaseNativePrecision { precision });
    }
    let ghost head2 = if token@ == native@ {
        seq![
            WriteModel::TokenPrecision { token: token@, precision: precision as int },
        ].push(WriteModel::BaseNativePrecision { precision: precision as int })
    } else {
        seq![WriteModel::TokenPrecision { token: token@, precision: precision as int }]
    };
    proof {
        assert(plan_model(out@) =~= plan_model(base) + head2);
    }
    let mut pos: u8 = 0;
    while pos < 4
        invariant
            1 <= p,
            p == precision,
            precision <= i128::MAX,
            target < usize::MAX,
            pos <= 4,
            plan_model(out@) =~= plan_model(base) + head2 + conv_prefix(
                token@,
                denom,
                precision as int,
                target,
                pos as int,
            ),
        decreases 4 - pos,
    {
        let ghost pos_base = out@;
        let mut engine = ConvEngine::new(token.dup(), denom, pos, p, target);
        let mut running = ConversionValue::zero();
        let mut i: u64 = target;
        while i > 0
            invariant
                1 <= p,
                target < usize::MAX,
                i <= target,
                engine.wf(),
                engine.config() == (token@, denom, pos, p, target),
                running.wf(),
                running@ == entry_model(token@, denom, pos, p as int, target, i),
                plan_model(out@) =~= plan_model(pos_base) + conv_writes_pos(
                    token@,
                    denom,
                    pos,
                    p as int,
                    target,
                ).take(target - i),
            decreases i,
        {
            let e = i - 1;
            let d = engine.reward_delta(e);
            proof {
                lemma_entry_bounded(token@, denom, pos, p as int, target, i);
                assert forall|k: Seq<u8>|
                    i128::MIN <= #[trigger] cv_at(running@, k) + cv_at(d@, k) <= i128::MAX by {
                    lemma_telescoping(token@, denom, pos, p as int, target, i);
                    lemma_cv_add_at(
                        crate::model::cv_neg(pv_model(token@, denom, pos, p as int, i)),
                        pv_model(token@, denom, pos, p as int, target),
                        k,
                    );
                    lemma_cv_neg_at(pv_model(token@, denom, pos, p as int, i), k);
                    lemma_cv_add_at(
                        crate::model::cv_neg(pv_model(token@, denom, pos, p as int, e)),
                        pv_model(token@, denom, pos, p as int, i),
                        k,
                    );
                    lemma_cv_neg_at(pv_model(token@, denom, pos, p as int, e), k);
                    lemma_pv_at(token@, denom, pos, p as int, i, k);
                    lemma_pv_at(token@, denom, pos, p as int, target, k);
                    lemma_pv_at(token@, denom, pos, p as int, e, k);
                }
            }
            running = running.add(&d);
            proof {
                assert(running@ == entry_model(token@, denom, pos, p as int, target, e));
            }
            let a = engine.asset_id(e);
            let ghost before = out@;
            out.push(
                ScheduledWrite::Conversion { epoch: e, pos, asset: a, value: running.dup() },
            );
            proof {
                let cw = conv_writes_pos(token@, denom, pos, p as int, target);
                assert(out@ == before.push(out@[out@.len() - 1]));
                assert(out@[out@.len() - 1]@ == cw[target - i]);
                assert(plan_model(out@) =~= plan_model(before).push(cw[target - i]));
                assert(cw.take(target - i + 1) =~= cw.take(target - i).push(cw[target - i]));
                assert(plan_model(out@) =~= plan_model(pos_base) + cw.take(target - e));
            }
            i = e;
        }
        proof {
            let cw = conv_writes_pos(token@, denom, pos, p as int, target);
            assert(cw.take(target as int) =~= cw);
            assert(plan_model(out@) =~= plan_model(pos_base) + cw);
            assert(plan_model(out@) =~= plan_model(base) + head2 + conv_prefix(
                token@,
                denom,
                precision as int,
                target,
                pos + 1,
            ));
        }
        pos = pos + 1;
    }
    proof {
        let tk = token@;
        let pi = precision as int;
        assert(conv_prefix(tk, denom, pi, target, 0) =~= Seq::<WriteModel>::empty());
        assert(conv_prefix(tk, denom, pi, target, 1) == conv_prefix(tk, denom, pi, target, 0)
            + conv_writes_pos(tk, denom, 0, pi, target));
        assert(conv_prefix(tk, denom, pi, target, 2) == conv_prefix(tk, denom, pi, target, 1)
            + conv_writes_pos(tk, denom, 1, pi, target));
        assert(conv_prefix(tk, denom, pi, target, 3) == conv_prefix(tk, denom, pi, target, 2)
            + conv_writes_pos(tk, denom, 2, pi, target));
        assert(conv_prefix(tk, denom, pi, target, 4) == conv_prefix(tk, denom, pi, target, 3)
            + conv_writes_pos(tk, denom, 3, pi, target));
        assert(conv_prefix(token@, denom, precision as int, target, 4) =~= conv_writes_pos(
            token@,
            denom,
            0,
            precision as int,
            target,
        ) + conv_writes_pos(token@, denom, 1, precision as int, target) + conv_writes_pos(
            token@,
            denom,
            2,
            precision as int,
            target,
        ) + conv_writes_pos(token@, denom, 3, precision as int, target));
        assert(plan_model(out@) =~= plan_model(base) + token_writes(
            token@,
            denom,
            precision as int,
            target,
            native@,
        ));
    }
    Ok(())
}

/// The conversion writes of the first `n` sub-unit positions.
pub open spec fn conv_prefix(
    token: Seq<u8>,
    denom: u8,
    precision: int,
    target: u64,
    n: int,
) -> Seq<WriteModel>
    decreases n,
{
    if n <= 0 {
        Seq::empty()
    } else {
        conv_prefix(token, denom, precision, target, n - 1) + conv_writes_pos(
            token,
            denom,
            (n - 1) as u8,
            precision,
            target,
        )
    }
}

/// The token-identity prefix of a bridged asset: "transfer/" in utf-8.
pub open spec fn ibc_prefix() -> Seq<u8> {
    seq![116u8, 114u8, 97u8, 110u8, 115u8, 102u8, 101u8, 114u8, 47u8]
}

/// The identity a token reference resolves to: a direct address literal
/// stands for itself; a bridged pair becomes "transfer/{channel}/{base}".
pub open spec fn resolved_ident(a: TokenAddress) -> Seq<u8> {
    match a {
        TokenAddress::Address(s) => s@,
        TokenAddress::Ibc(c, b) => ibc_prefix() + c@ + seq![47u8] + b@,
    }
}

/// A token reference is well formed when none of its strings is empty.
pub open spec fn addr_valid(a: TokenAddress) -> bool {
    match a {
        TokenAddress::Address(s) => s@.len() > 0,
        TokenAddress::Ibc(c, b) => c@.len() > 0 && b@.len() > 0,
    }
}

/// Appends a byte string to another.
fn append_bytes(dst: &mut Vec<u8>, src: &Vec<u8>)
    ensures
        final(dst)@ == old(dst)@ + src@,
{
    let mut i: usize = 0;
    while i < src.len()
        invariant
            i <= src.len(),
            dst@ == old(dst)@ + src@.subrange(0, i as int),
        decreases src.len() - i,
    {
        dst.push(src[i]);
        proof {
            assert(dst@ =~= old(dst)@ + src@.subrange(0, i + 1));
        }
        i = i + 1;
    }
    proof {
        assert(dst@ =~= old(dst)@ + src@);
    }
}

/// Resolves a token reference to its stable identity, or fails on a
/// malformed (empty) literal.
pub fn resolve_token(addr: &TokenAddress) -> (r: Result<Token, MigrationError>)
    ensures
        (r is Ok) == addr_valid(*addr),
        r matches Ok(t) ==> t@ == resolved_ident(*addr),
        r matches Err(e) ==> e == MigrationError::AddressParseError,
{
    match addr {
        TokenAddress::Address(s) => {
            if s.len() == 0 {
                Err(MigrationError::AddressParseError)
            } else {
                Ok(Token { ident: clone_bytes(s) })
            }
        },
        TokenAddress::Ibc(c, b) => {
            if c.len() == 0 || b.len() == 0 {
                Err(MigrationError::AddressParseError)
            } else {
                // "transfer/" and "/" in utf-8 bytes
                let mut ident: Vec<u8> = Vec::new();
                ident.push(116);
                ident.push(114);
                ident.push(97);
                ident.push(110);
                ident.push(115);
                ident.push(102);
                ident.push(101);
                ident.push(114);
                ident.push(47);
                proof {
                    assert(ident@ =~= ibc_prefix());
                }
                append_bytes(&mut ident, c);
                ident.push(47);
                append_bytes(&mut ident, b);
                proof {
                    assert(ident@ =~= ibc_prefix() + c@ + seq![47u8] + b@);
                }
                Ok(Token { ident })
            }
        },
    }
}

/// The failure one configured row would cause, if any.
pub open spec fn entry_error(c: TokenConfig) -> Option<MigrationError> {
    if !addr_valid(c.address) {
        Some(MigrationError::AddressParseError)
    } else if c.precision as int > i128::MAX as int {
        Some(MigrationError::PrecisionOverflow)
    } else {
        None
    }
}

/// The first failure among the rows from `i` on, if any.
pub open spec fn first_error_from(s: Seq<TokenConfig>, i: int) -> Option<MigrationError>
    decreases s.len() - i,
{
    if i < 0 || i >= s.len() {
        None
    } else if entry_error(s[i]) is Some {
        entry_error(s[i])
    } else {
        first_error_from(s, i + 1)
    }
}

/// The failure a run over `s` stops on: the base token literal is checked
/// first, then each row in declaration order.
pub open spec fn run_error(native: TokenAddress, s: Seq<TokenConfig>) -> Option<MigrationError> {
    if !addr_valid(native) {
        Some(MigrationError::AddressParseError)
    } else {
        first_error_from(s, 0)
    }
}

/// Rows without a failure contribute nothing to the first failure.
pub proof fn lemma_first_error_skip(s: Seq<TokenConfig>, a: int, b: int)
    requires
        0 <= a <= b <= s.len(),
        forall|j: int| a <= j < b ==> #[trigger] entry_error(s[j]) is None,
    ensures
        first_error_from(s, a) == first_error_from(s, b),
    decreases b - a,
{
    if a < b {
        assert(entry_error(s[a]) is None);
        lemma_first_error_skip(s, a + 1, b);
    }
}

/// The writes of the first `i` configured rows, in declaration order.
pub open spec fn writes_upto(
    s: Seq<TokenConfig>,
    target: u64,
    native: Seq<u8>,
    i: int,
) -> Seq<WriteModel>
    decreases i,
{
    if i <= 0 {
        Seq::empty()
    } else {
        writes_upto(s, target, native, i - 1) + token_writes(
            resolved_ident(s[i - 1].address),
            s[i - 1].denom,
            s[i - 1].precision as int,
            target,
            native,
        )
    }
}

/// Every write of the whole migration, in order.
pub open spec fn migration_writes(s: Seq<TokenConfig>, target: u64, native: Seq<u8>) -> Seq<
    WriteModel,
> {
    writes_upto(s, target, native, s.len() as int)
}

/// The migration driver: resolves the base token and each configured row in
/// declaration order, stages every row's schedule, and stops on the first
/// failure with nothing staged.  Identical inputs yield an identical plan.
pub fn migrate(tokens: &Vec<TokenConfig>, native: &TokenAddress, target: u64) -> (r: Result<
    Vec<ScheduledWrite>,
    MigrationError,
>)
    requires
        target < usize::MAX,
        forall|i: int| 0 <= i < tokens@.len() ==> 1 <= #[trigger] tokens@[i].precision,
    ensures
        (r is Ok) == (run_error(*native, tokens@) is None),
        r matches Err(e) ==> run_error(*native, tokens@) == Some(e),
        r matches Ok(v) ==> plan_model(v@) == migration_writes(
            tokens@,
            target,
            resolved_ident(*native),
        ),
{
    let native_tok = match resolve_token(native) {
        Ok(t) => t,
        Err(e) => {
            return Err(e);
        },
    };
    let mut out: Vec<ScheduledWrite> = Vec::new();
    let mut i: usize = 0;
    while i < tokens.len()
        invariant
            target < usize::MAX,
            forall|j: int| 0 <= j < tokens@.len() ==> 1 <= #[trigger] tokens@[j].precision,
            i <= tokens@.len(),
            addr_valid(*native),
            native_tok@ == resolved_ident(*native),
            forall|j: int| 0 <= j < i ==> #[trigger] entry_error(tokens@[j]) is None,
            plan_model(out@) =~= writes_upto(tokens@, target, resolved_ident(*native), i as int),
        decreases tokens@.len() - i,
    {
        let c = &tokens[i];
        let t = match resolve_token(&c.address) {
            Ok(t) => t,
            Err(e) => {
                proof {
                    assert(entry_error(tokens@[i as int]) == Some(
                        MigrationError::AddressParseError,
                    ));
                    lemma_first_error_skip(tokens@, 0, i as int);
                }
                return Err(e);
            },
        };
        match write_token_schedule(&t, c.denom, c.precision, target, &native_tok, &mut out) {
            Ok(()) => {},
            Err(e) => {
                proof {
                    assert(entry_error(tokens@[i as int]) == Some(
                        MigrationError::PrecisionOverflow,
                    ));
                    lemma_first_error_skip(tokens@, 0, i as int);
                }
                return Err(e);
            },
        }
        proof {
            assert(entry_error(tokens@[i as int]) is None);
            assert(writes_upto(tokens@, target, resolved_ident(*native), i + 1) == writes_upto(
                tokens@,
                target,
                resolved_ident(*native),
                i as int,
            ) + token_writes(
                resolved_ident(tokens@[i as int].address),
                tokens@[i as int].denom,
                tokens@[i as int].precision as int,
                target,
                resolved_ident(*native),
            ));
            assert(plan_model(out@) =~= writes_upto(
                tokens@,
                target,
                resolved_ident(*native),
                i + 1,
            ));
        }
        i = i + 1;
    }
    proof {
        lemma_first_error_skip(tokens@, 0, tokens@.len() as int);
    }
    Ok(out)
}

/// Whether `w` is the conversion entry of epoch `e` at position `pos`.
pub open spec fn is_conversion_at(w: WriteModel, e: u64, pos: u8) -> bool {
    match w {
        WriteModel::Conversion { epoch, pos: p, .. } => epoch == e && p == pos,
        _ => false,
    }
}

/// Monotonic range coverage: one token's staged writes hold a conversion
/// entry for epoch `e` at position `pos` exactly when `e` lies in
/// [0, target); no entry exists at or past the target epoch.
pub proof fn lemma_range_coverage(
    token: Seq<u8>,
    denom: u8,
    precision: int,
    target: u64,
    native: Seq<u8>,
    pos: u8,
    e: u64,
)
    requires
        pos < 4,
    ensures
        (exists|j: int|
            0 <= j < token_writes(token, denom, precision, target, native).len()
                && is_conversion_at(
                #[trigger] token_writes(token, denom, precision, target, native)[j],
                e,
                pos,
            )) <==> e < target,
{
    let tw = token_writes(token, denom, precision, target, native);
    let h = if token == native {
        2int
    } else {
        1int
    };
    let cw0 = conv_writes_pos(token, denom, 0, precision, target);
    let cw1 = conv_writes_pos(token, denom, 1, precision, target);
    let cw2 = conv_writes_pos(token, denom, 2, precision, target);
    let cw3 = conv_writes_pos(token, denom, 3, precision, target);
    assert(tw.len() == h + 4 * target);
    assert forall|j: int| 0 <= j < tw.len() implies tw[j] == (if j < h {
        if j == 0 {
            WriteModel::TokenPrecision { token, precision }
        } else {
            WriteModel::BaseNativePrecision { precision }
        }
    } else if j < h + target {
        cw0[j - h]
    } else if j < h + 2 * target {
        cw1[j - h - target]
    } else if j < h + 3 * target {
        cw2[j - h - 2 * target]
    } else {
        cw3[j - h - 3 * target]
    }) by {}
    if e < target {
        let j = h + (pos as int) * target + (target - 1 - e);
        if pos == 0 {
            assert(is_conversion_at(tw[j], e, pos));
        } else if pos == 1 {
            assert(is_conversion_at(tw[j], e, pos));
        } else if pos == 2 {
            assert(is_conversion_at(tw[j], e, pos));
        } else {
            assert(is_conversion_at(tw[j], e, pos));
        }
    } else {
        if exists|j: int| 0 <= j < tw.len() && is_conversion_at(#[trigger] tw[j], e, pos) {
            let j = choose|j: int| 0 <= j < tw.len() && is_conversion_at(#[trigger] tw[j], e, pos);
            assert(false);
        }
    }
}

/// Empty-range edge case: with a target epoch of zero, a token's staged
/// writes are its precision records alone, and no conversion entry at all.
pub proof fn lemma_empty_range(token: Seq<u8>, denom: u8, precision: int, native: Seq<u8>)
    ensures
        token_writes(token, denom, precision, 0, native).len() == (if token == native {
            2int
        } else {
            1int
        }),
        forall|j: int|
            0 <= j < token_writes(token, denom, precision, 0, native).len() ==> !(
            #[trigger] token_writes(token, denom, precision, 0, native)[j] is Conversion),
        token_writes(token, denom, precision, 0, native)[0] == (WriteModel::TokenPrecision {
            token,
            precision,
        }),
{
    let tw = token_writes(token, denom, precision, 0, native);
    assert(conv_writes_pos(token, denom, 0, precision, 0).len() == 0);
    assert(conv_writes_pos(token, denom, 1, precision, 0).len() == 0);
    assert(conv_writes_pos(token, denom, 2, precision, 0).len() == 0);
    assert(conv_writes_pos(token, denom, 3, precision, 0).len() == 0);
}

/// Base-token singling-out: a token's staged writes hold a base-native
/// precision record exactly when the token is the base token, and never
/// more than one.
pub proof fn lemma_base_token_singling(
    token: Seq<u8>,
    denom: u8,
    precision: int,
    target: u64,
    native: Seq<u8>,
)
    ensures
        (exists|j: int|
            0 <= j < token_writes(token, denom, precision, target, native).len() && #[trigger] token_writes(
                token,
                denom,
                precision,
                target,
                native,
            )[j] is BaseNativePrecision) <==> token == native,
        forall|j1: int, j2: int|
            0 <= j1 < j2 < token_writes(token, denom, precision, target, native).len() ==> !(
            #[trigger] token_writes(token, denom, precision, target, native)[j1] is BaseNativePrecision)
                || !(#[trigger] token_writes(
                token,
                denom,
                precision,
                target,
                native,
            )[j2] is BaseNativePrecision),
{
    let tw = token_writes(token, denom, precision, target, native);
    let h = if token == native {
        2int
    } else {
        1int
    };
    assert forall|j: int| 0 <= j < tw.len() implies (tw[j] is BaseNativePrecision <==> (token
        == native && j == 1)) by {
        if j >= h {
            let cw0 = conv_writes_pos(token, denom, 0, precision, target);
            let cw1 = conv_writes_pos(token, denom, 1, precision, target);
            let cw2 = conv_writes_pos(token, denom, 2, precision, target);
            let cw3 = conv_writes_pos(token, denom, 3, precision, target);
            assert(tw[j] == (if j < h + target {
                cw0[j - h]
            } else if j < h + 2 * target {
                cw1[j - h - target]
            } else if j < h + 3 * target {
                cw2[j - h - 2 * target]
            } else {
                cw3[j - h - 3 * target]
            }));
        }
    }
    if token == native {
        assert(tw[1] is BaseNativePrecision);
    }
}

/// The successor of an epoch, where one exists; the epoch index is a
/// discrete time with a defined zero and a bounded representation.
pub fn epoch_succ(e: u64) -> (r: Result<u64, MigrationError>)
    ensures
        e < u64::MAX ==> r == Ok::<u64, MigrationError>((e + 1) as u64),
        e == u64::MAX ==> r == Err::<u64, MigrationError>(MigrationError::EpochOverflow),
{
    if e == u64::MAX {
        Err(MigrationError::EpochOverflow)
    } else {
        Ok(e + 1)
    }
}

} // verus!
