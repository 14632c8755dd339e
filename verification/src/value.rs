use vstd::prelude::*;
use crate::model::{
    lemma_cv_add_at,
    asset_name, cv_add, cv_at, cv_canon, cv_empty, cv_neg, cv_single, le64, lemma_cv_add_canon,
    lemma_cv_ext,
};

verus! {

/// Byte-for-byte copy of a byte string.
pub fn clone_bytes(v: &Vec<u8>) -> (r: Vec<u8>)
    ensures
        r@ == v@,
{
    let mut r: Vec<u8> = Vec::new();
    let mut i: usize = 0;
    while i < v.len()
        invariant
            i <= v.len(),
            r@ == v@.subrange(0, i as int),
        decreases v.len() - i,
    {
        r.push(v[i]);
        proof {
            assert(r@ =~= v@.subrange(0, i + 1));
        }
        i = i + 1;
    }
    proof {
        assert(r@ =~= v@);
    }
    r
}

/// Whether two byte strings are equal.
pub fn bytes_eq(a: &Vec<u8>, b: &Vec<u8>) -> (r: bool)
    ensures
        r == (a@ == b@),
{
    if a.len() != b.len() {
        return false;
    }
    let mut i: usize = 0;
    while i < a.len()
        invariant
            i <= a.len(),
            a@.len() == b@.len(),
            forall|j: int| 0 <= j < i ==> a@[j] == b@[j],
        decreases a.len() - i,
    {
        if a[i] != b[i] {
            return false;
        }
        i = i + 1;
    }
    proof {
        assert(a@ =~= b@);
    }
    true
}

/// A resolved token: its stable identity bytes (an account address literal,
/// or the bridged-asset path derived from a channel and a base token).
#[derive(Debug)]
pub struct Token {
    pub ident: Vec<u8>,
}

impl View for Token {
    type V = Seq<u8>;

    open spec fn view(&self) -> Seq<u8> {
        self.ident@
    }
}

impl Token {
    pub fn dup(&self) -> (r: Token)
        ensures
            r@ == self@,
    {
        Token { ident: clone_bytes(&self.ident) }
    }
}

/// An asset identifier: the canonical bytes derived from a token identity,
/// a denomination, a sub-unit position and an epoch.  Compared by value.
#[derive(Debug)]
pub struct AssetId {
    pub bytes: Vec<u8>,
}

impl View for AssetId {
    type V = Seq<u8>;

    open spec fn view(&self) -> Seq<u8> {
        self.bytes@
    }
}

impl AssetId {
    pub fn dup(&self) -> (r: AssetId)
        ensures
            r@ == self@,
    {
        AssetId { bytes: clone_bytes(&self.bytes) }
    }
}

/// Appends the little-endian bytes of `e` to `out`.
fn push_le64(out: &mut Vec<u8>, e: u64)
    ensures
        final(out)@ == old(out)@ + le64(e),
{
    out.push((e & 0xff) as u8);
    out.push(((e >> 8) & 0xff) as u8);
    out.push(((e >> 16) & 0xff) as u8);
    out.push(((e >> 24) & 0xff) as u8);
    out.push(((e >> 32) & 0xff) as u8);
    out.push(((e >> 40) & 0xff) as u8);
    out.push(((e >> 48) & 0xff) as u8);
    out.push(((e >> 56) & 0xff) as u8);
    proof {
        assert(out@ =~= old(out)@ + le64(e));
    }
}

/// Derives the asset identifier of (token, denomination, position, epoch).
/// The token bytes are length-prefixed, so distinct inputs yield distinct
/// identifiers.
pub fn encode_asset_id(token: &Token, denom: u8, pos: u8, epoch: u64) -> (r: AssetId)
    ensures
        r@ == asset_name(token@, denom, pos, epoch),
{
    let mut bytes: Vec<u8> = Vec::new();
    push_le64(&mut bytes, token.ident.len() as u64);
    let mut i: usize = 0;
    while i < token.ident.len()
        invariant
            i <= token.ident.len(),
            bytes@ == le64(token@.len() as u64) + token@.subrange(0, i as int),
        decreases token.ident.len() - i,
    {
        bytes.push(token.ident[i]);
        proof {
            assert(bytes@ =~= le64(token@.len() as u64) + token@.subrange(0, i + 1));
        }
        i = i + 1;
    }
    proof {
        assert(token@.subrange(0, token@.len() as int) =~= token@);
    }
    bytes.push(denom);
    bytes.push(pos);
    push_le64(&mut bytes, epoch);
    proof {
        assert(bytes@ =~= asset_name(token@, denom, pos, epoch));
    }
    AssetId { bytes }
}

// ---------------------------------------------------------------------------
// Conversion values.

/// The identifier of entry `i`.
pub open spec fn key_at(s: Seq<(AssetId, i128)>, i: int) -> Seq<u8> {
    s[i].0@
}

/// The coefficient of entry `i`.
pub open spec fn val_at(s: Seq<(AssetId, i128)>, i: int) -> int {
    s[i].1 as int
}

/// The sparse map held by an entry list.
pub open spec fn entries_map(s: Seq<(AssetId, i128)>) -> Map<Seq<u8>, int>
    decreases s.len(),
{
    if s.len() == 0 {
        Map::empty()
    } else {
        entries_map(s.drop_last()).insert(key_at(s, s.len() - 1), val_at(s, s.len() - 1))
    }
}

/// Well-formed entry list: identifiers distinct, no zero coefficients.
pub open spec fn entries_wf(s: Seq<(AssetId, i128)>) -> bool {
    &&& forall|i: int, j: int|
        0 <= i < j < s.len() ==> #[trigger] key_at(s, i) != #[trigger] key_at(s, j)
    &&& forall|i: int| 0 <= i < s.len() ==> #[trigger] val_at(s, i) != 0
}

/// The map of a well-formed entry list holds exactly its entries.
pub proof fn lemma_entries_map(s: Seq<(AssetId, i128)>)
    requires
        entries_wf(s),
    ensures
        forall|k: Seq<u8>|
            #[trigger] entries_map(s).dom().contains(k) ==> exists|i: int|
                0 <= i < s.len() && key_at(s, i) == k,
        forall|i: int|
            0 <= i < s.len() ==> entries_map(s).dom().contains(#[trigger] key_at(s, i))
                && entries_map(s)[key_at(s, i)] == val_at(s, i),
        cv_canon(entries_map(s)),
    decreases s.len(),
{
    if s.len() == 0 {
    } else {
        let t = s.drop_last();
        let n = s.len() - 1;
        assert forall|i: int| 0 <= i < t.len() implies key_at(t, i) == key_at(s, i) && val_at(
            t,
            i,
        ) == val_at(s, i) by {
            assert(t[i] == s[i]);
        }
        assert(entries_wf(t));
        lemma_entries_map(t);
        let m = entries_map(s);
        assert(m == entries_map(t).insert(key_at(s, n), val_at(s, n)));
        assert forall|k: Seq<u8>| #[trigger] m.dom().contains(k) implies exists|i: int|
            0 <= i < s.len() && key_at(s, i) == k by {
            if k == key_at(s, n) {
                assert(0 <= n < s.len() && key_at(s, n) == k);
            } else {
                assert(entries_map(t).dom().contains(k));
                let i = choose|i: int| 0 <= i < t.len() && key_at(t, i) == k;
                assert(0 <= i < s.len() && key_at(s, i) == k);
            }
        }
        assert forall|i: int| 0 <= i < s.len() implies m.dom().contains(#[trigger] key_at(s, i))
            && m[key_at(s, i)] == val_at(s, i) by {
            if i == n {
            } else {
                assert(key_at(s, i) != key_at(s, n));
                assert(entries_map(t).dom().contains(key_at(t, i)));
            }
        }
        assert forall|k: Seq<u8>| m.dom().contains(k) implies #[trigger] m[k] != 0 by {
            let i = choose|i: int| 0 <= i < s.len() && key_at(s, i) == k;
            assert(m[key_at(s, i)] == val_at(s, i));
        }
    }
}

/// Appending an entry inserts it into the map.
pub proof fn lemma_entries_map_push(s: Seq<(AssetId, i128)>, p: (AssetId, i128))
    ensures
        entries_map(s.push(p)) == entries_map(s).insert(p.0@, p.1 as int),
{
    let sp = s.push(p);
    assert(sp.drop_last() =~= s);
    assert(key_at(sp, sp.len() - 1) == p.0@);
    assert(val_at(sp, sp.len() - 1) == p.1 as int);
}

/// A conversion value: a formal linear combination of asset identifiers with
/// signed 128-bit coefficients.  Supports addition, negation and an all-zero
/// identity; the persisted unit of the schedule.
#[derive(Debug)]
pub struct ConversionValue {
    entries: Vec<(AssetId, i128)>,
}

impl View for ConversionValue {
    type V = Map<Seq<u8>, int>;

    closed spec fn view(&self) -> Map<Seq<u8>, int> {
        entries_map(self.entries@)
    }
}

impl ConversionValue {
    pub closed spec fn wf(&self) -> bool {
        entries_wf(self.entries@)
    }

    /// The all-zero conversion value.
    pub fn zero() -> (r: ConversionValue)
        ensures
            r.wf(),
            r@ == cv_empty(),
    {
        ConversionValue { entries: Vec::new() }
    }

    /// `amount` units of the single asset `asset`.
    pub fn from_pair(asset: AssetId, amount: i128) -> (r: ConversionValue)
        requires
            amount != 0,
        ensures
            r.wf(),
            r@ == cv_single(asset@, amount as int),
    {
        let ghost ak = asset@;
        let mut entries: Vec<(AssetId, i128)> = Vec::new();
        entries.push((asset, amount));
        proof {
            lemma_entries_map_push(Seq::empty(), (asset, amount));
            assert(entries@ =~= Seq::empty().push((asset, amount)));
            assert(entries_map(entries@) == cv_single(ak, amount as int));
        }
        ConversionValue { entries }
    }

    /// The coefficient of `asset`, zero where absent.
    pub fn get(&self, asset: &AssetId) -> (r: i128)
        requires
            self.wf(),
        ensures
            r as int == cv_at(self@, asset@),
    {
        proof {
            lemma_entries_map(self.entries@);
        }
        let mut i: usize = 0;
        while i < self.entries.len()
            invariant
                self.wf(),
                i <= self.entries@.len(),
                forall|j: int| 0 <= j < i ==> key_at(self.entries@, j) != asset@,
            decreases self.entries@.len() - i,
        {
            let pair = &self.entries[i];
            if bytes_eq(&pair.0.bytes, &asset.bytes) {
                proof {
                    lemma_entries_map(self.entries@);
                    assert(key_at(self.entries@, i as int) == asset@);
                }
                return pair.1;
            }
            proof {
                assert(key_at(self.entries@, i as int) != asset@);
            }
            i = i + 1;
        }
        proof {
            lemma_entries_map(self.entries@);
            if self@.dom().contains(asset@) {
                let j = choose|j: int|
                    0 <= j < self.entries@.len() && key_at(self.entries@, j) == asset@;
                assert(false);
            }
        }
        0
    }

    /// The pointwise negation of this value.
    pub fn neg(&self) -> (r: ConversionValue)
        requires
            self.wf(),
            forall|k: Seq<u8>| #[trigger] cv_at(self@, k) != i128::MIN,
        ensures
            r.wf(),
            r@ == cv_neg(self@),
    {
        proof {
            lemma_entries_map(self.entries@);
        }
        let mut entries: Vec<(AssetId, i128)> = Vec::new();
        let mut i: usize = 0;
        while i < self.entries.len()
            invariant
                self.wf(),
                forall|k: Seq<u8>| #[trigger] cv_at(self@, k) != i128::MIN,
                i <= self.entries@.len(),
                entries@.len() == i,
                forall|j: int|
                    0 <= j < i ==> #[trigger] key_at(entries@, j) == key_at(self.entries@, j),
                forall|j: int|
                    0 <= j < i ==> #[trigger] val_at(entries@, j) == -val_at(self.entries@, j),
            decreases self.entries@.len() - i,
        {
            let ghost before = entries@;
            let pair = &self.entries[i];
            proof {
                lemma_entries_map(self.entries@);
                assert(cv_at(self@, key_at(self.entries@, i as int)) == val_at(
                    self.entries@,
                    i as int,
                ));
            }
            let c = pair.1;
            entries.push((pair.0.dup(), -c));
            proof {
                let p = entries@[entries@.len() - 1];
                assert(entries@ == before.push(p));
                assert(p.0@ == key_at(self.entries@, i as int));
                assert(p.1 as int == -val_at(self.entries@, i as int));
                assert forall|jq: int| 0 <= jq < i + 1 implies #[trigger] key_at(entries@, jq)
                    == key_at(self.entries@, jq) by {
                    if jq < i {
                        assert(key_at(entries@, jq) == key_at(before, jq));
                    } else {
                        assert(entries@[jq] == p);
                    }
                }
                assert forall|jq: int| 0 <= jq < i + 1 implies #[trigger] val_at(entries@, jq)
                    == -val_at(self.entries@, jq) by {
                    if jq < i {
                        assert(val_at(entries@, jq) == val_at(before, jq));
                    } else {
                        assert(entries@[jq] == p);
                    }
                }
            }
            i = i + 1;
        }
        proof {
            lemma_entries_map(self.entries@);
            assert forall|ia: int, ja: int| 0 <= ia < ja < entries@.len() implies #[trigger] key_at(
                entries@,
                ia,
            ) != #[trigger] key_at(entries@, ja) by {
                assert(key_at(entries@, ia) == key_at(self.entries@, ia));
                assert(key_at(entries@, ja) == key_at(self.entries@, ja));
            }
            assert forall|ia: int| 0 <= ia < entries@.len() implies #[trigger] val_at(
                entries@,
                ia,
            ) != 0 by {
                assert(val_at(entries@, ia) == -val_at(self.entries@, ia));
                assert(val_at(self.entries@, ia) != 0);
            }
            assert(entries_wf(entries@));
            lemma_entries_map(entries@);
            assert forall|k: Seq<u8>| cv_at(entries_map(entries@), k) == cv_at(
                cv_neg(self@),
                k,
            ) by {
                if entries_map(entries@).dom().contains(k) {
                    let j = choose|j: int|
                        0 <= j < entries@.len() && key_at(entries@, j) == k;
                    assert(cv_at(self@, k) == val_at(self.entries@, j));
                } else {
                    if self@.dom().contains(k) {
                        let j = choose|j: int|
                            0 <= j < self.entries@.len() && key_at(self.entries@, j) == k;
                        assert(entries_map(entries@).dom().contains(key_at(entries@, j)));
                        assert(false);
                    }
                }
            }
            lemma_cv_ext(entries_map(entries@), cv_neg(self@));
        }
        ConversionValue { entries }
    }

    /// The pointwise sum of this value and `other`.
    pub fn add(&self, other: &ConversionValue) -> (r: ConversionValue)
        requires
            self.wf(),
            other.wf(),
            forall|k: Seq<u8>|
                i128::MIN <= #[trigger] cv_at(self@, k) + cv_at(other@, k) <= i128::MAX,
        ensures
            r.wf(),
            r@ == cv_add(self@, other@),
    {
        proof {
            lemma_entries_map(self.entries@);
            lemma_entries_map(other.entries@);
        }
        let mut entries: Vec<(AssetId, i128)> = Vec::new();
        let mut i: usize = 0;
        // the identifiers of `self`, with the summed coefficients
        while i < self.entries.len()
            invariant
                self.wf(),
                other.wf(),
                forall|k: Seq<u8>|
                    i128::MIN <= #[trigger] cv_at(self@, k) + cv_at(other@, k) <= i128::MAX,
                i <= self.entries@.len(),
                entries_wf(entries@),
                forall|k: Seq<u8>|
                    #[trigger] cv_at(entries_map(entries@), k) == if (exists|j: int|
                        0 <= j < i && key_at(self.entries@, j) == k) {
                        cv_at(self@, k) + cv_at(other@, k)
                    } else {
                        0
                    },
            decreases self.entries@.len() - i,
        {
            let ghost before = entries@;
            let pair = &self.entries[i];
            let ghost k_i = key_at(self.entries@, i as int);
            proof {
                lemma_entries_map(self.entries@);
                lemma_entries_map(before);
                assert(cv_at(self@, k_i) == val_at(self.entries@, i as int));
                assert(cv_at(entries_map(before), k_i) == 0) by {
                    if exists|j: int| 0 <= j < i && key_at(self.entries@, j) == k_i {
                        let j = choose|j: int| 0 <= j < i && key_at(self.entries@, j) == k_i;
                        assert(false);
                    }
                }
                assert(!entries_map(before).dom().contains(k_i));
            }
            let b = other.get(&pair.0);
            let c = pair.1 + b;
            if c != 0 {
                entries.push((pair.0.dup(), c));
                proof {
                    let p = entries@[entries@.len() - 1];
                    assert(entries@ == before.push(p));
                    assert(p.0@ == k_i && p.1 == c);
                    lemma_entries_map_push(before, p);
                    assert forall|ja: int, jb: int| 0 <= ja < jb < entries@.len() implies #[trigger] key_at(
                        entries@,
                        ja,
                    ) != #[trigger] key_at(entries@, jb) by {
                        assert(key_at(entries@, ja) == key_at(before, ja));
                        assert(entries_map(before).dom().contains(key_at(before, ja)));
                        if jb < entries@.len() - 1 {
                            assert(key_at(entries@, jb) == key_at(before, jb));
                            assert(key_at(before, ja) != key_at(before, jb));
                        } else {
                            assert(key_at(entries@, jb) == k_i);
                        }
                    }
                    assert forall|ja: int| 0 <= ja < entries@.len() implies #[trigger] val_at(
                        entries@,
                        ja,
                    ) != 0 by {
                        if ja < entries@.len() - 1 {
                            assert(val_at(entries@, ja) == val_at(before, ja));
                        } else {
                            assert(val_at(entries@, ja) == c as int);
                        }
                    }
                    assert(entries_wf(entries@));
                    assert forall|k: Seq<u8>|
                        #[trigger] cv_at(entries_map(entries@), k) == if (exists|j: int|
                            0 <= j < i + 1 && key_at(self.entries@, j) == k) {
                            cv_at(self@, k) + cv_at(other@, k)
                        } else {
                            0
                        } by {
                        if k == k_i {
                            assert(key_at(self.entries@, i as int) == k);
                            assert(cv_at(entries_map(entries@), k) == c as int);
                        } else {
                            assert(cv_at(entries_map(entries@), k) == cv_at(
                                entries_map(before),
                                k,
                            ));
                            if exists|j: int| 0 <= j < i + 1 && key_at(self.entries@, j) == k {
                                let j = choose|j: int|
                                    0 <= j < i + 1 && key_at(self.entries@, j) == k;
                                assert(0 <= j < i && key_at(self.entries@, j) == k);
                            }
                        }
                    }
                }
            } else {
                proof {
                    assert forall|k: Seq<u8>|
                        #[trigger] cv_at(entries_map(entries@), k) == if (exists|j: int|
                            0 <= j < i + 1 && key_at(self.entries@, j) == k) {
                            cv_at(self@, k) + cv_at(other@, k)
                        } else {
                            0
                        } by {
                        if k == k_i {
                            assert(key_at(self.entries@, i as int) == k);
                            assert(cv_at(self@, k) + cv_at(other@, k) == 0);
                        } else {
                            if exists|j: int| 0 <= j < i + 1 && key_at(self.entries@, j) == k {
                                let j = choose|j: int|
                                    0 <= j < i + 1 && key_at(self.entries@, j) == k;
                                assert(0 <= j < i && key_at(self.entries@, j) == k);
                            }
                        }
                    }
                }
            }
            i = i + 1;
        }
        proof {
            lemma_entries_map(self.entries@);
            assert forall|k: Seq<u8>|
                #[trigger] cv_at(entries_map(entries@), k) == if self@.dom().contains(k) || (
                exists|j2: int|
                    0 <= j2 < 0 && key_at(other.entries@, j2) == k) {
                    cv_at(self@, k) + cv_at(other@, k)
                } else {
                    0
                } by {
                if self@.dom().contains(k) {
                    let j = choose|j: int|
                        0 <= j < self.entries@.len() && key_at(self.entries@, j) == k;
                    assert(cv_at(entries_map(entries@), k) == cv_at(self@, k) + cv_at(other@, k));
                } else {
                    if exists|j: int|
                        0 <= j < self.entries@.len() && key_at(self.entries@, j) == k {
                        let j = choose|j: int|
                            0 <= j < self.entries@.len() && key_at(self.entries@, j) == k;
                        assert(self@.dom().contains(k));
                    }
                }
            }
        }
        // the identifiers held only by `other`
        let mut j: usize = 0;
        while j < other.entries.len()
            invariant
                self.wf(),
                other.wf(),
                j <= other.entries@.len(),
                entries_wf(entries@),
                forall|k: Seq<u8>|
                    #[trigger] cv_at(entries_map(entries@), k) == if self@.dom().contains(k) || (
                    exists|j2: int|
                        0 <= j2 < j && key_at(other.entries@, j2) == k) {
                        cv_at(self@, k) + cv_at(other@, k)
                    } else {
                        0
                    },
            decreases other.entries@.len() - j,
        {
            let ghost before = entries@;
            let pair = &other.entries[j];
            let ghost k_j = key_at(other.entries@, j as int);
            proof {
                lemma_entries_map(other.entries@);
                lemma_entries_map(before);
                assert(cv_at(other@, k_j) == val_at(other.entries@, j as int));
            }
            let a = self.get(&pair.0);
            if a == 0 {
                proof {
                    lemma_entries_map(self.entries@);
                    assert(!self@.dom().contains(k_j));
                    assert(cv_at(entries_map(before), k_j) == 0) by {
                        if exists|j2: int| 0 <= j2 < j && key_at(other.entries@, j2) == k_j {
                            let j2 = choose|j2: int|
                                0 <= j2 < j && key_at(other.entries@, j2) == k_j;
                            assert(false);
                        }
                    }
                    assert(!entries_map(before).dom().contains(k_j));
                }
                let c = pair.1;
                entries.push((pair.0.dup(), c));
                proof {
                    let p = entries@[entries@.len() - 1];
                    assert(entries@ == before.push(p));
                    assert(p.0@ == k_j && p.1 == c);
                    lemma_entries_map_push(before, p);
                    assert forall|wa: int, wb: int| 0 <= wa < wb < entries@.len() implies #[trigger] key_at(
                        entries@,
                        wa,
                    ) != #[trigger] key_at(entries@, wb) by {
                        assert(key_at(entries@, wa) == key_at(before, wa));
                        assert(entries_map(before).dom().contains(key_at(before, wa)));
                        if wb < entries@.len() - 1 {
                            assert(key_at(entries@, wb) == key_at(before, wb));
                            assert(key_at(before, wa) != key_at(before, wb));
                        } else {
                            assert(key_at(entries@, wb) == k_j);
                        }
                    }
                    assert forall|wa: int| 0 <= wa < entries@.len() implies #[trigger] val_at(
                        entries@,
                        wa,
                    ) != 0 by {
                        if wa < entries@.len() - 1 {
                            assert(val_at(entries@, wa) == val_at(before, wa));
                        } else {
                            assert(val_at(entries@, wa) == c as int);
                        }
                    }
                    assert(entries_wf(entries@));
                    assert forall|k: Seq<u8>|
                        #[trigger] cv_at(entries_map(entries@), k) == if self@.dom().contains(k)
                            || (exists|j2: int|
                            0 <= j2 < j + 1 && key_at(other.entries@, j2) == k) {
                            cv_at(self@, k) + cv_at(other@, k)
                        } else {
                            0
                        } by {
                        if k == k_j {
                            assert(key_at(other.entries@, j as int) == k);
                            assert(cv_at(entries_map(entries@), k) == c as int);
                            assert(cv_at(self@, k) == 0);
                        } else {
                            assert(cv_at(entries_map(entries@), k) == cv_at(
                                entries_map(before),
                                k,
                            ));
                            if exists|j2: int| 0 <= j2 < j + 1 && key_at(other.entries@, j2) == k {
                                let j2 = choose|j2: int|
                                    0 <= j2 < j + 1 && key_at(other.entries@, j2) == k;
                                assert(0 <= j2 < j && key_at(other.entries@, j2) == k);
                            }
                        }
                    }
                }
            } else {
                proof {
                    lemma_entries_map(self.entries@);
                    assert(self@.dom().contains(k_j));
                    assert forall|k: Seq<u8>|
                        #[trigger] cv_at(entries_map(entries@), k) == if self@.dom().contains(k)
                            || (exists|j2: int|
                            0 <= j2 < j + 1 && key_at(other.entries@, j2) == k) {
                            cv_at(self@, k) + cv_at(other@, k)
                        } else {
                            0
                        } by {
                        if k == k_j {
                            assert(key_at(other.entries@, j as int) == k);
                        } else {
                            if exists|j2: int| 0 <= j2 < j + 1 && key_at(other.entries@, j2) == k {
                                let j2 = choose|j2: int|
                                    0 <= j2 < j + 1 && key_at(other.entries@, j2) == k;
                                assert(0 <= j2 < j && key_at(other.entries@, j2) == k);
                            }
                        }
                    }
                }
            }
            j = j + 1;
        }
        proof {
            lemma_entries_map(self.entries@);
            lemma_entries_map(other.entries@);
            lemma_entries_map(entries@);
            assert forall|k: Seq<u8>| cv_at(entries_map(entries@), k) == cv_at(
                cv_add(self@, other@),
                k,
            ) by {
                lemma_cv_add_at(self@, other@, k);
                if self@.dom().contains(k) {
                } else if other@.dom().contains(k) {
                    let j2 = choose|j2: int|
                        0 <= j2 < other.entries@.len() && key_at(other.entries@, j2) == k;
                } else {
                    assert(cv_at(self@, k) == 0 && cv_at(other@, k) == 0);
                    if exists|j2: int|
                        0 <= j2 < other.entries@.len() && key_at(other.entries@, j2) == k {
                        let j2 = choose|j2: int|
                            0 <= j2 < other.entries@.len() && key_at(other.entries@, j2) == k;
                        assert(other@.dom().contains(k));
                    }
                }
            }
            lemma_cv_add_canon(self@, other@);
            lemma_cv_ext(entries_map(entries@), cv_add(self@, other@));
        }
        ConversionValue { entries }
    }

    /// The entries of this value, as (asset, coefficient) pairs.
    pub fn terms(&self) -> (r: Vec<(AssetId, i128)>)
        requires
            self.wf(),
        ensures
            entries_wf(r@),
            entries_map(r@) == self@,
    {
        let d = self.dup();
        d.entries
    }

    /// A structural copy of this value.
    pub fn dup(&self) -> (r: ConversionValue)
        requires
            self.wf(),
        ensures
            r.wf(),
            r@ == self@,
    {
        let mut entries: Vec<(AssetId, i128)> = Vec::new();
        let mut i: usize = 0;
        while i < self.entries.len()
            invariant
                i <= self.entries@.len(),
                entries@.len() == i,
                forall|j: int|
                    0 <= j < i ==> #[trigger] key_at(entries@, j) == key_at(self.entries@, j),
                forall|j: int|
                    0 <= j < i ==> #[trigger] val_at(entries@, j) == val_at(self.entries@, j),
            decreases self.entries@.len() - i,
        {
            let ghost before = entries@;
            let pair = &self.entries[i];
            entries.push((pair.0.dup(), pair.1));
            proof {
                let p = entries@[entries@.len() - 1];
                assert(entries@ == before.push(p));
                assert(p.0@ == key_at(self.entries@, i as int));
                assert(p.1 as int == val_at(self.entries@, i as int));
                assert forall|jq: int| 0 <= jq < i + 1 implies #[trigger] key_at(entries@, jq)
                    == key_at(self.entries@, jq) by {
                    if jq < i {
                        assert(key_at(entries@, jq) == key_at(before, jq));
                    } else {
                        assert(entries@[jq] == p);
                    }
                }
                assert forall|jq: int| 0 <= jq < i + 1 implies #[trigger] val_at(entries@, jq)
                    == val_at(self.entries@, jq) by {
                    if jq < i {
                        assert(val_at(entries@, jq) == val_at(before, jq));
                    } else {
                        assert(entries@[jq] == p);
                    }
                }
            }
            i = i + 1;
        }
        proof {
            lemma_seq_maps_equal(entries@, self.entries@);
            assert forall|ia: int, ja: int| 0 <= ia < ja < entries@.len() implies #[trigger] key_at(
                entries@,
                ia,
            ) != #[trigger] key_at(entries@, ja) by {
                assert(key_at(entries@, ia) == key_at(self.entries@, ia));
                assert(key_at(entries@, ja) == key_at(self.entries@, ja));
            }
            assert forall|ia: int| 0 <= ia < entries@.len() implies #[trigger] val_at(
                entries@,
                ia,
            ) != 0 by {
                assert(val_at(entries@, ia) == val_at(self.entries@, ia));
            }
        }
        ConversionValue { entries }
    }

}

/// Entry lists equal key-by-key and value-by-value hold the same map.
pub proof fn lemma_seq_maps_equal(a: Seq<(AssetId, i128)>, b: Seq<(AssetId, i128)>)
    requires
        a.len() == b.len(),
        forall|i: int| 0 <= i < a.len() ==> #[trigger] key_at(a, i) == key_at(b, i),
        forall|i: int| 0 <= i < a.len() ==> #[trigger] val_at(a, i) == val_at(b, i),
    ensures
        entries_map(a) == entries_map(b),
    decreases a.len(),
{
    if a.len() == 0 {
        assert(entries_map(a) =~= entries_map(b));
    } else {
        let ta = a.drop_last();
        let tb = b.drop_last();
        assert forall|i: int| 0 <= i < ta.len() implies #[trigger] key_at(ta, i) == key_at(
            tb,
            i,
        ) by {
            assert(ta[i] == a[i] && tb[i] == b[i]);
            assert(key_at(a, i) == key_at(b, i));
        }
        assert forall|i: int| 0 <= i < ta.len() implies #[trigger] val_at(ta, i) == val_at(
            tb,
            i,
        ) by {
            assert(ta[i] == a[i] && tb[i] == b[i]);
            assert(val_at(a, i) == val_at(b, i));
        }
        lemma_seq_maps_equal(ta, tb);
        assert(key_at(a, a.len() - 1) == key_at(b, b.len() - 1));
        assert(val_at(a, a.len() - 1) == val_at(b, b.len() - 1));
    }
}

} // verus!
