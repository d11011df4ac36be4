use vstd::prelude::*;
use crate::types::Inscription;
use crate::types::InscriptionV;
use crate::types::Token;
use crate::types::TokenV;
use crate::json::str_eq;

verus! {

broadcast use vstd::std_specs::vec::group_vec_axioms;

/// Error reported by the transactional store.
#[derive(Clone, Copy, PartialEq, Eq, Structural, Debug)]
pub enum StoreError {
    CommitFailed,
}

/// First position in `s` of an inscription with this id, or `s.len()`.
pub open spec fn idx_by_id(s: Seq<InscriptionV>, id: u64) -> int
    decreases s.len(),
{
    if s.len() == 0 {
        0
    } else if s[0].id == id {
        0
    } else {
        1 + idx_by_id(s.drop_first(), id)
    }
}

pub proof fn lemma_idx_by_id(s: Seq<InscriptionV>, id: u64)
    ensures
        0 <= idx_by_id(s, id) <= s.len(),
        idx_by_id(s, id) < s.len() ==> s[idx_by_id(s, id)].id == id,
        forall|j: int| 0 <= j < idx_by_id(s, id) ==> s[j].id != id,
    decreases s.len(),
{
    if s.len() > 0 && s[0].id != id {
        lemma_idx_by_id(s.drop_first(), id);
        assert forall|j: int| 0 <= j < idx_by_id(s, id) implies s[j].id != id by {
            if j > 0 {
                assert(s.drop_first()[j - 1] == s[j]);
            }
        }
    }
}

/// The first inscription in `s` with this id.
pub open spec fn insc_by_id(s: Seq<InscriptionV>, id: u64) -> Option<InscriptionV> {
    if idx_by_id(s, id) < s.len() {
        Some(s[idx_by_id(s, id)])
    } else {
        None
    }
}

/// First position in `s` of an inscription with this transaction hash, or `s.len()`.
pub open spec fn idx_by_tx(s: Seq<InscriptionV>, tx: Seq<char>) -> int
    decreases s.len(),
{
    if s.len() == 0 {
        0
    } else if s[0].tx_hash == tx {
        0
    } else {
        1 + idx_by_tx(s.drop_first(), tx)
    }
}

pub proof fn lemma_idx_by_tx(s: Seq<InscriptionV>, tx: Seq<char>)
    ensures
        0 <= idx_by_tx(s, tx) <= s.len(),
        idx_by_tx(s, tx) < s.len() ==> s[idx_by_tx(s, tx)].tx_hash == tx,
        forall|j: int| 0 <= j < idx_by_tx(s, tx) ==> s[j].tx_hash != tx,
    decreases s.len(),
{
    if s.len() > 0 && s[0].tx_hash != tx {
        lemma_idx_by_tx(s.drop_first(), tx);
        assert forall|j: int| 0 <= j < idx_by_tx(s, tx) implies s[j].tx_hash != tx by {
            if j > 0 {
                assert(s.drop_first()[j - 1] == s[j]);
            }
        }
    }
}

/// The first inscription in `s` with this transaction hash.
pub open spec fn insc_by_tx(s: Seq<InscriptionV>, tx: Seq<char>) -> Option<InscriptionV> {
    if idx_by_tx(s, tx) < s.len() {
        Some(s[idx_by_tx(s, tx)])
    } else {
        None
    }
}

/// First position in an id-keyed association list, or `s.len()`.
pub open spec fn idx_u64(s: Seq<(u64, Seq<char>)>, id: u64) -> int
    decreases s.len(),
{
    if s.len() == 0 {
        0
    } else if s[0].0 == id {
        0
    } else {
        1 + idx_u64(s.drop_first(), id)
    }
}

pub proof fn lemma_idx_u64(s: Seq<(u64, Seq<char>)>, id: u64)
    ensures
        0 <= idx_u64(s, id) <= s.len(),
        idx_u64(s, id) < s.len() ==> s[idx_u64(s, id)].0 == id,
        forall|j: int| 0 <= j < idx_u64(s, id) ==> s[j].0 != id,
    decreases s.len(),
{
    if s.len() > 0 && s[0].0 != id {
        lemma_idx_u64(s.drop_first(), id);
        assert forall|j: int| 0 <= j < idx_u64(s, id) implies s[j].0 != id by {
            if j > 0 {
                assert(s.drop_first()[j - 1] == s[j]);
            }
        }
    }
}

/// The value bound to `id` in an id-keyed association list.
pub open spec fn assoc_u64(s: Seq<(u64, Seq<char>)>, id: u64) -> Option<Seq<char>> {
    if idx_u64(s, id) < s.len() {
        Some(s[idx_u64(s, id)].1)
    } else {
        None
    }
}

/// Binds `id` to `v`: replaces the first binding of `id`, or appends one.
pub open spec fn assoc_u64_set(s: Seq<(u64, Seq<char>)>, id: u64, v: Seq<char>) -> Seq<
    (u64, Seq<char>),
> {
    if idx_u64(s, id) < s.len() {
        s.update(idx_u64(s, id), (id, v))
    } else {
        s.push((id, v))
    }
}

/// First position in `s` of a token with this ticker, or `s.len()`.
pub open spec fn idx_token(s: Seq<TokenV>, tick: Seq<char>) -> int
    decreases s.len(),
{
    if s.len() == 0 {
        0
    } else if s[0].tick == tick {
        0
    } else {
        1 + idx_token(s.drop_first(), tick)
    }
}

pub proof fn lemma_idx_token(s: Seq<TokenV>, tick: Seq<char>)
    ensures
        0 <= idx_token(s, tick) <= s.len(),
        idx_token(s, tick) < s.len() ==> s[idx_token(s, tick)].tick == tick,
        forall|j: int| 0 <= j < idx_token(s, tick) ==> s[j].tick != tick,
    decreases s.len(),
{
    if s.len() > 0 && s[0].tick != tick {
        lemma_idx_token(s.drop_first(), tick);
        assert forall|j: int| 0 <= j < idx_token(s, tick) implies s[j].tick != tick by {
            if j > 0 {
                assert(s.drop_first()[j - 1] == s[j]);
            }
        }
    }
}

/// The first token in `s` with this ticker.
pub open spec fn token_by_tick(s: Seq<TokenV>, tick: Seq<char>) -> Option<TokenV> {
    if idx_token(s, tick) < s.len() {
        Some(s[idx_token(s, tick)])
    } else {
        None
    }
}

/// Writes a token record: replaces the first record of its ticker, or appends one.
pub open spec fn token_upsert(s: Seq<TokenV>, t: TokenV) -> Seq<TokenV> {
    if idx_token(s, t.tick) < s.len() {
        s.update(idx_token(s, t.tick), t)
    } else {
        s.push(t)
    }
}

/// First position in the balance table of this (ticker, address) pair, or `s.len()`.
pub open spec fn idx_bal(s: Seq<(Seq<char>, Seq<char>, i128)>, tick: Seq<char>, addr: Seq<char>) -> int
    decreases s.len(),
{
    if s.len() == 0 {
        0
    } else if s[0].0 == tick && s[0].1 == addr {
        0
    } else {
        1 + idx_bal(s.drop_first(), tick, addr)
    }
}

pub proof fn lemma_idx_bal(s: Seq<(Seq<char>, Seq<char>, i128)>, tick: Seq<char>, addr: Seq<char>)
    ensures
        0 <= idx_bal(s, tick, addr) <= s.len(),
        idx_bal(s, tick, addr) < s.len() ==> (s[idx_bal(s, tick, addr)].0 == tick && s[idx_bal(
            s,
            tick,
            addr,
        )].1 == addr),
        forall|j: int| 0 <= j < idx_bal(s, tick, addr) ==> !(s[j].0 == tick && s[j].1 == addr),
    decreases s.len(),
{
    if s.len() > 0 && !(s[0].0 == tick && s[0].1 == addr) {
        lemma_idx_bal(s.drop_first(), tick, addr);
        assert forall|j: int| 0 <= j < idx_bal(s, tick, addr) implies !(s[j].0 == tick && s[j].1
            == addr) by {
            if j > 0 {
                assert(s.drop_first()[j - 1] == s[j]);
            }
        }
    }
}

/// The balance of `addr` in `tick`; an absent row reads as zero.
pub open spec fn bal_of(s: Seq<(Seq<char>, Seq<char>, i128)>, tick: Seq<char>, addr: Seq<char>) -> i128 {
    if idx_bal(s, tick, addr) < s.len() {
        s[idx_bal(s, tick, addr)].2
    } else {
        0
    }
}

/// Writes a balance row: replaces the first row of its pair, or appends one.
pub open spec fn bal_set(
    s: Seq<(Seq<char>, Seq<char>, i128)>,
    tick: Seq<char>,
    addr: Seq<char>,
    v: i128,
) -> Seq<(Seq<char>, Seq<char>, i128)> {
    if idx_bal(s, tick, addr) < s.len() {
        s.update(idx_bal(s, tick, addr), (tick, addr, v))
    } else {
        s.push((tick, addr, v))
    }
}

/// Addition clamped to the i128 range.
pub open spec fn sat_add_i128(b: i128, d: int) -> i128 {
    if b + d > i128::MAX {
        i128::MAX
    } else if b + d < i128::MIN {
        i128::MIN
    } else {
        (b + d) as i128
    }
}

/// The holder-count change when a balance moves between zero and non-zero.
pub open spec fn holder_delta(old_b: i128, new_b: i128) -> int {
    (if new_b != 0 {
        1int
    } else {
        0int
    }) - (if old_b != 0 {
        1int
    } else {
        0int
    })
}

/// In-memory model of the transactional store the indexer commits to: the
/// inscription log, the content-signature index, NFT holder and collection
/// state, token state, and the processed/synced cursors. `fail_commit`
/// simulates a store whose next commits fail.
pub struct Store {
    pub inscriptions: Vec<Inscription>,
    pub signatures: Vec<String>,
    pub nft_holders: Vec<(u64, String)>,
    pub collections: Vec<Inscription>,
    pub memberships: Vec<(u64, String)>,
    pub nft_transfers: Vec<(u64, u64, u64)>,
    pub tokens: Vec<Token>,
    pub balances: Vec<(String, String, i128)>,
    pub token_transfers: Vec<(String, u64)>,
    pub top_inscription_id: u64,
    pub top_sync_id: u64,
    pub sync_blocknumber: u64,
    pub fail_commit: bool,
}

/// Mathematical mirror of `Store`.
#[verifier::ext_equal]
pub struct StoreV {
    pub inscriptions: Seq<InscriptionV>,
    pub signatures: Seq<Seq<char>>,
    pub nft_holders: Seq<(u64, Seq<char>)>,
    pub collections: Seq<InscriptionV>,
    pub memberships: Seq<(u64, Seq<char>)>,
    pub nft_transfers: Seq<(u64, u64, u64)>,
    pub tokens: Seq<TokenV>,
    pub balances: Seq<(Seq<char>, Seq<char>, i128)>,
    pub token_transfers: Seq<(Seq<char>, u64)>,
    pub top_inscription_id: u64,
    pub top_sync_id: u64,
    pub sync_blocknumber: u64,
    pub fail_commit: bool,
}

impl View for Store {
    type V = StoreV;

    open spec fn view(&self) -> StoreV {
        StoreV {
            inscriptions: self.inscriptions.deep_view(),
            signatures: self.signatures.deep_view(),
            nft_holders: self.nft_holders.deep_view(),
            collections: self.collections.deep_view(),
            memberships: self.memberships.deep_view(),
            nft_transfers: self.nft_transfers@,
            tokens: self.tokens.deep_view(),
            balances: self.balances.deep_view(),
            token_transfers: self.token_transfers.deep_view(),
            top_inscription_id: self.top_inscription_id,
            top_sync_id: self.top_sync_id,
            sync_blocknumber: self.sync_blocknumber,
            fail_commit: self.fail_commit,
        }
    }
}

pub(crate) fn assoc_u64_find(v: &Vec<(u64, String)>, id: u64) -> (r: Option<String>)
    ensures
        r.deep_view() == assoc_u64(v.deep_view(), id),
{
    proof {
        lemma_idx_u64(v.deep_view(), id);
    }
    let ghost gs = v.deep_view();
    let mut i: usize = 0;
    while i < v.len()
        invariant
            gs == v.deep_view(),
            gs.len() == v@.len(),
            0 <= i <= gs.len(),
            forall|j: int| 0 <= j < i ==> (#[trigger] gs[j]).0 != id,
        decreases gs.len() - i,
    {
        if v[i].0 == id {
            proof {
                lemma_idx_u64(gs, id);
                assert(gs[i as int].0 == id);
                assert(idx_u64(gs, id) == i as int);
            }
            return Some(v[i].1.clone());
        }
        i += 1;
    }
    None
}

pub(crate) fn assoc_u64_write(v: &mut Vec<(u64, String)>, id: u64, val: &String)
    ensures
        final(v).deep_view() == assoc_u64_set(old(v).deep_view(), id, val@),
{
    proof {
        lemma_idx_u64(old(v).deep_view(), id);
    }
    let ghost gs = v.deep_view();
    let mut i: usize = 0;
    while i < v.len()
        invariant
            *v == *old(v),
            gs == v.deep_view(),
            gs.len() == v@.len(),
            0 <= i <= gs.len(),
            forall|j: int| 0 <= j < i ==> (#[trigger] gs[j]).0 != id,
        decreases gs.len() - i,
    {
        if v[i].0 == id {
            proof {
                lemma_idx_u64(gs, id);
                assert(gs[i as int].0 == id);
                assert(idx_u64(gs, id) == i as int);
            }
            v[i] = (id, val.clone());
            proof {
                assert(v.deep_view() =~= gs.update(i as int, (id, val@)));
            }
            return ;
        }
        i += 1;
    }
    v.push((id, val.clone()));
    proof {
        assert(v.deep_view() =~= gs.push((id, val@)));
    }
}

fn bal_idx(v: &Vec<(String, String, i128)>, tick: &String, address: &String) -> (r: usize)
    ensures
        r as int == idx_bal(v.deep_view(), tick@, address@),
{
    proof {
        lemma_idx_bal(v.deep_view(), tick@, address@);
    }
    let ghost gs = v.deep_view();
    let mut i: usize = 0;
    while i < v.len()
        invariant
            gs == v.deep_view(),
            gs.len() == v@.len(),
            0 <= i <= gs.len(),
            forall|j: int| 0 <= j < i ==> !((#[trigger] gs[j]).0 == tick@ && gs[j].1 == address@),
        decreases gs.len() - i,
    {
        if str_eq(v[i].0.as_str(), tick.as_str()) && str_eq(v[i].1.as_str(), address.as_str()) {
            proof {
                lemma_idx_bal(gs, tick@, address@);
                assert(gs[i as int].0 == tick@ && gs[i as int].1 == address@);
                assert(idx_bal(gs, tick@, address@) == i as int);
            }
            return i;
        }
        i += 1;
    }
    i
}

impl Store {
    /// A store with no records and both cursors at zero.
    pub fn new() -> (s: Store)
        ensures
            s@ == (StoreV {
                inscriptions: Seq::empty(),
                signatures: Seq::empty(),
                nft_holders: Seq::empty(),
                collections: Seq::empty(),
                memberships: Seq::empty(),
                nft_transfers: Seq::empty(),
                tokens: Seq::empty(),
                balances: Seq::empty(),
                token_transfers: Seq::empty(),
                top_inscription_id: 0u64,
                top_sync_id: 0u64,
                sync_blocknumber: 0u64,
                fail_commit: false,
            }),
    {
        let s = Store {
            inscriptions: Vec::new(),
            signatures: Vec::new(),
            nft_holders: Vec::new(),
            collections: Vec::new(),
            memberships: Vec::new(),
            nft_transfers: Vec::new(),
            tokens: Vec::new(),
            balances: Vec::new(),
            token_transfers: Vec::new(),
            top_inscription_id: 0,
            top_sync_id: 0,
            sync_blocknumber: 0,
            fail_commit: false,
        };
        proof {
            assert(s@ =~= (StoreV {
                inscriptions: Seq::empty(),
                signatures: Seq::empty(),
                nft_holders: Seq::empty(),
                collections: Seq::empty(),
                memberships: Seq::empty(),
                nft_transfers: Seq::empty(),
                tokens: Seq::empty(),
                balances: Seq::empty(),
                token_transfers: Seq::empty(),
                top_inscription_id: 0u64,
                top_sync_id: 0u64,
                sync_blocknumber: 0u64,
                fail_commit: false,
            }));
        }
        s
    }

    /// The processed cursor: the id of the last committed inscription.
    pub fn get_top_inscription_id(&self) -> (r: u64)
        ensures
            r == self@.top_inscription_id,
    {
        self.top_inscription_id
    }

    /// The ingestion watermark id, read-only for this core.
    pub fn get_top_inscription_sync_id(&self) -> (r: u64)
        ensures
            r == self@.top_sync_id,
    {
        self.top_sync_id
    }

    /// The ingestion watermark block number, read-only for this core.
    pub fn get_sync_blocknumber(&self) -> (r: u64)
        ensures
            r == self@.sync_blocknumber,
    {
        self.sync_blocknumber
    }

    /// The persisted inscription with this id.
    pub fn get_inscription_by_id(&self, id: u64) -> (r: Option<Inscription>)
        ensures
            r.deep_view() == insc_by_id(self@.inscriptions, id),
    {
        proof {
            lemma_idx_by_id(self@.inscriptions, id);
        }
        let ghost gs = self@.inscriptions;
        let mut i: usize = 0;
        while i < self.inscriptions.len()
            invariant
                gs == self@.inscriptions,
                gs.len() == self.inscriptions@.len(),
                0 <= i <= gs.len(),
                forall|j: int| 0 <= j < i ==> (#[trigger] gs[j]).id != id,
            decreases gs.len() - i,
        {
            if self.inscriptions[i].id == id {
                proof {
                    lemma_idx_by_id(gs, id);
                    assert(gs[i as int].id == id);
                    assert(idx_by_id(gs, id) == i as int);
                }
                return Some(self.inscriptions[i].duplicate());
            }
            i += 1;
        }
        None
    }

    /// The persisted inscription with this transaction hash.
    pub fn get_inscription_by_tx(&self, tx: &str) -> (r: Option<Inscription>)
        ensures
            r.deep_view() == insc_by_tx(self@.inscriptions, tx@),
    {
        proof {
            lemma_idx_by_tx(self@.inscriptions, tx@);
        }
        let ghost gs = self@.inscriptions;
        let mut i: usize = 0;
        while i < self.inscriptions.len()
            invariant
                gs == self@.inscriptions,
                gs.len() == self.inscriptions@.len(),
                0 <= i <= gs.len(),
                forall|j: int| 0 <= j < i ==> (#[trigger] gs[j]).tx_hash != tx@,
            decreases gs.len() - i,
        {
            if str_eq(self.inscriptions[i].tx_hash.as_str(), tx) {
                proof {
                    lemma_idx_by_tx(gs, tx@);
                    assert(gs[i as int].tx_hash == tx@);
                    assert(idx_by_tx(gs, tx@) == i as int);
                }
                return Some(self.inscriptions[i].duplicate());
            }
            i += 1;
        }
        None
    }

    /// Whether some persisted inscription already carries this content signature.
    pub fn inscription_sign_exists(&self, sig: &str) -> (r: bool)
        ensures
            r == self@.signatures.contains(sig@),
    {
        let ghost gs = self@.signatures;
        let mut i: usize = 0;
        while i < self.signatures.len()
            invariant
                gs == self@.signatures,
                gs.len() == self.signatures@.len(),
                0 <= i <= gs.len(),
                forall|j: int| 0 <= j < i ==> #[trigger] gs[j] != sig@,
            decreases gs.len() - i,
        {
            if str_eq(self.signatures[i].as_str(), sig) {
                proof {
                    assert(gs[i as int] == sig@);
                }
                return true;
            }
            i += 1;
        }
        false
    }

    /// The persisted NFT holder of this inscription id.
    pub fn get_inscription_nft_holder_by_id(&self, id: u64) -> (r: Option<String>)
        ensures
            r.deep_view() == assoc_u64(self@.nft_holders, id),
    {
        assoc_u64_find(&self.nft_holders, id)
    }

    /// The collection (by deploying transaction hash) this inscription id belongs to.
    pub fn get_inscription_nft_collection_by_id(&self, id: u64) -> (r: Option<String>)
        ensures
            r.deep_view() == assoc_u64(self@.memberships, id),
    {
        assoc_u64_find(&self.memberships, id)
    }

    /// A copy of the persisted token table, used to seed a block context.
    pub fn get_tokens(&self) -> (r: Vec<Token>)
        ensures
            r.deep_view() == self@.tokens,
    {
        let mut out: Vec<Token> = Vec::new();
        let mut i: usize = 0;
        while i < self.tokens.len()
            invariant
                0 <= i <= self.tokens@.len(),
                out@.len() == i,
                forall|j: int| 0 <= j < i ==> (#[trigger] out@[j])@ == self.tokens@[j]@,
            decreases self.tokens@.len() - i,
        {
            out.push(self.tokens[i].duplicate());
            i += 1;
        }
        proof {
            assert(out.deep_view() =~= self@.tokens);
        }
        out
    }

    /// Persists one inscription record, status included, together with its
    /// content signature when one was assigned.
    pub fn inscription_inscribe(&mut self, insc: &Inscription)
        ensures
            final(self)@ == (StoreV {
                inscriptions: old(self)@.inscriptions.push(insc@),
                signatures: match insc@.signature {
                    Some(sig) => old(self)@.signatures.push(sig),
                    None => old(self)@.signatures,
                },
                ..old(self)@
            }),
    {
        self.inscriptions.push(insc.duplicate());
        match &insc.signature {
            Some(s) => {
                self.signatures.push(s.clone());
                proof {
                    assert(self@.inscriptions =~= old(self)@.inscriptions.push(insc@));
                    assert(self@.signatures =~= old(self)@.signatures.push(
                        insc@.signature->Some_0,
                    ));
                    assert(self@ =~= (StoreV {
                        inscriptions: old(self)@.inscriptions.push(insc@),
                        signatures: old(self)@.signatures.push(insc@.signature->Some_0),
                        ..old(self)@
                    }));
                }
            },
            None => {
                proof {
                    assert(self@.inscriptions =~= old(self)@.inscriptions.push(insc@));
                    assert(self@ =~= (StoreV {
                        inscriptions: old(self)@.inscriptions.push(insc@),
                        ..old(self)@
                    }));
                }
            },
        }
    }

    /// Advances the processed cursor.
    pub fn set_top_inscription_id(&mut self, id: u64)
        ensures
            final(self)@ == (StoreV { top_inscription_id: id, ..old(self)@ }),
    {
        self.top_inscription_id = id;
        proof {
            assert(self@ =~= (StoreV { top_inscription_id: id, ..old(self)@ }));
        }
    }

    /// Writes the NFT holder of an inscription id.
    pub fn inscription_nft_holder_update(&mut self, id: u64, holder: &String)
        ensures
            final(self)@ == (StoreV {
                nft_holders: assoc_u64_set(old(self)@.nft_holders, id, holder@),
                ..old(self)@
            }),
    {
        assoc_u64_write(&mut self.nft_holders, id, holder);
        proof {
            assert(self@ =~= (StoreV {
                nft_holders: assoc_u64_set(old(self)@.nft_holders, id, holder@),
                ..old(self)@
            }));
        }
    }

    /// Persists a collection record, keyed by its deploying inscription.
    pub fn inscription_nft_collection_insert(&mut self, insc: &Inscription)
        ensures
            final(self)@ == (StoreV { collections: old(self)@.collections.push(insc@), ..old(self)@ }),
    {
        self.collections.push(insc.duplicate());
        proof {
            assert(self@.collections =~= old(self)@.collections.push(insc@));
            assert(self@ =~= (StoreV {
                collections: old(self)@.collections.push(insc@),
                ..old(self)@
            }));
        }
    }

    /// Writes the collection back-reference of a member inscription id.
    pub fn inscription_nft_set_collection(&mut self, id: u64, collection_tx: &String)
        ensures
            final(self)@ == (StoreV {
                memberships: assoc_u64_set(old(self)@.memberships, id, collection_tx@),
                ..old(self)@
            }),
    {
        assoc_u64_write(&mut self.memberships, id, collection_tx);
        proof {
            assert(self@ =~= (StoreV {
                memberships: assoc_u64_set(old(self)@.memberships, id, collection_tx@),
                ..old(self)@
            }));
        }
    }

    /// Records one NFT transfer tuple.
    pub fn inscription_nft_transfer_insert(&mut self, from_id: u64, to_id: u64, index: u64)
        ensures
            final(self)@ == (StoreV {
                nft_transfers: old(self)@.nft_transfers.push((from_id, to_id, index)),
                ..old(self)@
            }),
    {
        self.nft_transfers.push((from_id, to_id, index));
        proof {
            assert(self@ =~= (StoreV {
                nft_transfers: old(self)@.nft_transfers.push((from_id, to_id, index)),
                ..old(self)@
            }));
        }
    }

    /// Persists a newly deployed token record.
    pub fn inscription_token_insert(&mut self, token: &Token)
        ensures
            final(self)@ == (StoreV { tokens: old(self)@.tokens.push(token@), ..old(self)@ }),
    {
        self.tokens.push(token.duplicate());
        proof {
            assert(self@.tokens =~= old(self)@.tokens.push(token@));
            assert(self@ =~= (StoreV { tokens: old(self)@.tokens.push(token@), ..old(self)@ }));
        }
    }

    /// Rewrites a touched token record, keyed by its ticker.
    pub fn inscription_token_update(&mut self, token: &Token)
        ensures
            final(self)@ == (StoreV { tokens: token_upsert(old(self)@.tokens, token@), ..old(self)@ }),
    {
        proof {
            lemma_idx_token(old(self)@.tokens, token@.tick);
        }
        let ghost gs = self@.tokens;
        let mut i: usize = 0;
        while i < self.tokens.len()
            invariant
                *self == *old(self),
                gs == self@.tokens,
                gs.len() == self.tokens@.len(),
                0 <= i <= gs.len(),
                forall|j: int| 0 <= j < i ==> (#[trigger] gs[j]).tick != token@.tick,
            decreases gs.len() - i,
        {
            if str_eq(self.tokens[i].tick.as_str(), token.tick.as_str()) {
                proof {
                    lemma_idx_token(gs, token@.tick);
                    assert(gs[i as int].tick == token@.tick);
                    assert(idx_token(gs, token@.tick) == i as int);
                }
                self.tokens[i] = token.duplicate();
                proof {
                    assert(self@.tokens =~= gs.update(i as int, token@));
                    assert(self@ =~= (StoreV {
                        tokens: token_upsert(old(self)@.tokens, token@),
                        ..old(self)@
                    }));
                }
                return ;
            }
            i += 1;
        }
        self.tokens.push(token.duplicate());
        proof {
            assert(self@.tokens =~= gs.push(token@));
            assert(self@ =~= (StoreV {
                tokens: token_upsert(old(self)@.tokens, token@),
                ..old(self)@
            }));
        }
    }

    /// Applies a signed balance delta (clamped to the i128 range) to one
    /// address's balance and reports the holder-count change.
    pub fn inscription_token_banalce_update(
        &mut self,
        tick: &String,
        address: &String,
        delta: i64,
    ) -> (hc: i64)
        ensures
            ({
                let old_b = bal_of(old(self)@.balances, tick@, address@);
                let new_b = sat_add_i128(old_b, delta as int);
                final(self)@ == (StoreV {
                    balances: bal_set(old(self)@.balances, tick@, address@, new_b),
                    ..old(self)@
                }) && hc == holder_delta(old_b, new_b)
            }),
    {
        proof {
            lemma_idx_bal(old(self)@.balances, tick@, address@);
        }
        let ghost gs = self@.balances;
        let i = bal_idx(&self.balances, tick, address);
        let old_b: i128 = if i < self.balances.len() {
            self.balances[i].2
        } else {
            0
        };
        let d = delta as i128;
        let new_b: i128 = if d >= 0 {
            if old_b > i128::MAX - d {
                i128::MAX
            } else {
                old_b + d
            }
        } else {
            if old_b < i128::MIN - d {
                i128::MIN
            } else {
                old_b + d
            }
        };
        let hc: i64 = (if new_b != 0 {
            1i64
        } else {
            0i64
        }) - (if old_b != 0 {
            1i64
        } else {
            0i64
        });
        if i < self.balances.len() {
            self.balances[i] = (tick.clone(), address.clone(), new_b);
            proof {
                assert(self@.balances =~= gs.update(i as int, (tick@, address@, new_b)));
                assert(self@ =~= (StoreV {
                    balances: bal_set(old(self)@.balances, tick@, address@, new_b),
                    ..old(self)@
                }));
            }
        } else {
            self.balances.push((tick.clone(), address.clone(), new_b));
            proof {
                assert(self@.balances =~= gs.push((tick@, address@, new_b)));
                assert(self@ =~= (StoreV {
                    balances: bal_set(old(self)@.balances, tick@, address@, new_b),
                    ..old(self)@
                }));
            }
        }
        hc
    }

    /// Records one token transfer tuple.
    pub fn inscription_token_transfer_insert(&mut self, tick: &String, id: u64)
        ensures
            final(self)@ == (StoreV {
                token_transfers: old(self)@.token_transfers.push((tick@, id)),
                ..old(self)@
            }),
    {
        self.token_transfers.push((tick.clone(), id));
        proof {
            assert(self@.token_transfers =~= old(self)@.token_transfers.push((tick@, id)));
            assert(self@ =~= (StoreV {
                token_transfers: old(self)@.token_transfers.push((tick@, id)),
                ..old(self)@
            }));
        }
    }
}

} // verus!
