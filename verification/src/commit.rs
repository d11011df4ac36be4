use vstd::prelude::*;
use crate::collection::deploy_resolvable;
use crate::collection::save_collections;
use crate::context::CtxV;
use crate::context::InscribeContext;
use crate::json::str_eq;
use crate::store::Store;
use crate::store::StoreError;
use crate::store::StoreV;
use crate::store::assoc_u64_set;
use crate::store::bal_of;
use crate::store::bal_set;
use crate::store::holder_delta;
use crate::store::idx_token;
use crate::store::lemma_idx_token;
use crate::store::sat_add_i128;
use crate::store::token_by_tick;
use crate::store::token_upsert;
use crate::types::InscriptionV;
use crate::types::Token;
use crate::types::TokenV;

verus! {

broadcast use vstd::std_specs::vec::group_vec_axioms;

/// The content signature one committed record adds to the dedup index.
pub open spec fn sig_part(insc: InscriptionV) -> Seq<Seq<char>> {
    match insc.signature {
        Some(s) => seq![s],
        None => Seq::empty(),
    }
}

/// The content signatures a committed batch adds, in batch order.
pub open spec fn batch_sigs(inscs: Seq<InscriptionV>) -> Seq<Seq<char>>
    decreases inscs.len(),
{
    if inscs.len() == 0 {
        Seq::empty()
    } else {
        sig_part(inscs[0]) + batch_sigs(inscs.drop_first())
    }
}

pub proof fn lemma_batch_sigs_snoc(p: Seq<InscriptionV>, x: InscriptionV)
    ensures
        batch_sigs(p.push(x)) == batch_sigs(p) + sig_part(x),
    decreases p.len(),
{
    if p.len() == 0 {
        assert(p.push(x)[0] == x);
        assert(p.push(x).drop_first() =~= Seq::<InscriptionV>::empty());
        assert(batch_sigs(Seq::<InscriptionV>::empty()) == Seq::<Seq<char>>::empty());
        assert(batch_sigs(p) == Seq::<Seq<char>>::empty());
        assert(batch_sigs(p.push(x)) == sig_part(x) + batch_sigs(p.push(x).drop_first()));
        assert(batch_sigs(p.push(x)) =~= batch_sigs(p) + sig_part(x));
    } else {
        lemma_batch_sigs_snoc(p.drop_first(), x);
        assert(p.push(x)[0] == p[0]);
        assert(p.push(x).drop_first() =~= p.drop_first().push(x));
        assert(batch_sigs(p.push(x)) =~= batch_sigs(p) + sig_part(x));
    }
}

/// Token records inserted for every cached token flagged as a deploy.
pub open spec fn insert_deploys(tokens: Seq<TokenV>, cache: Seq<TokenV>) -> Seq<TokenV>
    decreases cache.len(),
{
    if cache.len() == 0 {
        tokens
    } else {
        insert_deploys(
            if cache[0].deploy {
                tokens.push(cache[0])
            } else {
                tokens
            },
            cache.drop_first(),
        )
    }
}

/// A holder count adjusted by a small signed delta, clamped to the u64 range.
pub open spec fn apply_holder_change(h: u64, d: int) -> u64 {
    if h + d < 0 {
        0
    } else if h + d > u64::MAX {
        u64::MAX
    } else {
        (h + d) as u64
    }
}

/// Applies the accumulated balance deltas row by row: each row updates the
/// store's balance table and feeds the holder-count change into the cached
/// token, marking it updated.
pub open spec fn apply_changes(
    bals: Seq<(Seq<char>, Seq<char>, i128)>,
    cache: Seq<TokenV>,
    chg: Seq<(Seq<char>, Seq<char>, i64)>,
) -> (Seq<(Seq<char>, Seq<char>, i128)>, Seq<TokenV>)
    decreases chg.len(),
{
    if chg.len() == 0 {
        (bals, cache)
    } else {
        let ob = bal_of(bals, chg[0].0, chg[0].1);
        let nb = sat_add_i128(ob, chg[0].2 as int);
        let bals1 = bal_set(bals, chg[0].0, chg[0].1, nb);
        let ti = idx_token(cache, chg[0].0);
        let tok = cache[ti];
        let cache1 = cache.update(
            ti,
            TokenV {
                holders: apply_holder_change(tok.holders, holder_delta(ob, nb)),
                updated: true,
                ..tok
            },
        );
        apply_changes(bals1, cache1, chg.drop_first())
    }
}

/// Write-back of every cached token left marked as updated.
pub open spec fn writeback(tokens: Seq<TokenV>, cache: Seq<TokenV>) -> Seq<TokenV>
    decreases cache.len(),
{
    if cache.len() == 0 {
        tokens
    } else {
        writeback(
            if cache[0].updated {
                token_upsert(tokens, cache[0])
            } else {
                tokens
            },
            cache.drop_first(),
        )
    }
}

/// The block's holder overrides folded into the persisted holder table.
pub open spec fn apply_holders(
    sh: Seq<(u64, Seq<char>)>,
    ov: Seq<(u64, Seq<char>)>,
) -> Seq<(u64, Seq<char>)>
    decreases ov.len(),
{
    if ov.len() == 0 {
        sh
    } else {
        apply_holders(assoc_u64_set(sh, ov[0].0, ov[0].1), ov.drop_first())
    }
}

/// Whether a validated context can be committed against this store: the
/// batch is non-empty, every successful deploy's items still resolve, and
/// every balance-change ticker has a cached token.
pub open spec fn save_ready(c: CtxV, s: StoreV) -> bool {
    &&& c.inscriptions.len() > 0
    &&& (forall|j: int|
        0 <= j < c.inscriptions.len() && (#[trigger] c.inscriptions[j]).verified is Successful
            && c.inscriptions[j].mime_category is Json ==> deploy_resolvable(
            s.inscriptions,
            c.inscriptions[j],
        ))
    &&& (forall|j: int|
        0 <= j < c.token_balance_change.len() ==> token_by_tick(
            c.token_cache,
            (#[trigger] c.token_balance_change[j]).0,
        ) is Some)
}

/// The store a commit produces, as one atomic step: collection records and
/// memberships of successful deploys, the batch with its signatures, the
/// advanced cursor, token deploys, balances and write-backs, token transfers,
/// NFT transfers and holder overrides.
pub open spec fn spec_save(s: StoreV, c: CtxV) -> StoreV {
    let s1 = save_collections(s, c.inscriptions);
    let s2 = StoreV {
        inscriptions: s1.inscriptions + c.inscriptions,
        signatures: s1.signatures + batch_sigs(c.inscriptions),
        ..s1
    };
    let s3 = StoreV { top_inscription_id: c.inscriptions.last().id, ..s2 };
    let tb = apply_changes(s3.balances, c.token_cache, c.token_balance_change);
    let s4 = StoreV {
        tokens: writeback(insert_deploys(s3.tokens, c.token_cache), tb.1),
        balances: tb.0,
        ..s3
    };
    let s5 = StoreV { token_transfers: s4.token_transfers + c.token_transfers, ..s4 };
    StoreV {
        nft_transfers: s5.nft_transfers + c.nft_transfers,
        nft_holders: apply_holders(s5.nft_holders, c.nft_holders),
        ..s5
    }
}

/// Two token tables with the same tickers position any ticker identically.
proof fn lemma_idx_token_same_ticks(a: Seq<TokenV>, b: Seq<TokenV>, tick: Seq<char>)
    requires
        a.len() == b.len(),
        forall|j: int| 0 <= j < a.len() ==> (#[trigger] a[j]).tick == b[j].tick,
    ensures
        idx_token(a, tick) == idx_token(b, tick),
    decreases a.len(),
{
    if a.len() > 0 && a[0].tick != tick {
        assert forall|j: int| 0 <= j < a.drop_first().len() implies (#[trigger] a.drop_first()[j]).tick
            == b.drop_first()[j].tick by {
            assert(a.drop_first()[j] == a[j + 1]);
            assert(b.drop_first()[j] == b[j + 1]);
        }
        lemma_idx_token_same_ticks(a.drop_first(), b.drop_first(), tick);
    }
}

fn token_idx(v: &Vec<Token>, tick: &str) -> (r: usize)
    ensures
        r as int == idx_token(v.deep_view(), tick@),
{
    proof {
        lemma_idx_token(v.deep_view(), tick@);
    }
    let ghost gs = v.deep_view();
    let mut i: usize = 0;
    while i < v.len()
        invariant
            gs == v.deep_view(),
            gs.len() == v@.len(),
            0 <= i <= gs.len(),
            forall|j: int| 0 <= j < i ==> (#[trigger] gs[j]).tick != tick@,
        decreases gs.len() - i,
    {
        if str_eq(v[i].tick.as_str(), tick) {
            proof {
                lemma_idx_token(gs, tick@);
                assert(gs[i as int].tick == tick@);
                assert(idx_token(gs, tick@) == i as int);
            }
            return i;
        }
        i += 1;
    }
    proof {
        lemma_idx_token(gs, tick@);
    }
    i
}

impl<'a> InscribeContext<'a> {
    /// Commits the token effects: deploy inserts, balance-delta application
    /// with holder-count maintenance, and write-back of touched tokens.
    fn save_token(&mut self, store: &mut Store)
        requires
            forall|j: int|
                0 <= j < old(self)@.token_balance_change.len() ==> token_by_tick(
                    old(self)@.token_cache,
                    (#[trigger] old(self)@.token_balance_change[j]).0,
                ) is Some,
        ensures
            final(self).inscribe_filter == old(self).inscribe_filter,
            ({
                let tb = apply_changes(
                    old(store)@.balances,
                    old(self)@.token_cache,
                    old(self)@.token_balance_change,
                );
                &&& final(store)@ == (StoreV {
                    tokens: writeback(
                        insert_deploys(old(store)@.tokens, old(self)@.token_cache),
                        tb.1,
                    ),
                    balances: tb.0,
                    ..old(store)@
                })
                &&& final(self)@ == (CtxV { token_cache: tb.1, ..old(self)@ })
            }),
    {
        let ghost cache0 = self@.token_cache;
        let ghost toks0 = store@.tokens;
        proof {
            assert(cache0.skip(0) =~= cache0);
        }
        let mut i: usize = 0;
        while i < self.token_cache.len()
            invariant
                *self == *old(self),
                cache0 == self@.token_cache,
                cache0.len() == self.token_cache@.len(),
                0 <= i <= cache0.len(),
                insert_deploys(toks0, cache0) == insert_deploys(
                    store@.tokens,
                    cache0.skip(i as int),
                ),
                toks0 == old(store)@.tokens,
                store@ == (StoreV { tokens: store@.tokens, ..old(store)@ }),
            decreases cache0.len() - i,
        {
            proof {
                assert(cache0.skip(i as int)[0] == cache0[i as int]);
                assert(cache0.skip(i as int).drop_first() =~= cache0.skip(i as int + 1));
            }
            if self.token_cache[i].deploy {
                store.inscription_token_insert(&self.token_cache[i]);
            }
            i += 1;
        }
        proof {
            assert(cache0.skip(i as int) =~= Seq::<TokenV>::empty());
        }
        let ghost toks1 = store@.tokens;
        let ghost bals0 = store@.balances;
        let ghost chg = self@.token_balance_change;
        proof {
            assert(chg.skip(0) =~= chg);
        }
        let mut k: usize = 0;
        while k < self.token_balance_change.len()
            invariant
                self.inscribe_filter == old(self).inscribe_filter,
                chg == self@.token_balance_change,
                chg.len() == self.token_balance_change@.len(),
                0 <= k <= chg.len(),
                cache0 == old(self)@.token_cache,
                bals0 == old(store)@.balances,
                toks1 == insert_deploys(old(store)@.tokens, cache0),
                self@.token_cache.len() == cache0.len(),
                forall|j: int|
                    0 <= j < cache0.len() ==> (#[trigger] self@.token_cache[j]).tick
                        == cache0[j].tick,
                forall|j: int|
                    k <= j < chg.len() ==> token_by_tick(cache0, (#[trigger] chg[j]).0) is Some,
                apply_changes(bals0, cache0, chg) == apply_changes(
                    store@.balances,
                    self@.token_cache,
                    chg.skip(k as int),
                ),
                self@ == (CtxV { token_cache: self@.token_cache, ..old(self)@ }),
                store@ == (StoreV { tokens: toks1, balances: store@.balances, ..old(store)@ }),
            decreases chg.len() - k,
        {
            proof {
                assert(chg.skip(k as int)[0] == chg[k as int]);
                assert(chg.skip(k as int).drop_first() =~= chg.skip(k as int + 1));
            }
            let ghost pre_cache = self@.token_cache;
            let ghost pre_bals = store@.balances;
            let hc = store.inscription_token_banalce_update(
                &self.token_balance_change[k].0,
                &self.token_balance_change[k].1,
                self.token_balance_change[k].2,
            );
            let ti = token_idx(&self.token_cache, self.token_balance_change[k].0.as_str());
            proof {
                lemma_idx_token_same_ticks(pre_cache, cache0, chg[k as int].0);
                lemma_idx_token(cache0, chg[k as int].0);
                assert(ti as int == idx_token(pre_cache, chg[k as int].0));
                assert(ti < pre_cache.len());
            }
            let holders_now = self.token_cache[ti].holders;
            let nh: u64 = if hc < 0 {
                if holders_now == 0 {
                    0
                } else {
                    holders_now - 1
                }
            } else {
                if holders_now > u64::MAX - (hc as u64) {
                    u64::MAX
                } else {
                    holders_now + (hc as u64)
                }
            };
            let t_new = Token {
                tick: self.token_cache[ti].tick.clone(),
                deploy: self.token_cache[ti].deploy,
                holders: nh,
                updated: true,
            };
            self.token_cache[ti] = t_new;
            proof {
                let ob = bal_of(pre_bals, chg[k as int].0, chg[k as int].1);
                let nb = sat_add_i128(ob, chg[k as int].2 as int);
                assert(nh == apply_holder_change(pre_cache[ti as int].holders, holder_delta(ob, nb)));
                assert(self@.token_cache =~= pre_cache.update(
                    ti as int,
                    TokenV {
                        holders: apply_holder_change(
                            pre_cache[ti as int].holders,
                            holder_delta(ob, nb),
                        ),
                        updated: true,
                        ..pre_cache[ti as int]
                    },
                ));
            }
            k += 1;
        }
        proof {
            assert(chg.skip(k as int) =~= Seq::<(Seq<char>, Seq<char>, i64)>::empty());
        }
        let ghost tb = apply_changes(bals0, cache0, chg);
        let ghost cache1 = self@.token_cache;
        proof {
            assert(cache1 == tb.1);
            assert(cache1.skip(0) =~= cache1);
        }
        let mut m: usize = 0;
        while m < self.token_cache.len()
            invariant
                self.inscribe_filter == old(self).inscribe_filter,
                cache1 == self@.token_cache,
                cache1.len() == self.token_cache@.len(),
                0 <= m <= cache1.len(),
                writeback(toks1, cache1) == writeback(store@.tokens, cache1.skip(m as int)),
                self@ == (CtxV { token_cache: cache1, ..old(self)@ }),
                store@ == (StoreV { tokens: store@.tokens, balances: tb.0, ..old(store)@ }),
            decreases cache1.len() - m,
        {
            proof {
                assert(cache1.skip(m as int)[0] == cache1[m as int]);
                assert(cache1.skip(m as int).drop_first() =~= cache1.skip(m as int + 1));
            }
            if self.token_cache[m].updated {
                store.inscription_token_update(&self.token_cache[m]);
            }
            m += 1;
        }
        proof {
            assert(cache1.skip(m as int) =~= Seq::<TokenV>::empty());
            assert(store@ =~= (StoreV {
                tokens: writeback(insert_deploys(old(store)@.tokens, old(self)@.token_cache), tb.1),
                balances: tb.0,
                ..old(store)@
            }));
            assert(self@ =~= (CtxV { token_cache: tb.1, ..old(self)@ }));
        }
    }

    /// Commits the recorded token transfer tuples, in order.
    fn save_token_transfer(&self, store: &mut Store)
        ensures
            final(store)@ == (StoreV {
                token_transfers: old(store)@.token_transfers + self@.token_transfers,
                ..old(store)@
            }),
    {
        let ghost tt = self@.token_transfers;
        let ghost base = store@.token_transfers;
        proof {
            assert(base + tt.subrange(0, 0) =~= base);
        }
        let mut k: usize = 0;
        while k < self.token_transfers.len()
            invariant
                tt == self@.token_transfers,
                tt.len() == self.token_transfers@.len(),
                0 <= k <= tt.len(),
                base == old(store)@.token_transfers,
                store@ == (StoreV { token_transfers: base + tt.subrange(0, k as int), ..old(store)@ }),
            decreases tt.len() - k,
        {
            store.inscription_token_transfer_insert(
                &self.token_transfers[k].0,
                self.token_transfers[k].1,
            );
            proof {
                assert((base + tt.subrange(0, k as int)).push(tt[k as int]) =~= base + tt.subrange(
                    0,
                    k as int + 1,
                ));
            }
            k += 1;
        }
        proof {
            assert(tt.subrange(0, k as int) =~= tt);
        }
    }

    /// Commits the recorded NFT transfer tuples, then every accumulated
    /// holder override, in order.
    fn save_nft_transfer(&self, store: &mut Store)
        ensures
            final(store)@ == (StoreV {
                nft_transfers: old(store)@.nft_transfers + self@.nft_transfers,
                nft_holders: apply_holders(old(store)@.nft_holders, self@.nft_holders),
                ..old(store)@
            }),
    {
        let ghost nt = self@.nft_transfers;
        let ghost base = store@.nft_transfers;
        proof {
            assert(base + nt.subrange(0, 0) =~= base);
        }
        let mut k: usize = 0;
        while k < self.nft_transfers.len()
            invariant
                nt == self@.nft_transfers,
                nt.len() == self.nft_transfers@.len(),
                0 <= k <= nt.len(),
                base == old(store)@.nft_transfers,
                store@ == (StoreV { nft_transfers: base + nt.subrange(0, k as int), ..old(store)@ }),
            decreases nt.len() - k,
        {
            let t = self.nft_transfers[k];
            store.inscription_nft_transfer_insert(t.0, t.1, t.2);
            proof {
                assert((base + nt.subrange(0, k as int)).push(nt[k as int]) =~= base + nt.subrange(
                    0,
                    k as int + 1,
                ));
            }
            k += 1;
        }
        proof {
            assert(nt.subrange(0, k as int) =~= nt);
        }
        let ghost ov = self@.nft_holders;
        let ghost h0 = store@.nft_holders;
        proof {
            assert(ov.skip(0) =~= ov);
        }
        let mut j: usize = 0;
        while j < self.nft_holders.len()
            invariant
                ov == self@.nft_holders,
                ov.len() == self.nft_holders@.len(),
                0 <= j <= ov.len(),
                h0 == old(store)@.nft_holders,
                apply_holders(h0, ov) == apply_holders(store@.nft_holders, ov.skip(j as int)),
                store@ == (StoreV {
                    nft_transfers: old(store)@.nft_transfers + nt,
                    nft_holders: store@.nft_holders,
                    ..old(store)@
                }),
            decreases ov.len() - j,
        {
            proof {
                assert(ov.skip(j as int)[0] == ov[j as int]);
                assert(ov.skip(j as int).drop_first() =~= ov.skip(j as int + 1));
            }
            store.inscription_nft_holder_update(self.nft_holders[j].0, &self.nft_holders[j].1);
            j += 1;
        }
        proof {
            assert(ov.skip(j as int) =~= Seq::<(u64, Seq<char>)>::empty());
            assert(store@ =~= (StoreV {
                nft_transfers: old(store)@.nft_transfers + nt,
                nft_holders: apply_holders(h0, ov),
                ..old(store)@
            }));
        }
    }

    /// Serializes the context into one atomic commit and advances the
    /// processed cursor to the last inscription's id. A failing store leaves
    /// everything — store and context — exactly as it was.
    pub fn save(&mut self, store: &mut Store) -> (r: Result<(), StoreError>)
        requires
            save_ready(old(self)@, old(store)@),
        ensures
            final(self).inscribe_filter == old(self).inscribe_filter,
            r is Err <==> old(store)@.fail_commit,
            r is Err ==> final(store)@ == old(store)@ && final(self)@ == old(self)@,
            r is Ok ==> final(store)@ == spec_save(old(store)@, old(self)@),
            r is Ok ==> final(self)@ == (CtxV {
                token_cache: apply_changes(
                    old(store)@.balances,
                    old(self)@.token_cache,
                    old(self)@.token_balance_change,
                ).1,
                ..old(self)@
            }),
    {
        if store.fail_commit {
            return Err(StoreError::CommitFailed);
        }
        let ghost s0 = store@;
        let ghost g_batch = self@.inscriptions;
        proof {
            assert(g_batch.skip(0) =~= g_batch);
        }
        let mut i: usize = 0;
        while i < self.inscriptions.len()
            invariant
                *self == *old(self),
                g_batch == self@.inscriptions,
                g_batch.len() == self.inscriptions@.len(),
                0 <= i <= g_batch.len(),
                s0 == old(store)@,
                save_ready(old(self)@, s0),
                store@.inscriptions == s0.inscriptions,
                save_collections(s0, g_batch) == save_collections(store@, g_batch.skip(i as int)),
                store@ == (StoreV {
                    collections: store@.collections,
                    memberships: store@.memberships,
                    ..s0
                }),
            decreases g_batch.len() - i,
        {
            proof {
                assert(g_batch.skip(i as int)[0] == g_batch[i as int]);
                assert(g_batch.skip(i as int).drop_first() =~= g_batch.skip(i as int + 1));
            }
            let successful = self.inscriptions[i].verified == crate::types::VerifiedStatus::Successful;
            let is_json = self.inscriptions[i].mime_category == crate::types::MimeCategory::Json;
            if successful && is_json {
                self.save_inscribe_collection(store, &self.inscriptions[i]);
            }
            i += 1;
        }
        proof {
            assert(g_batch.skip(i as int) =~= Seq::<InscriptionV>::empty());
        }
        let ghost s1 = store@;
        proof {
            assert(s1 == save_collections(s0, g_batch));
        }
        let mut n: usize = 0;
        proof {
            assert(s1.inscriptions + g_batch.subrange(0, 0) =~= s1.inscriptions);
            assert(s1.signatures + batch_sigs(g_batch.subrange(0, 0)) =~= s1.signatures);
        }
        while n < self.inscriptions.len()
            invariant
                *self == *old(self),
                g_batch == self@.inscriptions,
                g_batch.len() == self.inscriptions@.len(),
                0 <= n <= g_batch.len(),
                save_ready(old(self)@, s0),
                store@ == (StoreV {
                    inscriptions: s1.inscriptions + g_batch.subrange(0, n as int),
                    signatures: s1.signatures + batch_sigs(g_batch.subrange(0, n as int)),
                    ..s1
                }),
            decreases g_batch.len() - n,
        {
            store.inscription_inscribe(&self.inscriptions[n]);
            proof {
                lemma_batch_sigs_snoc(g_batch.subrange(0, n as int), g_batch[n as int]);
                assert(g_batch.subrange(0, n as int).push(g_batch[n as int]) =~= g_batch.subrange(
                    0,
                    n as int + 1,
                ));
                assert((s1.inscriptions + g_batch.subrange(0, n as int)).push(g_batch[n as int])
                    =~= s1.inscriptions + g_batch.subrange(0, n as int + 1));
                assert((s1.signatures + batch_sigs(g_batch.subrange(0, n as int))) + sig_part(
                    g_batch[n as int],
                ) =~= s1.signatures + batch_sigs(g_batch.subrange(0, n as int + 1)));
            }
            n += 1;
        }
        proof {
            assert(g_batch.subrange(0, n as int) =~= g_batch);
        }
        let last = self.inscriptions.len() - 1;
        store.set_top_inscription_id(self.inscriptions[last].id);
        proof {
            assert(g_batch.last() == g_batch[last as int]);
        }
        self.save_token(store);
        self.save_token_transfer(store);
        self.save_nft_transfer(store);
        proof {
            assert(store@ =~= spec_save(s0, old(self)@));
            assert(self@ =~= (CtxV {
                token_cache: apply_changes(
                    old(store)@.balances,
                    old(self)@.token_cache,
                    old(self)@.token_balance_change,
                ).1,
                ..old(self)@
            }));
        }
        Ok(())
    }
}

} // verus!
