use vstd::prelude::*;
use vstd::string::StrSliceExecFns;
use crate::digest::sha1_hex;
use crate::digest::sha1_hex_of;
use crate::json::str_eq;
use crate::store::Store;
use crate::store::StoreV;
use crate::store::assoc_u64;
use crate::store::assoc_u64_find;
use crate::store::assoc_u64_write;
use crate::store::assoc_u64_set;
use crate::store::insc_by_tx;
use crate::types::InscribeFilter;
use crate::types::Inscription;
use crate::types::InscriptionV;
use crate::types::MimeCategory;
use crate::types::Token;
use crate::types::TokenV;
use crate::types::TRANSFER_TX_HEX_LENGTH;
use crate::types::VerifiedStatus;
use crate::types::vec_contains_str;
use crate::collection::collection_valid;

verus! {

broadcast use vstd::std_specs::vec::group_vec_axioms;

/// The per-block workspace: the ordered batch under validation, the derived
/// caches every later validation in the same block observes, and the filter.
/// All of it stays invisible to the store until `save` commits the block.
pub struct InscribeContext<'a> {
    pub inscriptions: Vec<Inscription>,
    pub nft_holders: Vec<(u64, String)>,
    pub nft_transfers: Vec<(u64, u64, u64)>,
    pub token_cache: Vec<Token>,
    pub token_balance_change: Vec<(String, String, i64)>,
    pub token_transfers: Vec<(String, u64)>,
    pub block_signatures: Vec<String>,
    pub inscribe_filter: &'a InscribeFilter,
}

/// Mathematical mirror of the context's mutable state.
#[verifier::ext_equal]
pub struct CtxV {
    pub inscriptions: Seq<InscriptionV>,
    pub nft_holders: Seq<(u64, Seq<char>)>,
    pub nft_transfers: Seq<(u64, u64, u64)>,
    pub token_cache: Seq<TokenV>,
    pub token_balance_change: Seq<(Seq<char>, Seq<char>, i64)>,
    pub token_transfers: Seq<(Seq<char>, u64)>,
    pub block_signatures: Seq<Seq<char>>,
}

impl<'a> View for InscribeContext<'a> {
    type V = CtxV;

    open spec fn view(&self) -> CtxV {
        CtxV {
            inscriptions: self.inscriptions.deep_view(),
            nft_holders: self.nft_holders.deep_view(),
            nft_transfers: self.nft_transfers@,
            token_cache: self.token_cache.deep_view(),
            token_balance_change: self.token_balance_change.deep_view(),
            token_transfers: self.token_transfers.deep_view(),
            block_signatures: self.block_signatures.deep_view(),
        }
    }
}

/// The holder of an NFT as validation sees it: the in-block override wins,
/// the persisted holder is the fallback.
pub open spec fn ctx_holder(overrides: Seq<(u64, Seq<char>)>, store: StoreV, id: u64) -> Option<
    Seq<char>,
> {
    match assoc_u64(overrides, id) {
        Some(h) => Some(h),
        None => assoc_u64(store.nft_holders, id),
    }
}

/// Walks a transfer payload reference by reference: each reference must
/// resolve by transaction hash and its current holder must be the sender;
/// the overrides and transfer tuples accumulate, or the whole chain fails.
pub open spec fn chain_run(
    store: StoreV,
    insc: InscriptionV,
    data: Seq<char>,
    ov: Seq<(u64, Seq<char>)>,
    tp: Seq<(u64, u64, u64)>,
) -> Option<(Seq<(u64, Seq<char>)>, Seq<(u64, u64, u64)>)>
    decreases data.len(),
{
    if data.len() == 0 {
        Some((ov, tp))
    } else if data.len() < TRANSFER_TX_HEX_LENGTH as int {
        None
    } else {
        let txref = data.subrange(0, TRANSFER_TX_HEX_LENGTH as int);
        match insc_by_tx(store.inscriptions, txref) {
            Some(item) => match ctx_holder(ov, store, item.id) {
                Some(h) => if h == insc.from {
                    chain_run(
                        store,
                        insc,
                        data.skip(TRANSFER_TX_HEX_LENGTH as int),
                        assoc_u64_set(ov, item.id, insc.to),
                        tp.push((insc.id, item.id, tp.len() as u64)),
                    )
                } else {
                    None
                },
                None => None,
            },
            None => None,
        }
    }
}

/// One inscription's category dispatch: the caches and the record it leaves.
pub open spec fn validate_insc(
    store: StoreV,
    hold: Seq<(u64, Seq<char>)>,
    trans: Seq<(u64, u64, u64)>,
    sigs: Seq<Seq<char>>,
    insc: InscriptionV,
) -> (Seq<(u64, Seq<char>)>, Seq<(u64, u64, u64)>, Seq<Seq<char>>, InscriptionV) {
    match insc.mime_category {
        MimeCategory::Transfer => match chain_run(store, insc, insc.mime_data, hold, Seq::empty()) {
            Some(res) => (
                res.0,
                trans + res.1,
                sigs,
                InscriptionV { verified: VerifiedStatus::Successful, ..insc },
            ),
            None => (hold, trans, sigs, InscriptionV { verified: VerifiedStatus::Failed, ..insc }),
        },
        MimeCategory::Json => if collection_valid(store, insc) {
            (hold, trans, sigs, InscriptionV { verified: VerifiedStatus::Successful, ..insc })
        } else {
            (hold, trans, sigs, InscriptionV { verified: VerifiedStatus::Failed, ..insc })
        },
        MimeCategory::Text | MimeCategory::Image => {
            let sig = sha1_hex_of(insc.mime_data);
            if store.signatures.contains(sig) || sigs.contains(sig) {
                (hold, trans, sigs, InscriptionV { verified: VerifiedStatus::Failed, ..insc })
            } else {
                (
                    hold,
                    trans,
                    sigs.push(sig),
                    InscriptionV {
                        signature: Some(sig),
                        verified: VerifiedStatus::Successful,
                        ..insc
                    },
                )
            }
        },
        _ => (hold, trans, sigs, InscriptionV { verified: VerifiedStatus::Failed, ..insc }),
    }
}

/// One inscription's full step: the filter first, then the category validator.
pub open spec fn step_insc(
    filter: InscribeFilter,
    store: StoreV,
    hold: Seq<(u64, Seq<char>)>,
    trans: Seq<(u64, u64, u64)>,
    sigs: Seq<Seq<char>>,
    insc: InscriptionV,
) -> (Seq<(u64, Seq<char>)>, Seq<(u64, u64, u64)>, Seq<Seq<char>>, InscriptionV) {
    if filter.spec_should_reject(insc.tx_hash, insc.blocknumber) {
        (hold, trans, sigs, InscriptionV { verified: VerifiedStatus::Failed, ..insc })
    } else {
        validate_insc(store, hold, trans, sigs, insc)
    }
}

/// A whole block's validation pass, in batch order: each inscription sees the
/// caches its predecessors left.
pub open spec fn run_batch(
    filter: InscribeFilter,
    store: StoreV,
    hold: Seq<(u64, Seq<char>)>,
    trans: Seq<(u64, u64, u64)>,
    sigs: Seq<Seq<char>>,
    inscs: Seq<InscriptionV>,
) -> (Seq<(u64, Seq<char>)>, Seq<(u64, u64, u64)>, Seq<Seq<char>>, Seq<InscriptionV>)
    decreases inscs.len(),
{
    if inscs.len() == 0 {
        (hold, trans, sigs, Seq::empty())
    } else {
        let st = step_insc(filter, store, hold, trans, sigs, inscs[0]);
        let rest = run_batch(filter, store, st.0, st.1, st.2, inscs.drop_first());
        (rest.0, rest.1, rest.2, seq![st.3] + rest.3)
    }
}

fn dup_pairs(v: &Vec<(u64, String)>) -> (r: Vec<(u64, String)>)
    ensures
        r.deep_view() == v.deep_view(),
{
    let mut out: Vec<(u64, String)> = Vec::new();
    let mut i: usize = 0;
    while i < v.len()
        invariant
            0 <= i <= v@.len(),
            out@.len() == i,
            forall|j: int|
                0 <= j < i ==> ((#[trigger] out@[j]).0 == v@[j].0 && out@[j].1@ == v@[j].1@),
        decreases v@.len() - i,
    {
        out.push((v[i].0, v[i].1.clone()));
        i += 1;
    }
    proof {
        assert(out.deep_view() =~= v.deep_view());
    }
    out
}

fn resolve_holder(overrides: &Vec<(u64, String)>, store: &Store, id: u64) -> (r: Option<String>)
    ensures
        r.deep_view() == ctx_holder(overrides.deep_view(), store@, id),
{
    match assoc_u64_find(overrides, id) {
        Some(h) => Some(h),
        None => store.get_inscription_nft_holder_by_id(id),
    }
}

impl<'a> InscribeContext<'a> {
    /// A fresh workspace for one block: empty caches, the token table seeded
    /// from the store, and the given filter.
    pub fn new(store: &Store, inscribe_filter: &'a InscribeFilter) -> (c: InscribeContext<'a>)
        ensures
            c@ == (CtxV {
                inscriptions: Seq::empty(),
                nft_holders: Seq::empty(),
                nft_transfers: Seq::empty(),
                token_cache: store@.tokens,
                token_balance_change: Seq::empty(),
                token_transfers: Seq::empty(),
                block_signatures: Seq::empty(),
            }),
            c.inscribe_filter == inscribe_filter,
    {
        let c = InscribeContext {
            inscriptions: Vec::new(),
            nft_holders: Vec::new(),
            nft_transfers: Vec::new(),
            token_cache: store.get_tokens(),
            token_balance_change: Vec::new(),
            token_transfers: Vec::new(),
            block_signatures: Vec::new(),
            inscribe_filter,
        };
        proof {
            assert(c@ =~= (CtxV {
                inscriptions: Seq::empty(),
                nft_holders: Seq::empty(),
                nft_transfers: Seq::empty(),
                token_cache: store@.tokens,
                token_balance_change: Seq::empty(),
                token_transfers: Seq::empty(),
                block_signatures: Seq::empty(),
            }));
        }
        c
    }

    /// The holder an in-flight validation sees for this inscription id: the
    /// block's override when one exists, the persisted holder otherwise.
    pub fn get_nft_holder(&self, store: &Store, insc_id: u64) -> (r: String)
        requires
            ctx_holder(self@.nft_holders, store@, insc_id) is Some,
        ensures
            Some(r@) == ctx_holder(self@.nft_holders, store@, insc_id),
    {
        match resolve_holder(&self.nft_holders, store, insc_id) {
            Some(h) => h,
            None => {
                proof {
                    assert(false);
                }
                String::new()
            },
        }
    }

    /// Content dedup for Text and Image payloads: computes the payload digest
    /// and rejects when that digest was already persisted, or already accepted
    /// earlier in this block; on acceptance the signature is recorded.
    pub fn process_inscribe_plain(&mut self, store: &Store, insc: &mut Inscription) -> (r: bool)
        ensures
            final(self).inscribe_filter == old(self).inscribe_filter,
            ({
                let sig = sha1_hex_of(old(insc)@.mime_data);
                let fresh = !store@.signatures.contains(sig) && !old(
                    self,
                )@.block_signatures.contains(sig);
                &&& r == fresh
                &&& (r ==> final(insc)@ == (InscriptionV {
                    signature: Some(sig),
                    ..old(insc)@
                }) && final(self)@ == (CtxV {
                    block_signatures: old(self)@.block_signatures.push(sig),
                    ..old(self)@
                }))
                &&& (!r ==> final(insc)@ == old(insc)@ && final(self)@ == old(self)@)
            }),
    {
        let signature = sha1_hex(insc.mime_data.as_str());
        if store.inscription_sign_exists(signature.as_str()) {
            return false;
        }
        if vec_contains_str(&self.block_signatures, signature.as_str()) {
            return false;
        }
        self.block_signatures.push(signature.clone());
        insc.signature = Some(signature);
        proof {
            assert(insc@ =~= (InscriptionV {
                signature: Some(sha1_hex_of(old(insc)@.mime_data)),
                ..old(insc)@
            }));
            assert(self@ =~= (CtxV {
                block_signatures: old(self)@.block_signatures.push(
                    sha1_hex_of(old(insc)@.mime_data),
                ),
                ..old(self)@
            }));
        }
        true
    }

    /// The NFT transfer validator: the payload is a run of fixed-width
    /// transaction-hash references; every reference must resolve and be held
    /// by the sender, and only then do the holder overrides and transfer
    /// tuples land in the context — all or nothing.
    pub fn process_inscribe_nft_transfer(&mut self, store: &Store, insc: &Inscription) -> (r: bool)
        ensures
            final(self).inscribe_filter == old(self).inscribe_filter,
            ({
                let res = chain_run(store@, insc@, insc@.mime_data, old(self)@.nft_holders, Seq::empty());
                &&& r == (res is Some)
                &&& (r ==> final(self)@ == (CtxV {
                    nft_holders: res->Some_0.0,
                    nft_transfers: old(self)@.nft_transfers + res->Some_0.1,
                    ..old(self)@
                }))
                &&& (!r ==> final(self)@ == old(self)@)
            }),
    {
        let ghost full = chain_run(store@, insc@, insc@.mime_data, old(self)@.nft_holders, Seq::empty());
        let mut pending = dup_pairs(&self.nft_holders);
        let mut trans: Vec<(u64, u64, u64)> = Vec::new();
        let data = insc.mime_data.as_str();
        let n = data.unicode_len();
        let mut pos: usize = 0;
        proof {
            assert(insc@.mime_data.skip(0) =~= insc@.mime_data);
        }
        while n - pos >= TRANSFER_TX_HEX_LENGTH
            invariant
                *self == *old(self),
                pos <= n,
                n == insc@.mime_data.len(),
                data@ == insc@.mime_data,
                full == chain_run(
                    store@,
                    insc@,
                    insc@.mime_data,
                    old(self)@.nft_holders,
                    Seq::empty(),
                ),
                full == chain_run(
                    store@,
                    insc@,
                    insc@.mime_data.skip(pos as int),
                    pending.deep_view(),
                    trans@,
                ),
                trans@.len() <= pos,
            decreases n - pos,
        {
            let chunk = data.substring_char(pos, pos + TRANSFER_TX_HEX_LENGTH);
            let ghost rest = insc@.mime_data.skip(pos as int);
            proof {
                assert(chunk@ =~= rest.subrange(0, TRANSFER_TX_HEX_LENGTH as int));
            }
            match store.get_inscription_by_tx(chunk) {
                Some(item) => {
                    match resolve_holder(&pending, store, item.id) {
                        Some(h) => {
                            if str_eq(h.as_str(), insc.from.as_str()) {
                                let idx64 = trans.len() as u64;
                                trans.push((insc.id, item.id, idx64));
                                assoc_u64_write(&mut pending, item.id, &insc.to);
                                pos = pos + TRANSFER_TX_HEX_LENGTH;
                                proof {
                                    assert(rest.skip(TRANSFER_TX_HEX_LENGTH as int)
                                        =~= insc@.mime_data.skip(pos as int));
                                }
                            } else {
                                return false;
                            }
                        },
                        None => {
                            proof {
                                assert(ctx_holder(pending.deep_view(), store@, item@.id) is None);
                                assert(chain_run(store@, insc@, rest, pending.deep_view(), trans@)
                                    is None);
                            }
                            return false;
                        },
                    }
                },
                None => {
                    proof {
                        assert(insc_by_tx(
                            store@.inscriptions,
                            rest.subrange(0, TRANSFER_TX_HEX_LENGTH as int),
                        ) is None);
                        assert(chain_run(store@, insc@, rest, pending.deep_view(), trans@)
                            is None);
                    }
                    return false;
                },
            }
        }
        if pos < n {
            return false;
        }
        proof {
            assert(insc@.mime_data.skip(pos as int) =~= Seq::<char>::empty());
        }
        self.nft_holders = pending;
        self.nft_transfers.append(&mut trans);
        proof {
            assert(self@ =~= (CtxV {
                nft_holders: full->Some_0.0,
                nft_transfers: old(self)@.nft_transfers + full->Some_0.1,
                ..old(self)@
            }));
        }
        true
    }

    /// The Json-operation dispatch: collection deploys are the one operation
    /// this core validates; token operations are rejected here, their rules
    /// being outside the evidence the balance-aggregation step consumes.
    pub fn process_inscribe_json(&self, store: &Store, insc: &Inscription) -> (r: bool)
        ensures
            r == collection_valid(store@, insc@),
    {
        self.execute_app_collection(store, insc)
    }

    /// Applies the filter, dispatches to the category validator, and stamps
    /// the terminal status.
    pub fn process_inscribe(&mut self, store: &Store, insc: &mut Inscription)
        ensures
            final(self).inscribe_filter == old(self).inscribe_filter,
            ({
                let res = validate_insc(
                    store@,
                    old(self)@.nft_holders,
                    old(self)@.nft_transfers,
                    old(self)@.block_signatures,
                    old(insc)@,
                );
                &&& final(self)@ == (CtxV {
                    nft_holders: res.0,
                    nft_transfers: res.1,
                    block_signatures: res.2,
                    ..old(self)@
                })
                &&& final(insc)@ == res.3
            }),
    {
        let ok = match insc.mime_category {
            MimeCategory::Transfer => self.process_inscribe_nft_transfer(store, insc),
            MimeCategory::Json => self.process_inscribe_json(store, insc),
            MimeCategory::Text => self.process_inscribe_plain(store, insc),
            MimeCategory::Image => self.process_inscribe_plain(store, insc),
            MimeCategory::Invoke => false,
            MimeCategory::Other => false,
        };
        insc.verified = if ok {
            VerifiedStatus::Successful
        } else {
            VerifiedStatus::Failed
        };
        proof {
            let res = validate_insc(
                store@,
                old(self)@.nft_holders,
                old(self)@.nft_transfers,
                old(self)@.block_signatures,
                old(insc)@,
            );
            assert(self@ =~= (CtxV {
                nft_holders: res.0,
                nft_transfers: res.1,
                block_signatures: res.2,
                ..old(self)@
            }));
            assert(insc@ =~= res.3);
        }
    }

    /// The block's validation pass, in batch order: filtered inscriptions are
    /// marked Failed outright; every other one is dispatched and stamped, and
    /// its cache effects become visible to its successors.
    pub fn inscribe(&mut self, store: &Store)
        ensures
            final(self).inscribe_filter == old(self).inscribe_filter,
            ({
                let rb = run_batch(
                    *old(self).inscribe_filter,
                    store@,
                    old(self)@.nft_holders,
                    old(self)@.nft_transfers,
                    old(self)@.block_signatures,
                    old(self)@.inscriptions,
                );
                final(self)@ == (CtxV {
                    inscriptions: rb.3,
                    nft_holders: rb.0,
                    nft_transfers: rb.1,
                    block_signatures: rb.2,
                    ..old(self)@
                })
            }),
    {
        let ghost flt = *self.inscribe_filter;
        let ghost g_inscs = self@.inscriptions;
        let ghost rb_full = run_batch(
            flt,
            store@,
            self@.nft_holders,
            self@.nft_transfers,
            self@.block_signatures,
            g_inscs,
        );
        proof {
            assert(g_inscs.skip(0) =~= g_inscs);
            assert(self@.inscriptions.subrange(0, 0) + run_batch(
                flt,
                store@,
                self@.nft_holders,
                self@.nft_transfers,
                self@.block_signatures,
                g_inscs.skip(0),
            ).3 =~= rb_full.3);
        }
        let mut i: usize = 0;
        while i < self.inscriptions.len()
            invariant
                0 <= i <= g_inscs.len(),
                self.inscribe_filter == old(self).inscribe_filter,
                flt == *self.inscribe_filter,
                self@.inscriptions.len() == g_inscs.len(),
                forall|j: int| i <= j < g_inscs.len() ==> self@.inscriptions[j] == g_inscs[j],
                ({
                    let rb_rest = run_batch(
                        flt,
                        store@,
                        self@.nft_holders,
                        self@.nft_transfers,
                        self@.block_signatures,
                        g_inscs.skip(i as int),
                    );
                    rb_full == (
                        rb_rest.0,
                        rb_rest.1,
                        rb_rest.2,
                        self@.inscriptions.subrange(0, i as int) + rb_rest.3,
                    )
                }),
                self@.token_cache == old(self)@.token_cache,
                self@.token_balance_change == old(self)@.token_balance_change,
                self@.token_transfers == old(self)@.token_transfers,
            decreases g_inscs.len() - i,
        {
            let ghost h0 = self@.nft_holders;
            let ghost t0 = self@.nft_transfers;
            let ghost s0 = self@.block_signatures;
            let ghost pre = self@.inscriptions;
            let mut insc = self.inscriptions[i].duplicate();
            if self.inscribe_filter.should_reject(&insc.tx_hash, insc.blocknumber) {
                insc.verified = VerifiedStatus::Failed;
                proof {
                    assert(insc@ =~= (InscriptionV {
                        verified: VerifiedStatus::Failed,
                        ..g_inscs[i as int]
                    }));
                }
            } else {
                self.process_inscribe(store, &mut insc);
            }
            proof {
                let st = step_insc(flt, store@, h0, t0, s0, g_inscs[i as int]);
                assert(insc@ == st.3);
            }
            self.inscriptions[i] = insc;
            proof {
                let st = step_insc(flt, store@, h0, t0, s0, g_inscs[i as int]);
                assert(g_inscs.skip(i as int)[0] == g_inscs[i as int]);
                assert(g_inscs.skip(i as int).drop_first() =~= g_inscs.skip(i as int + 1));
                let rb_rest2 = run_batch(
                    flt,
                    store@,
                    self@.nft_holders,
                    self@.nft_transfers,
                    self@.block_signatures,
                    g_inscs.skip(i as int + 1),
                );
                assert(pre.subrange(0, i as int) + (seq![st.3] + rb_rest2.3) =~= self@.inscriptions.subrange(
                    0,
                    i as int + 1,
                ) + rb_rest2.3);
            }
            i += 1;
        }
        proof {
            assert(g_inscs.skip(i as int) =~= Seq::<InscriptionV>::empty());
            assert(self@.inscriptions.subrange(0, i as int) =~= self@.inscriptions);
            assert(self@ =~= (CtxV {
                inscriptions: rb_full.3,
                nft_holders: rb_full.0,
                nft_transfers: rb_full.1,
                block_signatures: rb_full.2,
                ..old(self)@
            }));
        }
    }
}

} // verus!
