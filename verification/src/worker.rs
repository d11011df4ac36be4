use vstd::prelude::*;
use crate::collection::collection_valid;
use crate::collection::deploy_resolvable;
use crate::collection::lemma_valid_resolvable;
use crate::commit::save_ready;
use crate::commit::spec_save;
use crate::context::CtxV;
use crate::context::InscribeContext;
use crate::context::run_batch;
use crate::context::step_insc;
use crate::store::Store;
use crate::store::StoreError;
use crate::store::StoreV;
use crate::store::insc_by_id;
use crate::store::lemma_idx_by_id;
use crate::types::InscribeFilter;
use crate::types::Inscription;
use crate::types::InscriptionV;

verus! {

broadcast use vstd::std_specs::vec::group_vec_axioms;

/// The run of contiguous persisted inscriptions starting at `id` that share
/// the block number `bn`: it ends at the first gap or block change.
pub open spec fn block_run(s: StoreV, id: u64, bn: u64) -> Seq<InscriptionV>
    decreases u64::MAX - id,
{
    match insc_by_id(s.inscriptions, id) {
        Some(insc) => if insc.blocknumber != bn {
            Seq::empty()
        } else if id == u64::MAX {
            seq![insc]
        } else {
            seq![insc] + block_run(s, (id + 1) as u64, bn)
        },
        None => Seq::empty(),
    }
}

/// Every inscription of a block run carries an id at or above the start.
pub proof fn lemma_block_run_ids(s: StoreV, id: u64, bn: u64)
    ensures
        forall|j: int|
            0 <= j < block_run(s, id, bn).len() ==> (#[trigger] block_run(s, id, bn)[j]).id >= id,
    decreases u64::MAX - id,
{
    lemma_idx_by_id(s.inscriptions, id);
    match insc_by_id(s.inscriptions, id) {
        Some(insc) => {
            if insc.blocknumber == bn && id < u64::MAX {
                lemma_block_run_ids(s, (id + 1) as u64, bn);
                assert forall|j: int| 0 <= j < block_run(s, id, bn).len() implies (#[trigger] block_run(
                    s,
                    id,
                    bn,
                )[j]).id >= id by {
                    if j > 0 {
                        assert(block_run(s, id, bn)[j] == block_run(s, (id + 1) as u64, bn)[j - 1]);
                    }
                }
            }
        },
        None => {},
    }
}

/// The validation pass keeps each record's identity: only `verified` and
/// `signature` change, and a successful Json record validated as a deploy.
pub proof fn lemma_run_batch(
    filter: InscribeFilter,
    store: StoreV,
    hold: Seq<(u64, Seq<char>)>,
    trans: Seq<(u64, u64, u64)>,
    sigs: Seq<Seq<char>>,
    inscs: Seq<InscriptionV>,
)
    ensures
        run_batch(filter, store, hold, trans, sigs, inscs).3.len() == inscs.len(),
        forall|j: int|
            0 <= j < inscs.len() ==> (#[trigger] run_batch(filter, store, hold, trans, sigs, inscs).3[j]).id
                == inscs[j].id,
        forall|j: int|
            0 <= j < inscs.len() && (#[trigger] run_batch(filter, store, hold, trans, sigs, inscs).3[j]).verified
                is Successful && run_batch(filter, store, hold, trans, sigs, inscs).3[j].mime_category
                is Json ==> collection_valid(
                store,
                run_batch(filter, store, hold, trans, sigs, inscs).3[j],
            ),
    decreases inscs.len(),
{
    if inscs.len() > 0 {
        let st = step_insc(filter, store, hold, trans, sigs, inscs[0]);
        lemma_run_batch(filter, store, st.0, st.1, st.2, inscs.drop_first());
        let rb = run_batch(filter, store, hold, trans, sigs, inscs);
        let rest = run_batch(filter, store, st.0, st.1, st.2, inscs.drop_first());
        assert forall|j: int| 0 <= j < inscs.len() implies (#[trigger] rb.3[j]).id == inscs[j].id by {
            if j > 0 {
                assert(rb.3[j] == rest.3[j - 1]);
                assert(inscs.drop_first()[j - 1] == inscs[j]);
            }
        }
        assert forall|j: int|
            0 <= j < inscs.len() && (#[trigger] rb.3[j]).verified is Successful
                && rb.3[j].mime_category is Json implies collection_valid(store, rb.3[j]) by {
            if j > 0 {
                assert(rb.3[j] == rest.3[j - 1]);
            }
        }
    }
}

/// Whether the next unprocessed inscription exists and belongs to a block
/// ingestion has fully written: only then does a poll cycle do work.
pub open spec fn work_available(s: StoreV) -> bool {
    &&& s.top_inscription_id < s.top_sync_id
    &&& insc_by_id(s.inscriptions, (s.top_inscription_id + 1) as u64) is Some
    &&& insc_by_id(s.inscriptions, (s.top_inscription_id + 1) as u64)->Some_0.blocknumber
        < s.sync_blocknumber
}

/// The block a poll cycle would process: the contiguous run at the cursor.
pub open spec fn next_block(s: StoreV) -> Seq<InscriptionV> {
    block_run(
        s,
        (s.top_inscription_id + 1) as u64,
        insc_by_id(s.inscriptions, (s.top_inscription_id + 1) as u64)->Some_0.blocknumber,
    )
}

/// The store one successful poll cycle leaves: the next block validated
/// against `s` and committed.
pub open spec fn worker_effect(filter: InscribeFilter, s: StoreV) -> StoreV {
    let blk = next_block(s);
    let rb = run_batch(filter, s, Seq::empty(), Seq::empty(), Seq::empty(), blk);
    let c = CtxV {
        inscriptions: rb.3,
        nft_holders: rb.0,
        nft_transfers: rb.1,
        token_cache: s.tokens,
        token_balance_change: Seq::empty(),
        token_transfers: Seq::empty(),
        block_signatures: rb.2,
    };
    spec_save(s, c)
}

fn load_from(store: &Store, id: u64, bn: u64) -> (r: Vec<Inscription>)
    ensures
        r.deep_view() == block_run(store@, id, bn),
    decreases u64::MAX - id,
{
    match store.get_inscription_by_id(id) {
        Some(insc) => {
            if insc.blocknumber != bn {
                let r: Vec<Inscription> = Vec::new();
                proof {
                    assert(r.deep_view() =~= block_run(store@, id, bn));
                }
                r
            } else if id == u64::MAX {
                let ghost gi = insc@;
                let r = vec![insc];
                proof {
                    assert(r.deep_view() =~= seq![gi]);
                }
                r
            } else {
                let ghost gi = insc@;
                let mut rest = load_from(store, id + 1, bn);
                let mut r: Vec<Inscription> = Vec::new();
                r.push(insc);
                r.append(&mut rest);
                proof {
                    assert(r.deep_view() =~= seq![gi] + block_run(store@, (id + 1) as u64, bn));
                }
                r
            }
        },
        None => {
            let r: Vec<Inscription> = Vec::new();
            proof {
                assert(r.deep_view() =~= block_run(store@, id, bn));
            }
            r
        },
    }
}

/// Polls the cursors and drives one block at a time through validation and
/// an atomic commit.
pub struct WorkerInscribe {
    pub inscribe_filter: InscribeFilter,
}

impl WorkerInscribe {
    pub fn new(inscribe_filter: InscribeFilter) -> (w: WorkerInscribe)
        ensures
            w.inscribe_filter == inscribe_filter,
    {
        WorkerInscribe { inscribe_filter }
    }

    /// Loads the next contiguous run of pending inscriptions that belong to
    /// `blocknumber`, starting just past the processed cursor and stopping at
    /// the first gap or block change.
    pub fn load_block(&self, store: &Store, blocknumber: u64) -> (r: Vec<Inscription>)
        ensures
            store@.top_inscription_id < u64::MAX ==> r.deep_view() == block_run(
                store@,
                (store@.top_inscription_id + 1) as u64,
                blocknumber,
            ),
            store@.top_inscription_id == u64::MAX ==> r@.len() == 0,
    {
        let top = store.get_top_inscription_id();
        if top == u64::MAX {
            Vec::new()
        } else {
            load_from(store, top + 1, blocknumber)
        }
    }

    /// One poll cycle: reads the cursors, backs out when nothing is ready,
    /// and otherwise validates and commits exactly the next block. The
    /// processed cursor never decreases; a failed commit, like an idle
    /// cycle, leaves the store untouched.
    pub fn inscribe(&self, store: &mut Store) -> (r: Result<bool, StoreError>)
        ensures
            final(store)@.top_inscription_id >= old(store)@.top_inscription_id,
            r is Err <==> (work_available(old(store)@) && old(store)@.fail_commit),
            (r is Err || r == Result::<bool, StoreError>::Ok(false)) ==> final(store)@ == old(
                store,
            )@,
            r == Result::<bool, StoreError>::Ok(true) <==> (work_available(old(store)@) && !old(
                store,
            )@.fail_commit),
            r == Result::<bool, StoreError>::Ok(true) ==> final(store)@ == worker_effect(
                self.inscribe_filter,
                old(store)@,
            ),
    {
        let insc_id = store.get_top_inscription_id();
        let sync_id = store.get_top_inscription_sync_id();
        let sync_blocknumber = store.get_sync_blocknumber();
        if insc_id >= sync_id {
            return Ok(false);
        }
        let next = match store.get_inscription_by_id(insc_id + 1) {
            Some(i) => i,
            None => {
                return Ok(false);
            },
        };
        let current_blocknumber = next.blocknumber;
        if current_blocknumber >= sync_blocknumber {
            return Ok(false);
        }
        let insc_list = self.load_block(store, current_blocknumber);
        let ghost blk = next_block(store@);
        proof {
            assert(blk == block_run(store@, (insc_id + 1) as u64, current_blocknumber));
            assert(blk[0] == next@);
            assert(blk.len() > 0);
        }
        let mut context = InscribeContext::new(store, &self.inscribe_filter);
        context.inscriptions = insc_list;
        context.inscribe(store);
        let ghost rb = run_batch(
            self.inscribe_filter,
            store@,
            Seq::empty(),
            Seq::empty(),
            Seq::empty(),
            blk,
        );
        proof {
            lemma_run_batch(
                self.inscribe_filter,
                store@,
                Seq::empty(),
                Seq::empty(),
                Seq::empty(),
                blk,
            );
            lemma_block_run_ids(store@, (insc_id + 1) as u64, current_blocknumber);
            assert(context@.inscriptions == rb.3);
            assert(rb.3.len() == blk.len());
            assert forall|j: int|
                0 <= j < context@.inscriptions.len() && (#[trigger] context@.inscriptions[j]).verified
                    is Successful && context@.inscriptions[j].mime_category
                    is Json implies deploy_resolvable(store@.inscriptions, context@.inscriptions[j]) by {
                lemma_valid_resolvable(store@, context@.inscriptions[j]);
            }
            assert(save_ready(context@, store@));
        }
        let ghost pre_save = store@;
        let ghost ctx_pre = context@;
        proof {
            assert(ctx_pre =~= (CtxV {
                inscriptions: rb.3,
                nft_holders: rb.0,
                nft_transfers: rb.1,
                token_cache: pre_save.tokens,
                token_balance_change: Seq::empty(),
                token_transfers: Seq::empty(),
                block_signatures: rb.2,
            }));
        }
        match context.save(store) {
            Ok(_) => {
                proof {
                    assert(store@ == spec_save(pre_save, CtxV {
                        inscriptions: rb.3,
                        nft_holders: rb.0,
                        nft_transfers: rb.1,
                        token_cache: pre_save.tokens,
                        token_balance_change: Seq::empty(),
                        token_transfers: Seq::empty(),
                        block_signatures: rb.2,
                    }));
                    assert(store@.top_inscription_id == rb.3.last().id);
                    assert(rb.3.last().id == blk.last().id);
                    assert(blk.last().id >= insc_id + 1);
                }
                Ok(true)
            },
            Err(e) => Err(e),
        }
    }
}

} // verus!
