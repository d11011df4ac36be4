use vstd::prelude::*;
use crate::collection::collection_valid;
use crate::collection::item_valid;
use crate::collection::items_valid;
use crate::collection::save_collections;
use crate::collection::save_one_collection;
use crate::collection::set_members;
use crate::commit::batch_sigs;
use crate::commit::sig_part;
use crate::commit::spec_save;
use crate::context::CtxV;
use crate::context::chain_run;
use crate::context::ctx_holder;
use crate::context::step_insc;
use crate::context::validate_insc;
use crate::digest::sha1_hex_of;
use crate::json::JsonV;
use crate::json::spec_get;
use crate::store::StoreV;
use crate::store::assoc_u64;
use crate::store::assoc_u64_set;
use crate::store::idx_u64;
use crate::store::insc_by_tx;
use crate::store::lemma_idx_u64;
use crate::types::InscribeFilter;
use crate::types::InscriptionV;
use crate::types::TRANSFER_TX_HEX_LENGTH;
use crate::types::VerifiedStatus;

verus! {

/// Rebinding a key finds exactly that key.
pub proof fn lemma_assoc_set_same(s: Seq<(u64, Seq<char>)>, id: u64, v: Seq<char>)
    ensures
        assoc_u64(assoc_u64_set(s, id, v), id) == Some(v),
{
    lemma_idx_u64(s, id);
    let s2 = assoc_u64_set(s, id, v);
    lemma_idx_u64(s2, id);
    let i = idx_u64(s, id);
    if i < s.len() {
        assert(s2[i].0 == id);
        assert(forall|j: int| 0 <= j < i ==> s2[j] == s[j]);
        assert(idx_u64(s2, id) == i);
    } else {
        assert(s2[s.len() as int].0 == id);
        assert(forall|j: int| 0 <= j < s.len() ==> s2[j] == s[j]);
        assert(idx_u64(s2, id) == s.len());
    }
}

/// Rebinding one key leaves every other key's binding alone.
pub proof fn lemma_assoc_set_other(s: Seq<(u64, Seq<char>)>, id: u64, v: Seq<char>, id2: u64)
    requires
        id2 != id,
    ensures
        assoc_u64(assoc_u64_set(s, id, v), id2) == assoc_u64(s, id2),
{
    lemma_idx_u64(s, id);
    lemma_idx_u64(s, id2);
    let s2 = assoc_u64_set(s, id, v);
    lemma_idx_u64(s2, id2);
    let i = idx_u64(s, id);
    let k = idx_u64(s, id2);
    if i < s.len() {
        assert(forall|j: int| 0 <= j < s.len() && j != i ==> s2[j] == s[j]);
        assert(s2[i].0 == id);
        if k < s.len() {
            assert(s2[k] == s[k]);
            assert(idx_u64(s2, id2) == k);
        } else {
            assert(forall|j: int| 0 <= j < s2.len() ==> s2[j].0 != id2);
            assert(idx_u64(s2, id2) == s2.len());
        }
    } else {
        assert(forall|j: int| 0 <= j < s.len() ==> s2[j] == s[j]);
        if k < s.len() {
            assert(idx_u64(s2, id2) == k);
        } else {
            assert(forall|j: int| 0 <= j < s2.len() ==> s2[j].0 != id2);
            assert(idx_u64(s2, id2) == s2.len());
        }
    }
}

/// Filter precedence: an inscription the filter matches is marked Failed and
/// leaves every cache exactly as it was, whatever its category.
pub proof fn lemma_filter_precedence(
    filter: InscribeFilter,
    store: StoreV,
    hold: Seq<(u64, Seq<char>)>,
    trans: Seq<(u64, u64, u64)>,
    sigs: Seq<Seq<char>>,
    insc: InscriptionV,
)
    requires
        filter.spec_should_reject(insc.tx_hash, insc.blocknumber),
    ensures
        step_insc(filter, store, hold, trans, sigs, insc) == (
            hold,
            trans,
            sigs,
            InscriptionV { verified: VerifiedStatus::Failed, ..insc },
        ),
{
}

/// Transfer chain correctness for a two-reference payload `[A, B]`: when the
/// sender holds both, the chain succeeds, overriding both holders to the
/// recipient and recording indices 0 and 1 in order; when the sender does
/// not hold `B`, the whole chain fails, so no override is recorded at all.
pub proof fn lemma_transfer_chain_two(
    store: StoreV,
    insc: InscriptionV,
    ov: Seq<(u64, Seq<char>)>,
    a: InscriptionV,
    b: InscriptionV,
)
    requires
        insc.mime_data.len() == 2 * TRANSFER_TX_HEX_LENGTH,
        insc_by_tx(store.inscriptions, insc.mime_data.subrange(0, TRANSFER_TX_HEX_LENGTH as int))
            == Some(a),
        insc_by_tx(
            store.inscriptions,
            insc.mime_data.subrange(
                TRANSFER_TX_HEX_LENGTH as int,
                2 * TRANSFER_TX_HEX_LENGTH as int,
            ),
        ) == Some(b),
        a.id != b.id,
        ctx_holder(ov, store, a.id) == Some(insc.from),
    ensures
        ctx_holder(ov, store, b.id) == Some(insc.from) ==> chain_run(
            store,
            insc,
            insc.mime_data,
            ov,
            Seq::empty(),
        ) == Some(
            (
                assoc_u64_set(assoc_u64_set(ov, a.id, insc.to), b.id, insc.to),
                seq![(insc.id, a.id, 0u64), (insc.id, b.id, 1u64)],
            ),
        ),
        ctx_holder(ov, store, b.id) != Some(insc.from) ==> chain_run(
            store,
            insc,
            insc.mime_data,
            ov,
            Seq::empty(),
        ) is None,
{
    let data = insc.mime_data;
    let ll = TRANSFER_TX_HEX_LENGTH as int;
    let ov1 = assoc_u64_set(ov, a.id, insc.to);
    let tp1: Seq<(u64, u64, u64)> = Seq::empty().push((insc.id, a.id, 0u64));
    let rest = data.skip(ll);
    assert(rest.subrange(0, ll) =~= data.subrange(ll, 2 * ll));
    assert(rest.skip(ll) =~= Seq::<char>::empty());
    lemma_assoc_set_other(ov, a.id, insc.to, b.id);
    assert(ctx_holder(ov1, store, b.id) == ctx_holder(ov, store, b.id));
    assert(Seq::<(u64, u64, u64)>::empty().push(
        (insc.id, a.id, Seq::<(u64, u64, u64)>::empty().len() as u64),
    ) =~= tp1);
    assert(chain_run(store, insc, data, ov, Seq::empty()) == chain_run(store, insc, rest, ov1, tp1));
    if ctx_holder(ov, store, b.id) == Some(insc.from) {
        let tp2 = tp1.push((insc.id, b.id, tp1.len() as u64));
        assert(chain_run(store, insc, rest, ov1, tp1) == chain_run(
            store,
            insc,
            rest.skip(ll),
            assoc_u64_set(ov1, b.id, insc.to),
            tp2,
        ));
        assert(chain_run(store, insc, rest.skip(ll), assoc_u64_set(ov1, b.id, insc.to), tp2)
            == Some((assoc_u64_set(ov1, b.id, insc.to), tp2)));
        assert(tp2 =~= seq![(insc.id, a.id, 0u64), (insc.id, b.id, 1u64)]);
    } else {
        assert(chain_run(store, insc, rest, ov1, tp1) is None);
    }
}

/// The commit does not touch the signature index while persisting collection
/// records.
pub proof fn lemma_save_collections_frame(s: StoreV, inscs: Seq<InscriptionV>)
    ensures
        ({
            let s1 = save_collections(s, inscs);
            &&& s1.inscriptions == s.inscriptions
            &&& s1.signatures == s.signatures
            &&& s1.nft_holders == s.nft_holders
            &&& s1.nft_transfers == s.nft_transfers
            &&& s1.tokens == s.tokens
            &&& s1.balances == s.balances
            &&& s1.token_transfers == s.token_transfers
            &&& s1.top_inscription_id == s.top_inscription_id
            &&& s1.top_sync_id == s.top_sync_id
            &&& s1.sync_blocknumber == s.sync_blocknumber
            &&& s1.fail_commit == s.fail_commit
        }),
    decreases inscs.len(),
{
    if inscs.len() > 0 {
        let s1 = if inscs[0].verified is Successful && inscs[0].mime_category is Json {
            save_one_collection(s, inscs[0])
        } else {
            s
        };
        lemma_save_collections_frame(s1, inscs.drop_first());
    }
}

/// A batch record that carries a signature contributes it to the committed
/// signature index.
pub proof fn lemma_batch_sigs_contains(inscs: Seq<InscriptionV>, j: int)
    requires
        0 <= j < inscs.len(),
        inscs[j].signature is Some,
    ensures
        batch_sigs(inscs).contains(inscs[j].signature->Some_0),
    decreases j,
{
    if j == 0 {
        assert(batch_sigs(inscs)[0] == inscs[0].signature->Some_0);
    } else {
        lemma_batch_sigs_contains(inscs.drop_first(), j - 1);
        let k = choose|k: int|
            0 <= k < batch_sigs(inscs.drop_first()).len() && batch_sigs(inscs.drop_first())[k]
                == inscs[j].signature->Some_0;
        assert(batch_sigs(inscs)[sig_part(inscs[0]).len() + k] == inscs[j].signature->Some_0);
    }
}

/// Dedup, first half: a plain payload whose digest is in neither the store's
/// signature index nor the block's accepted signatures validates, and its
/// signature is set to that digest.
pub proof fn lemma_dedup_first_success(
    store: StoreV,
    hold: Seq<(u64, Seq<char>)>,
    trans: Seq<(u64, u64, u64)>,
    sigs: Seq<Seq<char>>,
    insc: InscriptionV,
)
    requires
        insc.mime_category is Text || insc.mime_category is Image,
        !store.signatures.contains(sha1_hex_of(insc.mime_data)),
        !sigs.contains(sha1_hex_of(insc.mime_data)),
    ensures
        validate_insc(store, hold, trans, sigs, insc).3.verified is Successful,
        validate_insc(store, hold, trans, sigs, insc).3.signature == Some(
            sha1_hex_of(insc.mime_data),
        ),
{
}

/// Dedup, same block: once a plain payload has been accepted, an identical
/// payload later in the same block fails.
pub proof fn lemma_dedup_same_block(
    store: StoreV,
    hold: Seq<(u64, Seq<char>)>,
    trans: Seq<(u64, u64, u64)>,
    sigs: Seq<Seq<char>>,
    a: InscriptionV,
    hold2: Seq<(u64, Seq<char>)>,
    trans2: Seq<(u64, u64, u64)>,
    b: InscriptionV,
)
    requires
        a.mime_category is Text || a.mime_category is Image,
        b.mime_category is Text || b.mime_category is Image,
        b.mime_data == a.mime_data,
        validate_insc(store, hold, trans, sigs, a).3.verified is Successful,
    ensures
        validate_insc(store, hold2, trans2, validate_insc(store, hold, trans, sigs, a).2, b).3.verified
            is Failed,
{
    let g2 = validate_insc(store, hold, trans, sigs, a).2;
    assert(g2 == sigs.push(sha1_hex_of(a.mime_data)));
    assert(g2[g2.len() - 1] == sha1_hex_of(b.mime_data));
    assert(g2.contains(sha1_hex_of(b.mime_data)));
}

/// Dedup, across blocks: after a block whose committed batch carries some
/// payload's digest as a signature, an identical plain payload can never
/// validate against the committed store again.
pub proof fn lemma_dedup_across_blocks(
    s: StoreV,
    c: CtxV,
    j: int,
    hold: Seq<(u64, Seq<char>)>,
    trans: Seq<(u64, u64, u64)>,
    sigs: Seq<Seq<char>>,
    insc2: InscriptionV,
)
    requires
        0 <= j < c.inscriptions.len(),
        c.inscriptions[j].signature == Some(sha1_hex_of(insc2.mime_data)),
        insc2.mime_category is Text || insc2.mime_category is Image,
    ensures
        validate_insc(spec_save(s, c), hold, trans, sigs, insc2).3.verified is Failed,
{
    lemma_save_collections_frame(s, c.inscriptions);
    lemma_batch_sigs_contains(c.inscriptions, j);
    let s1 = save_collections(s, c.inscriptions);
    let dg = sha1_hex_of(insc2.mime_data);
    let k = choose|k: int|
        0 <= k < batch_sigs(c.inscriptions).len() && batch_sigs(c.inscriptions)[k] == dg;
    assert(spec_save(s, c).signatures == s1.signatures + batch_sigs(c.inscriptions));
    assert(spec_save(s, c).signatures[s1.signatures.len() + k] == dg);
    assert(spec_save(s, c).signatures.contains(dg));
}

/// Any one item of a valid deploy is itself valid.
pub proof fn lemma_items_valid_index(store: StoreV, from: Seq<char>, items: Seq<JsonV>, k: int)
    requires
        0 <= k < items.len(),
        items_valid(store, from, items),
    ensures
        item_valid(store, from, items[k]),
    decreases k,
{
    if k > 0 {
        lemma_items_valid_index(store, from, items.drop_first(), k - 1);
        assert(items.drop_first()[k - 1] == items[k]);
    }
}

/// Collection membership exclusivity, first half: a deploy whose item list
/// references an inscription already assigned to a collection is invalid.
pub proof fn lemma_membership_exclusive(store: StoreV, insc: InscriptionV, k: int)
    requires
        spec_get(insc.json, "items"@) is Arr,
        0 <= k < spec_get(insc.json, "items"@)->Arr_0.len(),
        ({
            let item = spec_get(insc.json, "items"@)->Arr_0[k];
            &&& spec_get(item, "tx"@) is Str
            &&& match insc_by_tx(store.inscriptions, spec_get(item, "tx"@)->Str_0) {
                Some(target) => assoc_u64(store.memberships, target.id) is Some,
                None => true,
            }
        }),
    ensures
        !collection_valid(store, insc),
{
    if collection_valid(store, insc) {
        lemma_items_valid_index(store, insc.from, spec_get(insc.json, "items"@)->Arr_0, k);
        assert(false);
    }
}

/// A binding held for a key no later item rebinds survives the member writes.
proof fn lemma_set_members_preserves(
    mem: Seq<(u64, Seq<char>)>,
    inscs: Seq<InscriptionV>,
    items: Seq<JsonV>,
    ctx_tx: Seq<char>,
    id: u64,
)
    requires
        assoc_u64(mem, id) == Some(ctx_tx),
        forall|m: int|
            0 <= m < items.len() ==> insc_by_tx(
                inscs,
                spec_get(#[trigger] items[m], "tx"@)->Str_0,
            )->Some_0.id != id,
    ensures
        assoc_u64(set_members(mem, inscs, items, ctx_tx), id) == Some(ctx_tx),
    decreases items.len(),
{
    if items.len() > 0 {
        let wid = insc_by_tx(inscs, spec_get(items[0], "tx"@)->Str_0)->Some_0.id;
        lemma_assoc_set_other(mem, wid, ctx_tx, id);
        assert(forall|m: int|
            0 <= m < items.drop_first().len() ==> items.drop_first()[m] == items[m + 1]);
        lemma_set_members_preserves(
            assoc_u64_set(mem, wid, ctx_tx),
            inscs,
            items.drop_first(),
            ctx_tx,
            id,
        );
    }
}

/// Collection membership exclusivity, second half: after one deploy is
/// persisted, every item whose resolved id no later item repeats carries the
/// deploying transaction hash as its back-reference.
pub proof fn lemma_deploy_backrefs(s: StoreV, insc: InscriptionV, k: int)
    requires
        spec_get(insc.json, "items"@) is Arr,
        0 <= k < spec_get(insc.json, "items"@)->Arr_0.len(),
        ({
            let items = spec_get(insc.json, "items"@)->Arr_0;
            let id = insc_by_tx(s.inscriptions, spec_get(items[k], "tx"@)->Str_0)->Some_0.id;
            forall|m: int|
                k < m < items.len() ==> insc_by_tx(
                    s.inscriptions,
                    spec_get(#[trigger] items[m], "tx"@)->Str_0,
                )->Some_0.id != id
        }),
    ensures
        ({
            let items = spec_get(insc.json, "items"@)->Arr_0;
            let id = insc_by_tx(s.inscriptions, spec_get(items[k], "tx"@)->Str_0)->Some_0.id;
            assoc_u64(save_one_collection(s, insc).memberships, id) == Some(insc.tx_hash)
        }),
{
    let items = spec_get(insc.json, "items"@)->Arr_0;
    let id = insc_by_tx(s.inscriptions, spec_get(items[k], "tx"@)->Str_0)->Some_0.id;
    lemma_backrefs_rec(s.memberships, s.inscriptions, items, insc.tx_hash, k, id);
}

proof fn lemma_backrefs_rec(
    mem: Seq<(u64, Seq<char>)>,
    inscs: Seq<InscriptionV>,
    items: Seq<JsonV>,
    ctx_tx: Seq<char>,
    k: int,
    id: u64,
)
    requires
        0 <= k < items.len(),
        id == insc_by_tx(inscs, spec_get(items[k], "tx"@)->Str_0)->Some_0.id,
        forall|m: int|
            k < m < items.len() ==> insc_by_tx(
                inscs,
                spec_get(#[trigger] items[m], "tx"@)->Str_0,
            )->Some_0.id != id,
    ensures
        assoc_u64(set_members(mem, inscs, items, ctx_tx), id) == Some(ctx_tx),
    decreases k,
{
    let wid = insc_by_tx(inscs, spec_get(items[0], "tx"@)->Str_0)->Some_0.id;
    assert(forall|m: int|
        0 <= m < items.drop_first().len() ==> items.drop_first()[m] == items[m + 1]);
    if k == 0 {
        lemma_assoc_set_same(mem, id, ctx_tx);
        lemma_set_members_preserves(
            assoc_u64_set(mem, id, ctx_tx),
            inscs,
            items.drop_first(),
            ctx_tx,
            id,
        );
    } else {
        lemma_backrefs_rec(
            assoc_u64_set(mem, wid, ctx_tx),
            inscs,
            items.drop_first(),
            ctx_tx,
            k - 1,
            id,
        );
    }
}

/// A committed batch never lowers the processed cursor below any of its
/// member ids: the cursor lands exactly on the last record's id.
pub proof fn lemma_cursor_lands_on_last(s: StoreV, c: CtxV)
    requires
        c.inscriptions.len() > 0,
    ensures
        spec_save(s, c).top_inscription_id == c.inscriptions.last().id,
{
    lemma_save_collections_frame(s, c.inscriptions);
}

} // verus!
