use vstd::prelude::*;
use crate::context::InscribeContext;
use crate::json::JsonV;
use crate::json::spec_get;
use crate::json::str_eq;
use crate::store::Store;
use crate::store::StoreV;
use crate::store::assoc_u64;
use crate::store::assoc_u64_set;
use crate::store::insc_by_tx;
use crate::types::InscriptionV;
use crate::types::Inscription;

verus! {

broadcast use vstd::std_specs::vec::group_vec_axioms;

/// Whether one declared collection item passes: an object with a string `tx`
/// that resolves to a persisted inscription which belongs to no collection
/// yet and whose persisted holder is the deployer.
pub open spec fn item_valid(store: StoreV, from: Seq<char>, item: JsonV) -> bool {
    &&& item is Obj
    &&& spec_get(item, "tx"@) is Str
    &&& match insc_by_tx(store.inscriptions, spec_get(item, "tx"@)->Str_0) {
        Some(target) => {
            &&& assoc_u64(store.memberships, target.id) is None
            &&& assoc_u64(store.nft_holders, target.id) == Some(from)
        },
        None => false,
    }
}

/// Whether every declared item passes.
pub open spec fn items_valid(store: StoreV, from: Seq<char>, items: Seq<JsonV>) -> bool
    decreases items.len(),
{
    if items.len() == 0 {
        true
    } else {
        item_valid(store, from, items[0]) && items_valid(store, from, items.drop_first())
    }
}

/// Whether a collection deploy inscription validates: the `deploy` operation,
/// an `items` array, the five string metadata fields, and every item passing.
pub open spec fn collection_valid(store: StoreV, insc: InscriptionV) -> bool {
    &&& spec_get(insc.json, "op"@) == JsonV::Str("deploy"@)
    &&& spec_get(insc.json, "items"@) is Arr
    &&& spec_get(insc.json, "name"@) is Str
    &&& spec_get(insc.json, "description"@) is Str
    &&& spec_get(insc.json, "url"@) is Str
    &&& spec_get(insc.json, "image"@) is Str
    &&& spec_get(insc.json, "icon"@) is Str
    &&& items_valid(store, insc.from, spec_get(insc.json, "items"@)->Arr_0)
}

/// Whether every declared item carries a string `tx` that resolves to some
/// persisted inscription — all a deploy's persistence step needs.
pub open spec fn items_resolve(inscs: Seq<InscriptionV>, items: Seq<JsonV>) -> bool
    decreases items.len(),
{
    if items.len() == 0 {
        true
    } else {
        &&& spec_get(items[0], "tx"@) is Str
        &&& insc_by_tx(inscs, spec_get(items[0], "tx"@)->Str_0) is Some
        &&& items_resolve(inscs, items.drop_first())
    }
}

/// Whether a deploy inscription's items can all be persisted against `inscs`.
pub open spec fn deploy_resolvable(inscs: Seq<InscriptionV>, insc: InscriptionV) -> bool {
    &&& spec_get(insc.json, "items"@) is Arr
    &&& items_resolve(inscs, spec_get(insc.json, "items"@)->Arr_0)
}

/// A deploy that validates can be persisted.
pub proof fn lemma_valid_resolvable(store: StoreV, insc: InscriptionV)
    requires
        collection_valid(store, insc),
    ensures
        deploy_resolvable(store.inscriptions, insc),
{
    lemma_items_valid_resolve(store, insc.from, spec_get(insc.json, "items"@)->Arr_0);
}

proof fn lemma_items_valid_resolve(store: StoreV, from: Seq<char>, items: Seq<JsonV>)
    requires
        items_valid(store, from, items),
    ensures
        items_resolve(store.inscriptions, items),
    decreases items.len(),
{
    if items.len() > 0 {
        lemma_items_valid_resolve(store, from, items.drop_first());
    }
}

/// The membership writes of one deploy: each item's target, resolved by its
/// `tx`, is bound to the deploying transaction hash, in item order.
pub open spec fn set_members(
    mem: Seq<(u64, Seq<char>)>,
    inscs: Seq<InscriptionV>,
    items: Seq<JsonV>,
    ctx_tx: Seq<char>,
) -> Seq<(u64, Seq<char>)>
    decreases items.len(),
{
    if items.len() == 0 {
        mem
    } else {
        let id = insc_by_tx(inscs, spec_get(items[0], "tx"@)->Str_0)->Some_0.id;
        set_members(assoc_u64_set(mem, id, ctx_tx), inscs, items.drop_first(), ctx_tx)
    }
}

/// The store after persisting one deploy: its record joins the collection
/// table and every item gains the back-reference.
pub open spec fn save_one_collection(s: StoreV, insc: InscriptionV) -> StoreV {
    StoreV {
        collections: s.collections.push(insc),
        memberships: set_members(
            s.memberships,
            s.inscriptions,
            spec_get(insc.json, "items"@)->Arr_0,
            insc.tx_hash,
        ),
        ..s
    }
}

/// The store after persisting, in batch order, every successful Json
/// inscription's collection record.
pub open spec fn save_collections(s: StoreV, inscs: Seq<InscriptionV>) -> StoreV
    decreases inscs.len(),
{
    if inscs.len() == 0 {
        s
    } else {
        let s1 = if inscs[0].verified is Successful && inscs[0].mime_category is Json {
            save_one_collection(s, inscs[0])
        } else {
            s
        };
        save_collections(s1, inscs.drop_first())
    }
}

impl<'a> InscribeContext<'a> {
    /// The collection deploy validator (§ Json operation `deploy`).
    pub fn execute_app_collection(&self, store: &Store, insc: &Inscription) -> (r: bool)
        ensures
            r == collection_valid(store@, insc@),
    {
        let oper = match insc.json.get_str("op") {
            Some(s) => s,
            None => {
                return false;
            },
        };
        if !str_eq(oper.as_str(), "deploy") {
            return false;
        }
        let items = match insc.json.get_arr("items") {
            Some(a) => a,
            None => {
                return false;
            },
        };
        if !insc.json.key_is_string("name") {
            return false;
        }
        if !insc.json.key_is_string("description") {
            return false;
        }
        if !insc.json.key_is_string("url") {
            return false;
        }
        if !insc.json.key_is_string("image") {
            return false;
        }
        if !insc.json.key_is_string("icon") {
            return false;
        }
        let ghost gitems = items.deep_view();
        proof {
            assert(gitems.skip(0) =~= gitems);
        }
        let mut k: usize = 0;
        while k < items.len()
            invariant
                gitems == items.deep_view(),
                gitems.len() == items@.len(),
                0 <= k <= gitems.len(),
                collection_valid(store@, insc@) == items_valid(
                    store@,
                    insc@.from,
                    gitems.skip(k as int),
                ),
            decreases gitems.len() - k,
        {
            proof {
                assert(gitems.skip(k as int)[0] == gitems[k as int]);
                assert(gitems.skip(k as int).drop_first() =~= gitems.skip(k as int + 1));
            }
            let item = &items[k];
            if !item.is_object() {
                return false;
            }
            let item_tx = match item.get_str("tx") {
                Some(s) => s,
                None => {
                    return false;
                },
            };
            let target = match store.get_inscription_by_tx(item_tx.as_str()) {
                Some(t) => t,
                None => {
                    return false;
                },
            };
            if self.get_nft_collection(store, target.id).is_some() {
                return false;
            }
            match store.get_inscription_nft_holder_by_id(target.id) {
                Some(h) => {
                    if !str_eq(h.as_str(), insc.from.as_str()) {
                        return false;
                    }
                },
                None => {
                    return false;
                },
            }
            k += 1;
        }
        proof {
            assert(gitems.skip(k as int) =~= Seq::<JsonV>::empty());
        }
        true
    }

    /// The persisted collection a validation sees for this inscription id.
    pub fn get_nft_collection(&self, store: &Store, nft_id: u64) -> (r: Option<String>)
        ensures
            r.deep_view() == assoc_u64(store@.memberships, nft_id),
    {
        store.get_inscription_nft_collection_by_id(nft_id)
    }

    /// Persists one successful deploy: the collection record, then every
    /// item's back-reference, in item order.
    pub fn save_inscribe_collection(&self, store: &mut Store, insc: &Inscription)
        requires
            deploy_resolvable(old(store)@.inscriptions, insc@),
        ensures
            final(store)@ == save_one_collection(old(store)@, insc@),
    {
        store.inscription_nft_collection_insert(insc);
        let ghost s1 = store@;
        let items = match insc.json.get_arr("items") {
            Some(a) => a,
            None => {
                proof {
                    assert(false);
                }
                return ;
            },
        };
        let ghost gitems = items.deep_view();
        proof {
            assert(gitems.skip(0) =~= gitems);
        }
        let mut k: usize = 0;
        while k < items.len()
            invariant
                gitems == items.deep_view(),
                gitems.len() == items@.len(),
                0 <= k <= gitems.len(),
                store@.inscriptions == s1.inscriptions,
                items_resolve(store@.inscriptions, gitems.skip(k as int)),
                set_members(s1.memberships, s1.inscriptions, gitems, insc@.tx_hash) == set_members(
                    store@.memberships,
                    s1.inscriptions,
                    gitems.skip(k as int),
                    insc@.tx_hash,
                ),
                store@ == (StoreV { memberships: store@.memberships, ..s1 }),
            decreases gitems.len() - k,
        {
            proof {
                assert(gitems.skip(k as int)[0] == gitems[k as int]);
                assert(gitems.skip(k as int).drop_first() =~= gitems.skip(k as int + 1));
            }
            let item = &items[k];
            let item_tx = match item.get_str("tx") {
                Some(s) => s,
                None => {
                    proof {
                        assert(false);
                    }
                    return ;
                },
            };
            let target = match store.get_inscription_by_tx(item_tx.as_str()) {
                Some(t) => t,
                None => {
                    proof {
                        assert(false);
                    }
                    return ;
                },
            };
            store.inscription_nft_set_collection(target.id, &insc.tx_hash);
            k += 1;
        }
        proof {
            assert(gitems.skip(k as int) =~= Seq::<JsonV>::empty());
            assert(store@ =~= save_one_collection(old(store)@, insc@));
        }
    }
}

} // verus!
