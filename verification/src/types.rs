use vstd::prelude::*;
use crate::json::JsonV;
use crate::json::JsonValue;
use crate::json::jv;
use crate::json::str_eq;

verus! {

/// Character count of one transaction-hash reference inside a transfer
/// payload; references are packed back to back with no separator.
pub const TRANSFER_TX_HEX_LENGTH: usize = 66;

/// Coarse content classification of an inscription; selects the validator.
#[derive(Clone, Copy, PartialEq, Eq, Structural, Debug)]
pub enum MimeCategory {
    Text,
    Image,
    Json,
    Transfer,
    Invoke,
    Other,
}

/// Terminal verification status, set exactly once by the indexer.
#[derive(Clone, Copy, PartialEq, Eq, Structural, Debug)]
pub enum VerifiedStatus {
    Pending,
    Successful,
    Failed,
}

/// One protocol-level record embedded in a chain transaction. Ids are
/// assigned by the ingestion pipeline, globally and strictly increasing;
/// this core sets only `verified` and `signature`, exactly once.
pub struct Inscription {
    pub id: u64,
    pub tx_hash: String,
    pub blocknumber: u64,
    pub from: String,
    pub to: String,
    pub mime_category: MimeCategory,
    pub mime_data: String,
    pub json: JsonValue,
    pub signature: Option<String>,
    pub verified: VerifiedStatus,
}

/// Mathematical mirror of `Inscription`.
#[verifier::ext_equal]
pub struct InscriptionV {
    pub id: u64,
    pub tx_hash: Seq<char>,
    pub blocknumber: u64,
    pub from: Seq<char>,
    pub to: Seq<char>,
    pub mime_category: MimeCategory,
    pub mime_data: Seq<char>,
    pub json: JsonV,
    pub signature: Option<Seq<char>>,
    pub verified: VerifiedStatus,
}

impl View for Inscription {
    type V = InscriptionV;

    open spec fn view(&self) -> InscriptionV {
        InscriptionV {
            id: self.id,
            tx_hash: self.tx_hash@,
            blocknumber: self.blocknumber,
            from: self.from@,
            to: self.to@,
            mime_category: self.mime_category,
            mime_data: self.mime_data@,
            json: jv(self.json),
            signature: self.signature.deep_view(),
            verified: self.verified,
        }
    }
}

impl DeepView for Inscription {
    type V = InscriptionV;

    open spec fn deep_view(&self) -> InscriptionV {
        self.view()
    }
}

impl Inscription {
    /// A copy with the same abstraction.
    pub fn duplicate(&self) -> (r: Inscription)
        ensures
            r@ == self@,
    {
        Inscription {
            id: self.id,
            tx_hash: self.tx_hash.clone(),
            blocknumber: self.blocknumber,
            from: self.from.clone(),
            to: self.to.clone(),
            mime_category: self.mime_category,
            mime_data: self.mime_data.clone(),
            json: self.json.duplicate(),
            signature: match &self.signature {
                Some(s) => Some(s.clone()),
                None => None,
            },
            verified: self.verified,
        }
    }
}

/// Fungible-token state cached per block and written back once if touched.
pub struct Token {
    pub tick: String,
    pub deploy: bool,
    pub holders: u64,
    pub updated: bool,
}

/// Mathematical mirror of `Token`.
#[verifier::ext_equal]
pub struct TokenV {
    pub tick: Seq<char>,
    pub deploy: bool,
    pub holders: u64,
    pub updated: bool,
}

impl View for Token {
    type V = TokenV;

    open spec fn view(&self) -> TokenV {
        TokenV { tick: self.tick@, deploy: self.deploy, holders: self.holders, updated: self.updated }
    }
}

impl DeepView for Token {
    type V = TokenV;

    open spec fn deep_view(&self) -> TokenV {
        self.view()
    }
}

impl Token {
    /// A copy with the same abstraction.
    pub fn duplicate(&self) -> (r: Token)
        ensures
            r@ == self@,
    {
        Token { tick: self.tick.clone(), deploy: self.deploy, holders: self.holders, updated: self.updated }
    }
}

/// The filter definition as configuration hands it over.
pub struct InscribeFilterConfig {
    pub tx_filter: Vec<String>,
    pub block_filter: Vec<u64>,
    pub mint_pass_tx: Vec<String>,
}

/// Process-wide allow/deny policy, read-only after construction: denied
/// transaction hashes, denied block numbers, and a pass-list of privileged
/// mint transactions kept as data for the token-operation handler.
pub struct InscribeFilter {
    pub tx_filter: Vec<String>,
    pub block_filter: Vec<u64>,
    pub mint_pass_tx: Vec<String>,
}

pub(crate) fn vec_contains_str(v: &Vec<String>, x: &str) -> (r: bool)
    ensures
        r == v.deep_view().contains(x@),
{
    let mut i: usize = 0;
    while i < v.len()
        invariant
            0 <= i <= v@.len(),
            forall|j: int| 0 <= j < i ==> v.deep_view()[j] != x@,
        decreases v@.len() - i,
    {
        if str_eq(v[i].as_str(), x) {
            proof {
                assert(v.deep_view()[i as int] == x@);
            }
            return true;
        }
        i += 1;
    }
    proof {
        assert(forall|j: int| 0 <= j < v.deep_view().len() ==> v.deep_view()[j] != x@);
    }
    false
}

fn vec_contains_u64(v: &Vec<u64>, x: u64) -> (r: bool)
    ensures
        r == v@.contains(x),
{
    let mut i: usize = 0;
    while i < v.len()
        invariant
            0 <= i <= v@.len(),
            forall|j: int| 0 <= j < i ==> v@[j] != x,
        decreases v@.len() - i,
    {
        if v[i] == x {
            return true;
        }
        i += 1;
    }
    false
}

impl InscribeFilter {
    /// Whether the filter denies an inscription with this transaction hash or
    /// block number.
    pub open spec fn spec_should_reject(&self, tx_hash: Seq<char>, blocknumber: u64) -> bool {
        self.tx_filter.deep_view().contains(tx_hash) || self.block_filter@.contains(blocknumber)
    }

    /// Builds the read-only policy from its configuration.
    pub fn new(config: InscribeFilterConfig) -> (r: InscribeFilter)
        ensures
            r.tx_filter == config.tx_filter,
            r.block_filter == config.block_filter,
            r.mint_pass_tx == config.mint_pass_tx,
    {
        InscribeFilter {
            tx_filter: config.tx_filter,
            block_filter: config.block_filter,
            mint_pass_tx: config.mint_pass_tx,
        }
    }

    /// The static deny policy applied before any validator runs.
    pub fn should_reject(&self, tx_hash: &String, blocknumber: u64) -> (r: bool)
        ensures
            r == self.spec_should_reject(tx_hash@, blocknumber),
    {
        vec_contains_str(&self.tx_filter, tx_hash.as_str()) || vec_contains_u64(
            &self.block_filter,
            blocknumber,
        )
    }
}

} // verus!
