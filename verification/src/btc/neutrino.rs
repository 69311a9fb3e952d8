//! Decisions of the compact-block-filter (BIP-157) chain sync: which height
//! the sync view shows after a header-chain change, which blocks are kept,
//! how a failed block download is retried, and which outputs of a matched
//! block belong to the wallet.
use vstd::prelude::*;

use crate::btc::address::DerivePath;
use crate::chain::btc::utxo::{BlockHeader, TxOut};

verus! {

/// Whether the chain sync is still running or has reached the tip.
#[derive(Debug, Clone, Copy, PartialEq, Eq, Structural)]
pub enum HeightUpdateStatus {
    Progress,
    Completed,
}

/// How the node's header chain changed.
pub enum HeaderChanges {
    /// A header was connected at the tip, at this height.
    Connected { height: u32 },
    /// A reorganization; the heights of the accepted headers, in chain order.
    Reorganized { accepted: Vec<u32> },
    /// A fork was recorded without changing the tip.
    ForkAdded,
}

/// The height the sync view moves to after a header-chain change: the
/// connected header's, the last accepted header's after a reorganization
/// (none when none was accepted), none for a recorded fork.
pub open spec fn height_after(changes: HeaderChanges) -> Option<u32> {
    match changes {
        HeaderChanges::Connected { height } => Some(height),
        HeaderChanges::Reorganized { accepted } => if accepted@.len() == 0 {
            None
        } else {
            Some(accepted@.last())
        },
        HeaderChanges::ForkAdded => None,
    }
}

/// The height the sync view moves to after a header-chain change.
pub fn updated_height(changes: &HeaderChanges) -> (height: Option<u32>)
    ensures
        height == height_after(*changes),
{
    match changes {
        HeaderChanges::Connected { height } => Some(*height),
        HeaderChanges::Reorganized { accepted } => {
            if accepted.len() == 0 {
                None
            } else {
                Some(accepted[accepted.len() - 1])
            }
        },
        HeaderChanges::ForkAdded => None,
    }
}

/// What the sync view is told: the chain height and whether the sync is
/// done.
#[derive(Debug, Clone, Copy, PartialEq, Eq, Structural)]
pub struct SyncHeightUpdateEvent {
    pub status: HeightUpdateStatus,
    pub height: u32,
}

/// The event a header-chain change emits: sync in progress at the new
/// height, when the view moves.
pub fn chain_update_event(changes: &HeaderChanges) -> (event: Option<SyncHeightUpdateEvent>)
    ensures
        event == match height_after(*changes) {
            Some(h) => Some(SyncHeightUpdateEvent { status: HeightUpdateStatus::Progress, height: h }),
            None => None,
        },
{
    match updated_height(changes) {
        Some(height) => Some(SyncHeightUpdateEvent { status: HeightUpdateStatus::Progress, height }),
        None => None,
    }
}

/// The event of a finished filter sync: completed at the tip's height.
pub fn filters_synced_event(tip_height: u32) -> (event: SyncHeightUpdateEvent)
    ensures
        event == (SyncHeightUpdateEvent { status: HeightUpdateStatus::Completed, height: tip_height }),
{
    SyncHeightUpdateEvent { status: HeightUpdateStatus::Completed, height: tip_height }
}

/// Only a connected header is stored; a reorganization or a fork only moves
/// the view.
pub fn stores_header(changes: &HeaderChanges) -> (stored: bool)
    ensures
        stored == changes is Connected,
{
    match changes {
        HeaderChanges::Connected { .. } => true,
        _ => false,
    }
}

/// A block header or filter is kept when the wallet has no birth date, or
/// the block's time is not before it.
pub fn should_persist(wallet_birth_date: Option<u64>, block_time: u32) -> (keep: bool)
    ensures
        keep == match wallet_birth_date {
            Some(birth) => block_time >= birth,
            None => true,
        },
{
    match wallet_birth_date {
        Some(birth) => block_time as u64 >= birth,
        None => true,
    }
}

/// How many times a block download is attempted.
pub const MAX_RETRIES: u32 = 3;

/// What a block download does after a failed attempt.
#[derive(Debug, Clone, Copy, PartialEq, Eq, Structural)]
pub enum RetryStep {
    /// Wait this many seconds, then try again.
    Wait(u64),
    /// Stop: every attempt failed.
    GiveUp,
}

/// After attempt `attempt` (counted from 1) failed: wait two seconds per
/// attempt made and try again, or give up after the last attempt.
pub fn after_failed_attempt(attempt: u32) -> (step: RetryStep)
    requires
        1 <= attempt <= MAX_RETRIES,
    ensures
        attempt < MAX_RETRIES ==> step == RetryStep::Wait((2 * attempt) as u64),
        attempt == MAX_RETRIES ==> step == RetryStep::GiveUp,
{
    if attempt < MAX_RETRIES {
        RetryStep::Wait(2 * attempt as u64)
    } else {
        RetryStep::GiveUp
    }
}

/// Which wallet, if any, the chain-sync node runs for.
pub struct LifecycleState {
    pub running_for_wallet: Option<String>,
}

/// What a request to start the node for a wallet does.
#[derive(Debug, Clone, Copy, PartialEq, Eq, Structural)]
pub enum NodeStart {
    /// The node already runs for that wallet: nothing to do.
    AlreadyRunning,
    /// Start a node for the wallet, after stopping the one running for
    /// another wallet when `stop_previous`.
    Start { stop_previous: bool },
}

impl LifecycleState {
    /// No node is running.
    pub fn new() -> (state: Self)
        ensures
            state.running_for_wallet is None,
    {
        LifecycleState { running_for_wallet: None }
    }

    /// The node runs for the named wallet.
    pub fn is_running_for(&self, wallet_name: &str) -> (running: bool)
        ensures
            running == (self.running_for_wallet matches Some(w) && w@ == wallet_name@),
    {
        match &self.running_for_wallet {
            Some(w) => {
                let name = wallet_name.to_owned();
                *w == name
            },
            None => false,
        }
    }

    /// A request to start the node for a wallet: nothing when it already
    /// runs for that wallet; otherwise the node of any other wallet is
    /// stopped and one is started for this wallet, which it then runs for.
    pub fn request_node_start(&mut self, wallet_name: String) -> (action: NodeStart)
        ensures
            (old(self).running_for_wallet matches Some(w) && w@ == wallet_name@) ==> (action
                == NodeStart::AlreadyRunning && final(self).running_for_wallet == old(
                self,
            ).running_for_wallet),
            !(old(self).running_for_wallet matches Some(w) && w@ == wallet_name@) ==> (action
                == (NodeStart::Start { stop_previous: old(self).running_for_wallet is Some })
                && (final(self).running_for_wallet matches Some(n) && n@ == wallet_name@)),
    {
        if self.is_running_for(wallet_name.as_str()) {
            return NodeStart::AlreadyRunning;
        }
        let stop_previous = self.running_for_wallet.is_some();
        self.running_for_wallet = Some(wallet_name);
        NodeStart::Start { stop_previous }
    }
}

/// A script the wallet watches for, and the path of the key it pays to.
pub struct ScriptOfInterest {
    pub script: Vec<u8>,
    pub derive_path: DerivePath,
}

/// A transaction of a downloaded block: its witness id and its outputs.
pub struct BlockTx {
    pub wtxid: [u8; 32],
    pub outputs: Vec<TxOut>,
}

/// An output of a downloaded block that pays to a watched script.
pub struct ScannedUtxo {
    pub tx_id: [u8; 32],
    pub output: TxOut,
    pub vout: usize,
    pub derive_path: DerivePath,
    pub block: BlockHeader,
}

/// A scanned output as plain values: transaction id, output number, value,
/// script, path, block hash and block height.
pub open spec fn scanned_view(u: ScannedUtxo) -> (Seq<u8>, int, u64, Seq<u8>, DerivePath, Seq<u8>, u32) {
    (u.tx_id@, u.vout as int, u.output.value, u.output.script_pubkey@, u.derive_path, u.block.hash@, u.block.height)
}

/// The watched scripts with their paths; a later entry for the same script
/// replaces an earlier one.
pub open spec fn scripts_map(entries: Seq<ScriptOfInterest>) -> Map<Seq<u8>, DerivePath>
    decreases entries.len(),
{
    if entries.len() == 0 {
        Map::empty()
    } else {
        scripts_map(entries.drop_last()).insert(entries.last().script@, entries.last().derive_path)
    }
}

/// What scanning a transaction's outputs finds: in output order, each output
/// whose script is watched, with that script's path.
pub open spec fn tx_finds(
    wtxid: Seq<u8>,
    outputs: Seq<TxOut>,
    scripts: Map<Seq<u8>, DerivePath>,
    hash: Seq<u8>,
    height: u32,
) -> Seq<(Seq<u8>, int, u64, Seq<u8>, DerivePath, Seq<u8>, u32)>
    decreases outputs.len(),
{
    if outputs.len() == 0 {
        Seq::empty()
    } else {
        let found = tx_finds(wtxid, outputs.drop_last(), scripts, hash, height);
        let o = outputs.last();
        if scripts.contains_key(o.script_pubkey@) {
            found.push(
                (
                    wtxid,
                    outputs.len() - 1,
                    o.value,
                    o.script_pubkey@,
                    scripts[o.script_pubkey@],
                    hash,
                    height,
                ),
            )
        } else {
            found
        }
    }
}

/// What scanning a block finds: the finds of its transactions, in block order.
pub open spec fn block_finds(
    txs: Seq<BlockTx>,
    scripts: Map<Seq<u8>, DerivePath>,
    hash: Seq<u8>,
    height: u32,
) -> Seq<(Seq<u8>, int, u64, Seq<u8>, DerivePath, Seq<u8>, u32)>
    decreases txs.len(),
{
    if txs.len() == 0 {
        Seq::empty()
    } else {
        block_finds(txs.drop_last(), scripts, hash, height) + tx_finds(
            txs.last().wtxid@,
            txs.last().outputs@,
            scripts,
            hash,
            height,
        )
    }
}

/// Every output a transaction's scan finds pays to a watched script and
/// carries that script's path and the transaction's id.
proof fn lemma_tx_finds_watched(
    wtxid: Seq<u8>,
    outputs: Seq<TxOut>,
    scripts: Map<Seq<u8>, DerivePath>,
    hash: Seq<u8>,
    height: u32,
)
    ensures
        forall|k: int|
            0 <= k < tx_finds(wtxid, outputs, scripts, hash, height).len() ==> {
                let f = #[trigger] tx_finds(wtxid, outputs, scripts, hash, height)[k];
                &&& scripts.contains_key(f.3)
                &&& f.4 == scripts[f.3]
                &&& f.0 == wtxid
                &&& f.5 == hash
                &&& f.6 == height
            },
    decreases outputs.len(),
{
    if outputs.len() > 0 {
        lemma_tx_finds_watched(wtxid, outputs.drop_last(), scripts, hash, height);
        let prev = tx_finds(wtxid, outputs.drop_last(), scripts, hash, height);
        let all = tx_finds(wtxid, outputs, scripts, hash, height);
        assert forall|k: int| 0 <= k < all.len() implies {
            let f = #[trigger] all[k];
            &&& scripts.contains_key(f.3)
            &&& f.4 == scripts[f.3]
            &&& f.0 == wtxid
            &&& f.5 == hash
            &&& f.6 == height
        } by {
            if k < prev.len() {
                assert(all[k] == prev[k]);
            }
        }
    }
}

/// The scanner reports only outputs to watched scripts: every output found
/// in a block pays to a script the scanner watches, with that script's path,
/// and carries the block's hash and height.
pub proof fn lemma_block_finds_watched(
    txs: Seq<BlockTx>,
    scripts: Map<Seq<u8>, DerivePath>,
    hash: Seq<u8>,
    height: u32,
)
    ensures
        forall|k: int|
            0 <= k < block_finds(txs, scripts, hash, height).len() ==> {
                let f = #[trigger] block_finds(txs, scripts, hash, height)[k];
                &&& scripts.contains_key(f.3)
                &&& f.4 == scripts[f.3]
                &&& f.5 == hash
                &&& f.6 == height
            },
    decreases txs.len(),
{
    if txs.len() > 0 {
        lemma_block_finds_watched(txs.drop_last(), scripts, hash, height);
        lemma_tx_finds_watched(txs.last().wtxid@, txs.last().outputs@, scripts, hash, height);
        let a = block_finds(txs.drop_last(), scripts, hash, height);
        let b = tx_finds(txs.last().wtxid@, txs.last().outputs@, scripts, hash, height);
        assert forall|k: int| 0 <= k < (a + b).len() implies {
            let f = #[trigger] (a + b)[k];
            &&& scripts.contains_key(f.3)
            &&& f.4 == scripts[f.3]
            &&& f.5 == hash
            &&& f.6 == height
        } by {
            if k < a.len() {
                assert((a + b)[k] == a[k]);
            } else {
                assert((a + b)[k] == b[k - a.len()]);
            }
        }
    }
}

/// Scanning a transaction misses none of its outputs to watched scripts:
/// each of them is found, with the transaction's id, its output number, its
/// value and its script.
proof fn lemma_tx_finds_complete(
    wtxid: Seq<u8>,
    outputs: Seq<TxOut>,
    scripts: Map<Seq<u8>, DerivePath>,
    hash: Seq<u8>,
    height: u32,
)
    ensures
        forall|v: int|
            0 <= v < outputs.len() && scripts.contains_key(#[trigger] outputs[v].script_pubkey@) ==> exists|k: int|
                0 <= k < tx_finds(wtxid, outputs, scripts, hash, height).len() && {
                    let f = #[trigger] tx_finds(wtxid, outputs, scripts, hash, height)[k];
                    &&& f.0 == wtxid
                    &&& f.1 == v
                    &&& f.2 == outputs[v].value
                    &&& f.3 == outputs[v].script_pubkey@
                },
    decreases outputs.len(),
{
    if outputs.len() > 0 {
        let shorter = outputs.drop_last();
        lemma_tx_finds_complete(wtxid, shorter, scripts, hash, height);
        let prev = tx_finds(wtxid, shorter, scripts, hash, height);
        let all = tx_finds(wtxid, outputs, scripts, hash, height);
        assert forall|v: int|
            0 <= v < outputs.len() && scripts.contains_key(#[trigger] outputs[v].script_pubkey@) implies exists|k: int|
                0 <= k < all.len() && {
                    let f = #[trigger] all[k];
                    &&& f.0 == wtxid
                    &&& f.1 == v
                    &&& f.2 == outputs[v].value
                    &&& f.3 == outputs[v].script_pubkey@
                } by {
            if v == outputs.len() - 1 {
                assert(all[prev.len() as int].1 == v);
            } else {
                assert(shorter[v] == outputs[v]);
                assert(scripts.contains_key(shorter[v].script_pubkey@));
                let k = choose|k: int|
                    0 <= k < prev.len() && {
                        let f = #[trigger] prev[k];
                        &&& f.0 == wtxid
                        &&& f.1 == v
                        &&& f.2 == shorter[v].value
                        &&& f.3 == shorter[v].script_pubkey@
                    };
                assert(all[k] == prev[k]);
            }
        }
    }
}

/// Scanning a transaction reports each output at most once and in output
/// order: every find names an output of the transaction by its number, with
/// that output's value and script, and the numbers strictly increase.
pub proof fn lemma_tx_finds_in_output_order(
    wtxid: Seq<u8>,
    outputs: Seq<TxOut>,
    scripts: Map<Seq<u8>, DerivePath>,
    hash: Seq<u8>,
    height: u32,
)
    ensures
        tx_finds(wtxid, outputs, scripts, hash, height).len() <= outputs.len(),
        forall|k: int|
            0 <= k < tx_finds(wtxid, outputs, scripts, hash, height).len() ==> {
                let f = #[trigger] tx_finds(wtxid, outputs, scripts, hash, height)[k];
                &&& 0 <= f.1 < outputs.len()
                &&& f.2 == outputs[f.1].value
                &&& f.3 == outputs[f.1].script_pubkey@
            },
        forall|a: int, b: int|
            0 <= a < b < tx_finds(wtxid, outputs, scripts, hash, height).len() ==> (#[trigger] tx_finds(
                wtxid,
                outputs,
                scripts,
                hash,
                height,
            )[a]).1 < (#[trigger] tx_finds(wtxid, outputs, scripts, hash, height)[b]).1,
    decreases outputs.len(),
{
    if outputs.len() > 0 {
        let shorter = outputs.drop_last();
        lemma_tx_finds_in_output_order(wtxid, shorter, scripts, hash, height);
        let prev = tx_finds(wtxid, shorter, scripts, hash, height);
        let all = tx_finds(wtxid, outputs, scripts, hash, height);
        assert forall|k: int| 0 <= k < all.len() implies {
            let f = #[trigger] all[k];
            &&& 0 <= f.1 < outputs.len()
            &&& f.2 == outputs[f.1].value
            &&& f.3 == outputs[f.1].script_pubkey@
        } by {
            if k < prev.len() {
                assert(all[k] == prev[k]);
                assert(shorter[prev[k].1] == outputs[prev[k].1]);
            }
        }
        assert forall|a: int, b: int| 0 <= a < b < all.len() implies (#[trigger] all[a]).1 < (#[trigger] all[b]).1 by {
            assert(all[a] == prev[a]);
            if b < prev.len() {
                assert(all[b] == prev[b]);
            }
        }
    }
}

/// The scanner misses none of the wallet's outputs in a block: for every
/// transaction of the block and every output of it that pays to a watched
/// script, some found output carries that transaction's id, that output's
/// number, value and script, the script's path, and the block's hash and
/// height.
pub proof fn lemma_block_finds_complete(
    txs: Seq<BlockTx>,
    scripts: Map<Seq<u8>, DerivePath>,
    hash: Seq<u8>,
    height: u32,
)
    ensures
        forall|t: int, v: int|
            0 <= t < txs.len() && 0 <= v < txs[t].outputs@.len() && scripts.contains_key(
                #[trigger] txs[t].outputs@[v].script_pubkey@,
            ) ==> exists|k: int|
                0 <= k < block_finds(txs, scripts, hash, height).len() && {
                    let f = #[trigger] block_finds(txs, scripts, hash, height)[k];
                    &&& f.0 == txs[t].wtxid@
                    &&& f.1 == v
                    &&& f.2 == txs[t].outputs@[v].value
                    &&& f.3 == txs[t].outputs@[v].script_pubkey@
                    &&& f.4 == scripts[f.3]
                    &&& f.5 == hash
                    &&& f.6 == height
                },
    decreases txs.len(),
{
    lemma_block_finds_watched(txs, scripts, hash, height);
    if txs.len() > 0 {
        let shorter = txs.drop_last();
        lemma_block_finds_complete(shorter, scripts, hash, height);
        let last = txs.last();
        lemma_tx_finds_complete(last.wtxid@, last.outputs@, scripts, hash, height);
        let a = block_finds(shorter, scripts, hash, height);
        let b = tx_finds(last.wtxid@, last.outputs@, scripts, hash, height);
        let all = block_finds(txs, scripts, hash, height);
        assert(all == a + b);
        assert forall|t: int, v: int|
            0 <= t < txs.len() && 0 <= v < txs[t].outputs@.len() && scripts.contains_key(
                #[trigger] txs[t].outputs@[v].script_pubkey@,
            ) implies exists|k: int|
                0 <= k < all.len() && {
                    let f = #[trigger] all[k];
                    &&& f.0 == txs[t].wtxid@
                    &&& f.1 == v
                    &&& f.2 == txs[t].outputs@[v].value
                    &&& f.3 == txs[t].outputs@[v].script_pubkey@
                    &&& f.4 == scripts[f.3]
                    &&& f.5 == hash
                    &&& f.6 == height
                } by {
            if t == txs.len() - 1 {
                assert(last.outputs@[v] == txs[t].outputs@[v]);
                let k = choose|k: int|
                    0 <= k < b.len() && {
                        let f = #[trigger] b[k];
                        &&& f.0 == last.wtxid@
                        &&& f.1 == v
                        &&& f.2 == last.outputs@[v].value
                        &&& f.3 == last.outputs@[v].script_pubkey@
                    };
                assert(all[a.len() + k] == b[k]);
                assert(0 <= a.len() + k < all.len());
            } else {
                assert(shorter[t] == txs[t]);
                assert(scripts.contains_key(shorter[t].outputs@[v].script_pubkey@));
                let k = choose|k: int|
                    0 <= k < a.len() && {
                        let f = #[trigger] a[k];
                        &&& f.0 == shorter[t].wtxid@
                        &&& f.1 == v
                        &&& f.2 == shorter[t].outputs@[v].value
                        &&& f.3 == shorter[t].outputs@[v].script_pubkey@
                        &&& f.4 == scripts[f.3]
                        &&& f.5 == hash
                        &&& f.6 == height
                    };
                assert(all[k] == a[k]);
            }
        }
    }
}

/// Finds the wallet's outputs in blocks whose filters matched a watched
/// script.
pub struct CompactFilterScanner {
    pub scripts_of_interest: Vec<ScriptOfInterest>,
}

impl CompactFilterScanner {
    /// A scanner that watches no script yet.
    pub fn new() -> (scanner: Self)
        ensures
            scanner.scripts_of_interest@.len() == 0,
    {
        CompactFilterScanner { scripts_of_interest: Vec::new() }
    }

    /// Watches a script, paying to the key of the given path; a script
    /// watched already now maps to this path.
    pub fn add_script(&mut self, s: ScriptOfInterest)
        ensures
            scripts_map(final(self).scripts_of_interest@) == scripts_map(
                old(self).scripts_of_interest@,
            ).insert(s.script@, s.derive_path),
    {
        self.scripts_of_interest.push(s);
        proof {
            assert(self.scripts_of_interest@.drop_last() =~= old(self).scripts_of_interest@);
        }
    }

    /// The path a script is watched with, if it is watched.
    fn lookup(&self, script: &Vec<u8>) -> (path: Option<DerivePath>)
        ensures
            path == (if scripts_map(self.scripts_of_interest@).contains_key(script@) {
                Some(scripts_map(self.scripts_of_interest@)[script@])
            } else {
                None
            }),
    {
        let ghost all = self.scripts_of_interest@;
        let mut j: usize = self.scripts_of_interest.len();
        proof {
            assert(all.take(j as int) =~= all);
        }
        while j > 0
            invariant
                j <= all.len(),
                all == self.scripts_of_interest@,
                forall|k: int|
                    j <= k < all.len() ==> (#[trigger] all[k]).script@ != script@,
                scripts_map(all).contains_key(script@) == scripts_map(all.take(j as int)).contains_key(
                    script@,
                ),
                scripts_map(all).contains_key(script@) ==> scripts_map(all)[script@] == scripts_map(
                    all.take(j as int),
                )[script@],
            decreases j,
        {
            let entry = &self.scripts_of_interest[j - 1];
            proof {
                assert(all.take(j as int).drop_last() =~= all.take(j - 1));
                assert(all.take(j as int).last() == all[j - 1]);
            }
            if bytes_eq(&entry.script, script) {
                return Some(entry.derive_path);
            }
            j = j - 1;
        }
        proof {
            assert(all.take(0) =~= Seq::<ScriptOfInterest>::empty());
        }
        None
    }

    /// The outputs of a downloaded block that pay to watched scripts, in
    /// block order, each with its transaction's witness id, its output
    /// number, the path of the watched script, and the block's hash and
    /// height.
    pub fn extract_utxos_from_block(&self, txs: &Vec<BlockTx>, block: &BlockHeader) -> (utxos: Vec<
        ScannedUtxo,
    >)
        ensures
            utxos@.map_values(|u: ScannedUtxo| scanned_view(u)) == block_finds(
                txs@,
                scripts_map(self.scripts_of_interest@),
                block.hash@,
                block.height,
            ),
    {
        let ghost scripts = scripts_map(self.scripts_of_interest@);
        let mut utxos: Vec<ScannedUtxo> = Vec::new();
        let mut i: usize = 0;
        while i < txs.len()
            invariant
                i <= txs@.len(),
                scripts == scripts_map(self.scripts_of_interest@),
                utxos@.map_values(|u: ScannedUtxo| scanned_view(u)) == block_finds(
                    txs@.take(i as int),
                    scripts,
                    block.hash@,
                    block.height,
                ),
            decreases txs@.len() - i,
        {
            let tx = &txs[i];
            let ghost before = utxos@.map_values(|u: ScannedUtxo| scanned_view(u));
            proof {
                assert(txs@.take(i + 1).drop_last() =~= txs@.take(i as int));
                assert(txs@.take(i + 1).last() == txs@[i as int]);
            }
            let mut v: usize = 0;
            while v < tx.outputs.len()
                invariant
                    v <= tx.outputs@.len(),
                    scripts == scripts_map(self.scripts_of_interest@),
                    utxos@.map_values(|u: ScannedUtxo| scanned_view(u)) == before + tx_finds(
                        tx.wtxid@,
                        tx.outputs@.take(v as int),
                        scripts,
                        block.hash@,
                        block.height,
                    ),
                decreases tx.outputs@.len() - v,
            {
                let out = &tx.outputs[v];
                proof {
                    assert(tx.outputs@.take(v + 1).drop_last() =~= tx.outputs@.take(v as int));
                    assert(tx.outputs@.take(v + 1).last() == tx.outputs@[v as int]);
                }
                let ghost prev = utxos@;
                match self.lookup(&out.script_pubkey) {
                    Some(path) => {
                        let script = out.script_pubkey.clone();
                        proof {
                            assert(script@ =~= out.script_pubkey@);
                        }
                        let found = ScannedUtxo {
                            tx_id: tx.wtxid,
                            output: TxOut { value: out.value, script_pubkey: script },
                            vout: v,
                            derive_path: path,
                            block: BlockHeader { hash: block.hash, height: block.height },
                        };
                        utxos.push(found);
                        proof {
                            assert(utxos@ == prev.push(found));
                            assert(utxos@.map_values(|u: ScannedUtxo| scanned_view(u)) =~= prev.map_values(
                                |u: ScannedUtxo| scanned_view(u),
                            ).push(scanned_view(found)));
                        }
                    },
                    None => {},
                }
                v = v + 1;
            }
            proof {
                assert(tx.outputs@.take(v as int) =~= tx.outputs@);
            }
            i = i + 1;
        }
        proof {
            assert(txs@.take(i as int) =~= txs@);
        }
        utxos
    }
}

/// Two byte strings are equal.
fn bytes_eq(a: &Vec<u8>, b: &Vec<u8>) -> (eq: bool)
    ensures
        eq == (a@ == b@),
{
    if a.len() != b.len() {
        return false;
    }
    let mut i: usize = 0;
    while i < a.len()
        invariant
            i <= a@.len(),
            a@.len() == b@.len(),
            forall|j: int| 0 <= j < i ==> a@[j] == b@[j],
        decreases a@.len() - i,
    {
        if a[i] != b[i] {
            return false;
        }
        i = i + 1;
    }
    assert(a@ =~= b@);
    true
}

} // verus!
