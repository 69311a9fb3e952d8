//! Automated wallet discovery.
//!
//! Walks the derivation tree starting at `account 0`, scanning external
//! and internal chains with a sliding window bounded by an address gap limit.
//! Stops climbing to the next account once `account_gap_limit` consecutive
//! accounts come back empty. For every used address we then pull UTXOs.
//!
//! The decisions live here as state machines: which window of addresses to
//! probe next, what a window's activity flags mean, which account to scan
//! next. Deriving addresses, probing them and timing the probes is done by
//! the caller, which feeds the results back.
use vstd::prelude::*;

use crate::btc::address::{Change, DerivePath, Network, Purpose};
use crate::btc::address::LabeledDerivationPath;
use crate::chain::btc::account::{is_fresh_account, keys_distinct, value_sum, Account, AccountIndex};
use crate::chain::btc::utxo::{utxo_key, Utxo};
use crate::chain::btc::config::network_of;
use crate::chain::btc::wallet::{account_position, lemma_account_position, BitcoinWallet};
use crate::text::{decimal, push_decimal};

verus! {

pub struct DiscoveryConfig {
    /// BIP44 external chain gap limit (the canonical default is 20).
    pub external_gap_limit: u32,
    /// Internal (change) chain gap limit.
    pub internal_gap_limit: u32,
    /// Number of consecutive empty accounts before account scan stops.
    pub account_gap_limit: u32,
    /// Hard cap on accounts to prevent runaway scans.
    pub max_accounts: u32,
    /// Starting batch size for the sliding window.
    pub initial_batch_size: u32,
    pub min_batch_size: u32,
    pub max_batch_size: u32,
    /// Derivation schemes to discover, scanned in order.
    pub schemes: Vec<Purpose>,
}

impl DiscoveryConfig {
    pub fn default() -> (config: Self)
        ensures
            config.external_gap_limit == 20,
            config.internal_gap_limit == 20,
            config.account_gap_limit == 3,
            config.max_accounts == 32,
            config.initial_batch_size == 50,
            config.min_batch_size == 10,
            config.max_batch_size == 200,
            config.schemes@ == seq![Purpose::Bip86],
    {
        let mut schemes = Vec::new();
        schemes.push(Purpose::Bip86);
        Self {
            external_gap_limit: 20,
            internal_gap_limit: 20,
            account_gap_limit: 3,
            max_accounts: 32,
            initial_batch_size: 50,
            min_batch_size: 10,
            max_batch_size: 200,
            schemes,
        }
    }
}

pub struct ChainScanResult {
    pub used_paths: Vec<DerivePath>,
}

pub struct DiscoveredAccount {
    pub scheme: Purpose,
    pub index: AccountIndex,
    pub external_paths: Vec<DerivePath>,
    pub internal_paths: Vec<DerivePath>,
    pub utxos: Vec<Utxo>,
}

pub struct DiscoveryReport {
    pub accounts: Vec<AccountIndex>,
    pub paths_added: usize,
    pub utxos_added: usize,
    pub total_value_sat: u64,
}

pub struct WalletDiscoverer {
    pub config: DiscoveryConfig,
    pub network: Network,
}

/// The batch size after a probe that took `ms` milliseconds: grown by half
/// below 200 ms, shrunk to two thirds above one second, then clamped to the
/// configured range.
pub open spec fn adapted_batch_size(current: u32, ms: u32, min: u32, max: u32) -> u32 {
    let next: int = if ms < 200 {
        (if current * 3 > u32::MAX { u32::MAX as int } else { current * 3 }) / 2
    } else if ms > 1000 {
        (if current * 2 >= 1 { current * 2 } else { 1 }) / 3
    } else {
        current as int
    };
    if next < min {
        min
    } else if next > max {
        max
    } else {
        next as u32
    }
}

/// The batch size always stays within the configured range; from within it,
/// a fast probe never shrinks it (up to half of `u32::MAX`, past which the
/// saturated tripling halves below it), a slow one never grows it, and one
/// in between leaves it as it was.
pub proof fn lemma_batch_size_bounds(current: u32, ms: u32, min: u32, max: u32)
    requires
        min <= max,
    ensures
        min <= adapted_batch_size(current, ms, min, max) <= max,
        min <= current <= max && current <= u32::MAX / 2 && ms < 200 ==> adapted_batch_size(
            current,
            ms,
            min,
            max,
        ) >= current,
        min <= current <= max && ms > 1000 ==> adapted_batch_size(current, ms, min, max) <= current,
        min <= current <= max && 200 <= ms <= 1000 ==> adapted_batch_size(current, ms, min, max) == current,
{
}

/// The first index past the end of the scan: `gap_limit` indices past the
/// last used one (saturating), or `gap_limit` before any activity.
pub open spec fn scan_end(max_used: Option<u32>, gap_limit: u32) -> u32 {
    match max_used {
        Some(m) => {
            let a: int = if m + gap_limit > u32::MAX { u32::MAX as int } else { m + gap_limit };
            if a + 1 > u32::MAX { u32::MAX } else { (a + 1) as u32 }
        },
        None => gap_limit,
    }
}

/// `next + batch`, saturating.
pub open spec fn window_end(next: u32, batch_size: u32) -> u32 {
    if next + batch_size > u32::MAX { u32::MAX } else { (next + batch_size) as u32 }
}

/// State of the scan of one chain of one account.
pub struct ChainScan {
    pub scheme: Purpose,
    pub account: AccountIndex,
    pub change: Change,
    pub gap_limit: u32,
    pub batch_size: u32,
    pub next: u32,
    pub max_used: Option<u32>,
    pub used: Vec<DerivePath>,
}

/// The path of address `index` on the scanned chain.
pub open spec fn scan_path(scan: ChainScan, network: Network, index: u32) -> DerivePath {
    DerivePath { purpose: scan.scheme, network, account: scan.account, change: scan.change, index }
}

/// The paths the scan probes next: indices `next..window_end(next, batch)`.
pub open spec fn window_paths(scan: ChainScan, network: Network) -> Seq<DerivePath> {
    Seq::new(
        (window_end(scan.next, scan.batch_size) - scan.next) as nat,
        |k: int| scan_path(scan, network, (scan.next + k) as u32),
    )
}

/// A scan probes only its own chain: every path of its window has the
/// scan's scheme, account and chain (external or internal) and the wallet's
/// network, and the window runs over consecutive address indices from the
/// scan's next index: a whole batch of them, or up to the end of the index
/// range.
pub proof fn lemma_window_on_scanned_chain(scan: ChainScan, network: Network)
    ensures
        scan.next + window_paths(scan, network).len() <= u32::MAX,
        window_paths(scan, network).len() <= scan.batch_size,
        window_paths(scan, network).len() == scan.batch_size || scan.next + window_paths(scan, network).len()
            == u32::MAX,
        forall|k: int|
            0 <= k < window_paths(scan, network).len() ==> {
                let p = #[trigger] window_paths(scan, network)[k];
                &&& p.purpose == scan.scheme
                &&& p.account == scan.account
                &&& p.change == scan.change
                &&& p.network == network
                &&& p.index == scan.next + k
            },
{
}

/// The window's paths whose addresses showed activity, in order.
pub open spec fn active_paths(paths: Seq<DerivePath>, activity: Seq<bool>) -> Seq<DerivePath>
    decreases paths.len(),
{
    if paths.len() == 0 {
        Seq::empty()
    } else if activity[paths.len() - 1] {
        active_paths(paths.drop_last(), activity).push(paths.last())
    } else {
        active_paths(paths.drop_last(), activity)
    }
}

/// The highest active index of a window starting at `start`, combined with
/// the highest one seen before.
pub open spec fn max_active(max_used: Option<u32>, start: u32, activity: Seq<bool>) -> Option<u32>
    decreases activity.len(),
{
    if activity.len() == 0 {
        max_used
    } else {
        let before = max_active(max_used, start, activity.drop_last());
        let i = (start + activity.len() - 1) as u32;
        if activity.last() {
            match before {
                Some(m) => Some(if m >= i { m } else { i }),
                None => Some(i),
            }
        } else {
            before
        }
    }
}

/// Message of the error for a provider that answered for the wrong number
/// of addresses.
pub open spec fn flag_count_error(flags: nat, addresses: nat) -> Seq<char> {
    "provider returned "@ + decimal(flags) + " activity flags for "@ + decimal(addresses)
        + " addresses"@
}

/// Where the walk over accounts stands.
pub struct AccountWalk {
    pub scheme_index: usize,
    pub account: AccountIndex,
    pub empty_streak: u32,
}

/// What the walk over accounts asks for next.
pub enum WalkStep {
    /// Scan both chains of this account under this scheme.
    Scan(Purpose, AccountIndex),
    /// Every scheme is done.
    Done,
}

impl WalletDiscoverer {
    pub fn new(network: Network) -> (discoverer: Self)
        ensures
            discoverer.network == network,
            discoverer.config.external_gap_limit == 20,
            discoverer.config.internal_gap_limit == 20,
            discoverer.config.account_gap_limit == 3,
            discoverer.config.max_accounts == 32,
            discoverer.config.initial_batch_size == 50,
            discoverer.config.min_batch_size == 10,
            discoverer.config.max_batch_size == 200,
            discoverer.config.schemes@ == seq![Purpose::Bip86],
    {
        Self { config: DiscoveryConfig::default(), network }
    }

    pub fn with_config(self, config: DiscoveryConfig) -> (discoverer: Self)
        ensures
            discoverer.config == config,
            discoverer.network == self.network,
    {
        let mut this = self;
        this.config = config;
        this
    }

    /// Adapt the batch size in response to observed round-trip latency. The
    /// goal is to keep windows below ~1s while still amortising connection
    /// overhead. Bounded by `[min_batch_size, max_batch_size]`.
    ///
    /// `elapsed_millis` is the round trip in milliseconds, as
    /// `Duration::as_millis` gives it.
    pub fn adapt_batch_size(&self, current: u32, elapsed_millis: u128) -> (next: u32)
        requires
            self.config.min_batch_size <= self.config.max_batch_size,
            (elapsed_millis as u32) > 1000 ==> current <= u32::MAX / 2,
        ensures
            next == adapted_batch_size(
                current,
                elapsed_millis as u32,
                self.config.min_batch_size,
                self.config.max_batch_size,
            ),
    {
        let ms = elapsed_millis as u32;
        let next = if ms < 200 {
            // current * 3, saturating
            let tripled = if current > u32::MAX / 3 { u32::MAX } else { current * 3 };
            tripled / 2
        } else if ms > 1000 {
            let doubled = current * 2;
            (if doubled >= 1 { doubled } else { 1 }) / 3
        } else {
            current
        };
        if next < self.config.min_batch_size {
            self.config.min_batch_size
        } else if next > self.config.max_batch_size {
            self.config.max_batch_size
        } else {
            next
        }
    }

    /// A fresh scan of one chain: nothing probed yet, the initial batch size.
    pub fn start_scan(&self, scheme: Purpose, account: AccountIndex, change: Change) -> (scan:
        ChainScan)
        ensures
            scan.scheme == scheme,
            scan.account == account,
            scan.change == change,
            scan.gap_limit == match change {
                Change::External => self.config.external_gap_limit,
                Change::Internal => self.config.internal_gap_limit,
            },
            scan.batch_size == self.config.initial_batch_size,
            scan.next == 0,
            scan.max_used is None,
            scan.used@.len() == 0,
    {
        let gap_limit = match change {
            Change::External => self.config.external_gap_limit,
            Change::Internal => self.config.internal_gap_limit,
        };
        ChainScan {
            scheme,
            account,
            change,
            gap_limit,
            batch_size: self.config.initial_batch_size,
            next: 0,
            max_used: None,
            used: Vec::new(),
        }
    }

    /// The paths to probe next, or `None` once `gap_limit` consecutive
    /// addresses past the last activity have been covered.
    pub fn next_window(&self, scan: &ChainScan) -> (window: Option<Vec<DerivePath>>)
        ensures
            window is None <==> scan.next >= scan_end(scan.max_used, scan.gap_limit),
            window matches Some(w) ==> w@ == window_paths(*scan, self.network),
            window matches Some(w) ==> forall|k: int|
                0 <= k < w@.len() ==> (#[trigger] w@[k]).change == scan.change && w@[k].account == scan.account
                    && w@[k].purpose == scan.scheme && w@[k].network == self.network && w@[k].index == scan.next + k,
    {
        proof {
            lemma_window_on_scanned_chain(*scan, self.network);
        }
        // We stop once we've covered `gap_limit` consecutive empty
        // addresses past the last activity. Before any activity is found
        // that means covering [0, gap_limit).
        let target_end = match scan.max_used {
            Some(m) => m.saturating_add(scan.gap_limit).saturating_add(1),
            None => scan.gap_limit,
        };
        if scan.next >= target_end {
            return None;
        }
        let end = scan.next.saturating_add(scan.batch_size);
        let mut paths: Vec<DerivePath> = Vec::new();
        let mut i = scan.next;
        while i < end
            invariant
                scan.next <= i <= end,
                end == window_end(scan.next, scan.batch_size),
                paths@ == window_paths(*scan, self.network).take(i - scan.next),
            decreases end - i,
        {
            paths.push(
                DerivePath {
                    purpose: scan.scheme,
                    network: self.network,
                    account: scan.account,
                    change: scan.change,
                    index: i,
                },
            );
            proof {
                assert(paths@ =~= window_paths(*scan, self.network).take(i + 1 - scan.next));
            }
            i = i + 1;
        }
        proof {
            assert(window_paths(*scan, self.network).take(i - scan.next) =~= window_paths(
                *scan,
                self.network,
            ));
        }
        Some(paths)
    }

    /// Takes in the activity of the window `next_window` gave: adapts the
    /// batch size to the probe's latency, records the active paths and the
    /// highest active index, and moves past the window. Fails when the
    /// provider answered for a different number of addresses.
    pub fn record_window(
        &self,
        scan: &mut ChainScan,
        window: &Vec<DerivePath>,
        activity: Vec<bool>,
        elapsed_millis: u128,
    ) -> (result: Result<(), String>)
        requires
            window@ == window_paths(*old(scan), self.network),
            self.config.min_batch_size <= self.config.max_batch_size,
            (elapsed_millis as u32) > 1000 ==> old(scan).batch_size <= u32::MAX / 2,
        ensures
            final(scan).batch_size == adapted_batch_size(
                old(scan).batch_size,
                elapsed_millis as u32,
                self.config.min_batch_size,
                self.config.max_batch_size,
            ),
            final(scan).scheme == old(scan).scheme,
            final(scan).account == old(scan).account,
            final(scan).change == old(scan).change,
            final(scan).gap_limit == old(scan).gap_limit,
            activity@.len() != window@.len() ==> (result matches Err(e) && e@ == flag_count_error(
                activity@.len(),
                window@.len(),
            ) && final(scan).next == old(scan).next && final(scan).max_used == old(scan).max_used
                && final(scan).used@ == old(scan).used@),
            activity@.len() == window@.len() ==> {
                &&& result is Ok
                &&& final(scan).used@ == old(scan).used@ + active_paths(window@, activity@)
                &&& final(scan).max_used == max_active(old(scan).max_used, old(scan).next, activity@)
                &&& final(scan).next == window_end(old(scan).next, old(scan).batch_size)
            },
    {
        let old_batch = scan.batch_size;
        scan.batch_size = self.adapt_batch_size(old_batch, elapsed_millis);

        if activity.len() != window.len() {
            let mut msg = "provider returned ".to_owned();
            push_decimal(&mut msg, activity.len() as u64);
            msg.append(" activity flags for ");
            push_decimal(&mut msg, window.len() as u64);
            msg.append(" addresses");
            return Err(msg);
        }
        let ghost used_before = scan.used@;
        let ghost start = scan.next;
        let ghost max_before = scan.max_used;
        let mut offset: usize = 0;
        while offset < activity.len()
            invariant
                offset <= activity@.len(),
                activity@.len() == window@.len(),
                window@ == window_paths(*old(scan), self.network),
                start == old(scan).next,
                scan.next == start,
                scan.used@ == used_before + active_paths(window@.take(offset as int), activity@),
                scan.max_used == max_active(max_before, start, activity@.take(offset as int)),
                scan.scheme == old(scan).scheme,
                scan.account == old(scan).account,
                scan.change == old(scan).change,
                scan.gap_limit == old(scan).gap_limit,
                scan.batch_size == adapted_batch_size(
                    old(scan).batch_size,
                    elapsed_millis as u32,
                    self.config.min_batch_size,
                    self.config.max_batch_size,
                ),
            decreases activity@.len() - offset,
        {
            proof {
                assert(window@.take(offset + 1).drop_last() =~= window@.take(offset as int));
                assert(activity@.take(offset + 1).drop_last() =~= activity@.take(offset as int));
                assert(window@.take(offset + 1).last() == window@[offset as int]);
                assert forall|k: int| 0 <= k < offset implies activity@.take(offset + 1)[k] == activity@.take(offset as int)[k] by {}
            }
            if activity[offset] {
                let i = scan.next + offset as u32;
                scan.used.push(window[offset]);
                scan.max_used = match scan.max_used {
                    Some(m) => Some(if m >= i { m } else { i }),
                    None => Some(i),
                };
            }
            proof {
                assert(scan.used@ =~= used_before + active_paths(window@.take(offset + 1), activity@));
            }
            offset = offset + 1;
        }
        proof {
            assert(window@.take(offset as int) =~= window@);
            assert(activity@.take(offset as int) =~= activity@);
        }
        scan.next = scan.next.saturating_add(old_batch);
        Ok(())
    }

    /// The paths whose outputs are fetched for a scanned account: its used
    /// external paths, then its used internal ones.
    pub fn used_paths(external: &ChainScanResult, internal: &ChainScanResult) -> (paths: Vec<DerivePath>)
        ensures
            paths@ == external.used_paths@ + internal.used_paths@,
    {
        let mut paths: Vec<DerivePath> = Vec::new();
        let mut k: usize = 0;
        while k < external.used_paths.len()
            invariant
                k <= external.used_paths@.len(),
                paths@ == external.used_paths@.take(k as int),
            decreases external.used_paths@.len() - k,
        {
            paths.push(external.used_paths[k]);
            k = k + 1;
            proof {
                assert(paths@ =~= external.used_paths@.take(k as int));
            }
        }
        let mut k: usize = 0;
        while k < internal.used_paths.len()
            invariant
                k <= internal.used_paths@.len(),
                paths@ == external.used_paths@ + internal.used_paths@.take(k as int),
            decreases internal.used_paths@.len() - k,
        {
            paths.push(internal.used_paths[k]);
            k = k + 1;
            proof {
                assert(paths@ =~= external.used_paths@ + internal.used_paths@.take(k as int));
            }
        }
        proof {
            assert(external.used_paths@.take(external.used_paths@.len() as int) =~= external.used_paths@);
            assert(internal.used_paths@.take(internal.used_paths@.len() as int) =~= internal.used_paths@);
        }
        paths
    }

    /// What a scanned account contributes to the discovery: nothing when
    /// neither of its chains had activity; otherwise the account with its
    /// used paths of each chain and the outputs found at them.
    pub fn discovered_account(
        scheme: Purpose,
        index: AccountIndex,
        external: ChainScanResult,
        internal: ChainScanResult,
        utxos: Vec<Utxo>,
    ) -> (found: Option<DiscoveredAccount>)
        ensures
            (external.used_paths@.len() == 0 && internal.used_paths@.len() == 0) <==> found is None,
            found matches Some(d) ==> d.scheme == scheme && d.index == index && d.external_paths@
                == external.used_paths@ && d.internal_paths@ == internal.used_paths@ && d.utxos@ == utxos@,
    {
        if external.used_paths.len() == 0 && internal.used_paths.len() == 0 {
            return None;
        }
        Some(
            DiscoveredAccount {
                scheme,
                index,
                external_paths: external.used_paths,
                internal_paths: internal.used_paths,
                utxos,
            },
        )
    }

    /// The outcome of a finished scan: the used paths, in scan order.
    pub fn finish_scan(scan: ChainScan) -> (result: ChainScanResult)
        ensures
            result.used_paths@ == scan.used@,
    {
        ChainScanResult { used_paths: scan.used }
    }

    /// The walk over accounts starts at account 0 of the first scheme.
    pub fn start_walk(&self) -> (walk: AccountWalk)
        ensures
            walk.scheme_index == 0,
            walk.account == 0,
            walk.empty_streak == 0,
    {
        AccountWalk { scheme_index: 0, account: 0, empty_streak: 0 }
    }

    /// The next account to scan, moving on to the next scheme once the
    /// current one has reached `max_accounts`; `Done` after the last scheme.
    pub fn walk_step(&self, walk: &mut AccountWalk) -> (step: WalkStep)
        ensures
            step matches WalkStep::Scan(scheme, account) ==> {
                &&& final(walk).scheme_index < self.config.schemes@.len()
                &&& scheme == self.config.schemes@[final(walk).scheme_index as int]
                &&& account == final(walk).account
                &&& final(walk).account < self.config.max_accounts
                &&& old(walk).account < self.config.max_accounts ==> *final(walk) == *old(walk)
                &&& old(walk).account >= self.config.max_accounts ==> final(walk).account == 0 && final(walk).empty_streak == 0 && final(walk).scheme_index > old(walk).scheme_index
            },
            step is Done ==> final(walk).scheme_index >= self.config.schemes@.len(),
            old(walk).scheme_index < self.config.schemes@.len() && old(walk).account
                < self.config.max_accounts ==> step is Scan,
    {
        loop
            invariant
                old(walk).scheme_index <= walk.scheme_index,
                walk.scheme_index == old(walk).scheme_index ==> *walk == *old(walk),
                walk.scheme_index > old(walk).scheme_index ==> walk.account == 0 && walk.empty_streak == 0
                    && old(walk).account >= self.config.max_accounts,
            decreases self.config.schemes@.len() - walk.scheme_index,
        {
            if walk.scheme_index >= self.config.schemes.len() {
                return WalkStep::Done;
            }
            if walk.account < self.config.max_accounts {
                return WalkStep::Scan(self.config.schemes[walk.scheme_index], walk.account);
            }
            walk.scheme_index = walk.scheme_index + 1;
            walk.account = 0;
            walk.empty_streak = 0;
        }
    }

    /// Takes in how many used paths the scanned account had: an empty
    /// account extends the streak of empty ones, and `account_gap_limit` of
    /// them in a row end the scheme; any activity resets the streak.
    pub fn account_scanned(&self, walk: &mut AccountWalk, used_total: usize)
        requires
            old(walk).scheme_index < self.config.schemes@.len(),
            old(walk).account < self.config.max_accounts,
            old(walk).empty_streak < u32::MAX,
        ensures
            used_total == 0 && old(walk).empty_streak + 1 >= self.config.account_gap_limit ==> {
                &&& final(walk).scheme_index == old(walk).scheme_index + 1
                &&& final(walk).account == 0
                &&& final(walk).empty_streak == 0
            },
            used_total == 0 && old(walk).empty_streak + 1 < self.config.account_gap_limit ==> {
                &&& final(walk).scheme_index == old(walk).scheme_index
                &&& final(walk).account == old(walk).account + 1
                &&& final(walk).empty_streak == old(walk).empty_streak + 1
            },
            used_total != 0 ==> {
                &&& final(walk).scheme_index == old(walk).scheme_index
                &&& final(walk).account == old(walk).account + 1
                &&& final(walk).empty_streak == 0
            },
    {
        if used_total == 0 {
            walk.empty_streak = walk.empty_streak + 1;
            if walk.empty_streak >= self.config.account_gap_limit {
                assert(walk.scheme_index < self.config.schemes.len());
                walk.scheme_index = walk.scheme_index + 1;
                walk.account = 0;
                walk.empty_streak = 0;
                return;
            }
            walk.account = walk.account + 1;
            return;
        }
        walk.empty_streak = 0;
        walk.account = walk.account + 1;
    }
}


// ---------------------------------------------------------------------------
// Merging a discovery into the wallet
// ---------------------------------------------------------------------------

/// The account's key chain holds the path.
pub open spec fn keychain_has(a: Account, p: DerivePath) -> bool {
    exists|j: int| 0 <= j < a.keychain.paths@.len() && (#[trigger] a.keychain.paths@[j]).derive_path == p
}

/// The account's UTXO set holds an output at the outpoint.
pub open spec fn utxos_have(a: Account, k: (Seq<u8>, u32)) -> bool {
    exists|j: int| 0 <= j < a.utxo_set.entries@.len() && utxo_key(#[trigger] a.utxo_set.entries@[j]) == k
}

/// The account holds every path and every output that discovery found for it.
pub open spec fn account_covers(a: Account, da: DiscoveredAccount) -> bool {
    &&& forall|k: int| 0 <= k < da.external_paths@.len() ==> keychain_has(a, #[trigger] da.external_paths@[k])
    &&& forall|k: int| 0 <= k < da.internal_paths@.len() ==> keychain_has(a, #[trigger] da.internal_paths@[k])
    &&& forall|k: int| 0 <= k < da.utxos@.len() ==> utxos_have(a, utxo_key(#[trigger] da.utxos@[k]))
}

/// What `b` holds beyond what `a` held came from `da`: each added path is
/// one `da` found, unlabelled; each added output is one `da` found.
pub open spec fn additions_from(a: Account, b: Account, da: DiscoveredAccount) -> bool {
    &&& forall|k: int|
        a.keychain.paths@.len() <= k < b.keychain.paths@.len() ==> {
            &&& (#[trigger] b.keychain.paths@[k]).label@ == Seq::<char>::empty()
            &&& (da.external_paths@.contains(b.keychain.paths@[k].derive_path)
                || da.internal_paths@.contains(b.keychain.paths@[k].derive_path))
        }
    &&& forall|k: int|
        a.utxo_set.entries@.len() <= k < b.utxo_set.entries@.len() ==> da.utxos@.contains(
            #[trigger] b.utxo_set.entries@[k],
        )
}

/// One merge of `da` changed only the first account with its index, or
/// appended one: every other account is as it was; the first account with
/// `da`'s index gained only what `da` found; an appended account is the
/// fresh account "Account <index>" that then gained only what `da` found.
pub open spec fn merge_step(before: Seq<Account>, after: Seq<Account>, da: DiscoveredAccount, network: Network) -> bool {
    &&& forall|j: int|
        0 <= j < before.len() && account_position(before, da.index) != Some(j) ==> #[trigger] after[j]
            == before[j]
    &&& account_position(before, da.index) matches Some(p) ==> after.len() == before.len()
        && additions_from(before[p], after[p], da)
    &&& account_position(before, da.index) is None ==> after.len() == before.len() + 1 && exists|
        fresh: Account,
    |
        is_fresh_account(fresh, network, da.index, "Account "@ + decimal(da.index as nat)) && account_extends(
            fresh,
            after.last(),
        ) && #[trigger] additions_from(fresh, after.last(), da)
}

/// The discovery found the path for an account with this index.
pub open spec fn path_found(d: Seq<DiscoveredAccount>, index: u32, p: DerivePath) -> bool {
    exists|i: int|
        0 <= i < d.len() && (#[trigger] d[i]).index == index && (d[i].external_paths@.contains(p)
            || d[i].internal_paths@.contains(p))
}

/// The discovery found the output for an account with this index.
pub open spec fn utxo_found(d: Seq<DiscoveredAccount>, index: u32, u: Utxo) -> bool {
    exists|i: int| 0 <= i < d.len() && (#[trigger] d[i]).index == index && d[i].utxos@.contains(u)
}

/// What `b` holds beyond its first `np` paths and `nu` outputs the
/// discovery found for its index; those paths are unlabelled.
pub open spec fn found_beyond(b: Account, np: int, nu: int, d: Seq<DiscoveredAccount>) -> bool {
    &&& forall|k: int|
        np <= k < b.keychain.paths@.len() ==> (#[trigger] b.keychain.paths@[k]).label@ == Seq::<
            char,
        >::empty() && path_found(d, b.index, b.keychain.paths@[k].derive_path)
    &&& forall|k: int|
        nu <= k < b.utxo_set.entries@.len() ==> utxo_found(d, b.index, #[trigger] b.utxo_set.entries@[k])
}

/// An account a merge created: one the discovery names, made as the fresh
/// account "Account <index>", holding beyond its main path only what the
/// discovery found for it.
pub open spec fn new_account_found(a: Account, d: Seq<DiscoveredAccount>, network: Network) -> bool {
    &&& exists|i: int| 0 <= i < d.len() && (#[trigger] d[i]).index == a.index
    &&& exists|fresh: Account|
        is_fresh_account(fresh, network, a.index, "Account "@ + decimal(a.index as nat))
            && #[trigger] account_extends(fresh, a)
    &&& found_beyond(a, 1, 0, d)
}

/// A merge added nothing the discovery did not find: what an existing
/// account gained, and every account it created, came from the discovery.
#[verifier::opaque]
pub open spec fn only_discovered(
    before: Seq<Account>,
    after: Seq<Account>,
    d: Seq<DiscoveredAccount>,
    network: Network,
) -> bool {
    &&& forall|j: int|
        0 <= j < before.len() ==> found_beyond(
            #[trigger] after[j],
            before[j].keychain.paths@.len() as int,
            before[j].utxo_set.entries@.len() as int,
            d,
        )
    &&& forall|j: int| before.len() <= j < after.len() ==> new_account_found(#[trigger] after[j], d, network)
}

/// What was found in a prefix of a discovery is found in a longer prefix.
proof fn lemma_found_beyond_lift(b: Account, np: int, nu: int, d: Seq<DiscoveredAccount>, i: int)
    requires
        0 <= i < d.len(),
        found_beyond(b, np, nu, d.take(i)),
    ensures
        found_beyond(b, np, nu, d.take(i + 1)),
{
    assert forall|k: int| np <= k < b.keychain.paths@.len() implies path_found(
        d.take(i + 1),
        b.index,
        (#[trigger] b.keychain.paths@[k]).derive_path,
    ) by {
        let p = b.keychain.paths@[k].derive_path;
        let m = choose|m: int|
            0 <= m < d.take(i).len() && (#[trigger] d.take(i)[m]).index == b.index && (d.take(
                i,
            )[m].external_paths@.contains(p) || d.take(i)[m].internal_paths@.contains(p));
        assert(d.take(i + 1)[m] == d.take(i)[m]);
    }
    assert forall|k: int| nu <= k < b.utxo_set.entries@.len() implies utxo_found(
        d.take(i + 1),
        b.index,
        #[trigger] b.utxo_set.entries@[k],
    ) by {
        let u = b.utxo_set.entries@[k];
        let m = choose|m: int|
            0 <= m < d.take(i).len() && (#[trigger] d.take(i)[m]).index == b.index && d.take(
                i,
            )[m].utxos@.contains(u);
        assert(d.take(i + 1)[m] == d.take(i)[m]);
    }
}

/// An account that gained only what entry `i` of a discovery found, for its
/// own index, holds beyond a point found earlier only what the discovery up
/// to entry `i` found.
proof fn lemma_found_beyond_step(
    a: Account,
    b: Account,
    np: int,
    nu: int,
    d: Seq<DiscoveredAccount>,
    i: int,
)
    requires
        0 <= i < d.len(),
        0 <= np,
        0 <= nu,
        found_beyond(a, np, nu, d.take(i)),
        account_extends(a, b),
        additions_from(a, b, d[i]),
        b.index == d[i].index,
    ensures
        found_beyond(b, np, nu, d.take(i + 1)),
{
    lemma_found_beyond_lift(a, np, nu, d, i);
    assert(d.take(i + 1)[i] == d[i]);
    assert forall|k: int| np <= k < b.keychain.paths@.len() implies (#[trigger] b.keychain.paths@[k]).label@
        == Seq::<char>::empty() && path_found(d.take(i + 1), b.index, b.keychain.paths@[k].derive_path) by {
        if k < a.keychain.paths@.len() {
            assert(b.keychain.paths@[k] == a.keychain.paths@[k]);
        }
    }
    assert forall|k: int| nu <= k < b.utxo_set.entries@.len() implies utxo_found(
        d.take(i + 1),
        b.index,
        #[trigger] b.utxo_set.entries@[k],
    ) by {
        if k < a.utxo_set.entries@.len() {
            assert(b.utxo_set.entries@[k] == a.utxo_set.entries@[k]);
        }
    }
}

/// Merging entry `i` of a discovery keeps the merge so far adding only what
/// the discovery up to that entry found.
proof fn lemma_only_discovered_step(
    start: Seq<Account>,
    before: Seq<Account>,
    after: Seq<Account>,
    d: Seq<DiscoveredAccount>,
    i: int,
    network: Network,
)
    requires
        0 <= i < d.len(),
        start.len() <= before.len(),
        only_discovered(start, before, d.take(i), network),
        accounts_extend(start, before),
        accounts_extend(before, after),
        merge_step(before, after, d[i], network),
    ensures
        only_discovered(start, after, d.take(i + 1), network),
{
    reveal(only_discovered);
    let da = d[i];
    lemma_account_position(before, da.index);
    assert(d.take(i + 1)[i] == da);
    assert forall|j: int| 0 <= j < start.len() implies found_beyond(
        #[trigger] after[j],
        start[j].keychain.paths@.len() as int,
        start[j].utxo_set.entries@.len() as int,
        d.take(i + 1),
    ) by {
        let np = start[j].keychain.paths@.len() as int;
        let nu = start[j].utxo_set.entries@.len() as int;
        assert(found_beyond(before[j], np, nu, d.take(i)));
        if account_position(before, da.index) == Some(j) {
            assert(account_extends(before[j], after[j]));
            lemma_found_beyond_step(before[j], after[j], np, nu, d, i);
        } else {
            assert(after[j] == before[j]);
            lemma_found_beyond_lift(before[j], np, nu, d, i);
        }
    }
    assert forall|j: int| start.len() <= j < after.len() implies new_account_found(
        #[trigger] after[j],
        d.take(i + 1),
        network,
    ) by {
        if j < before.len() {
            let b = before[j];
            assert(new_account_found(b, d.take(i), network));
            let m = choose|m: int| 0 <= m < d.take(i).len() && (#[trigger] d.take(i)[m]).index == b.index;
            assert(d.take(i + 1)[m] == d.take(i)[m]);
            let fresh = choose|fresh: Account|
                is_fresh_account(fresh, network, b.index, "Account "@ + decimal(b.index as nat))
                    && #[trigger] account_extends(fresh, b);
            assert(account_extends(b, after[j]));
            lemma_account_extends_trans(fresh, b, after[j]);
            if account_position(before, da.index) == Some(j) {
                lemma_found_beyond_step(b, after[j], 1, 0, d, i);
            } else {
                assert(after[j] == b);
                lemma_found_beyond_lift(b, 1, 0, d, i);
            }
        } else {
            assert(account_position(before, da.index) is None);
            assert(j == before.len());
            let a = after[j];
            assert(a == after.last());
            let fresh = choose|fresh: Account|
                is_fresh_account(fresh, network, da.index, "Account "@ + decimal(da.index as nat))
                    && account_extends(fresh, after.last()) && #[trigger] additions_from(fresh, after.last(), da);
            assert(a.index == da.index);
            assert(account_extends(fresh, a));
            assert(found_beyond(fresh, 1, 0, d.take(i))) by {
                assert(fresh.keychain.paths@.len() == 1);
                assert(fresh.utxo_set.entries@.len() == 0);
            }
            lemma_found_beyond_step(fresh, a, 1, 0, d, i);
        }
    }
}

/// The account indices of a discovery, each once, in the order they first
/// appear.
pub open spec fn indices_in_order(d: Seq<DiscoveredAccount>) -> Seq<AccountIndex>
    decreases d.len(),
{
    if d.len() == 0 {
        Seq::empty()
    } else {
        let seen = indices_in_order(d.drop_last());
        if seen.contains(d.last().index) {
            seen
        } else {
            seen.push(d.last().index)
        }
    }
}

/// Every discovered account exists in the wallet and holds what was found for it.
pub open spec fn discovery_applied(accounts: Seq<Account>, d: Seq<DiscoveredAccount>) -> bool {
    forall|i: int|
        0 <= i < d.len() ==> match account_position(accounts, (#[trigger] d[i]).index) {
            Some(j) => account_covers(accounts[j], d[i]),
            None => false,
        }
}

/// `b` is `a` with paths and outputs only appended.
pub open spec fn account_extends(a: Account, b: Account) -> bool {
    &&& b.index == a.index
    &&& b.name == a.name
    &&& a.keychain.paths@.len() <= b.keychain.paths@.len()
    &&& forall|k: int| 0 <= k < a.keychain.paths@.len() ==> #[trigger] b.keychain.paths@[k] == a.keychain.paths@[k]
    &&& a.utxo_set.entries@.len() <= b.utxo_set.entries@.len()
    &&& forall|k: int| 0 <= k < a.utxo_set.entries@.len() ==> #[trigger] b.utxo_set.entries@[k] == a.utxo_set.entries@[k]
}

/// `b` is `a` with accounts only extended or appended.
pub open spec fn accounts_extend(a: Seq<Account>, b: Seq<Account>) -> bool {
    &&& a.len() <= b.len()
    &&& forall|j: int| 0 <= j < a.len() ==> account_extends(a[j], #[trigger] b[j])
}

/// Number of paths a discovery found.
pub open spec fn discovered_path_count(d: Seq<DiscoveredAccount>) -> nat
    decreases d.len(),
{
    if d.len() == 0 {
        0
    } else {
        discovered_path_count(d.drop_last()) + d.last().external_paths@.len() + d.last().internal_paths@.len()
    }
}

/// Number of outputs a discovery found.
pub open spec fn discovered_utxo_count(d: Seq<DiscoveredAccount>) -> nat
    decreases d.len(),
{
    if d.len() == 0 {
        0
    } else {
        discovered_utxo_count(d.drop_last()) + d.last().utxos@.len()
    }
}

/// A count of satoshis, saturated at the largest `u64`.
pub open spec fn capped(v: int) -> u64 {
    if v > u64::MAX {
        u64::MAX
    } else {
        v as u64
    }
}

/// Every account's UTXO set has distinct outpoints.
pub open spec fn all_keys_distinct(accounts: Seq<Account>) -> bool {
    forall|j: int| 0 <= j < accounts.len() ==> keys_distinct(#[trigger] accounts[j].utxo_set.entries@)
}

proof fn lemma_account_extends_trans(a: Account, b: Account, c: Account)
    requires
        account_extends(a, b),
        account_extends(b, c),
    ensures
        account_extends(a, c),
{
    assert forall|k: int| 0 <= k < a.keychain.paths@.len() implies #[trigger] c.keychain.paths@[k] == a.keychain.paths@[k] by {
        assert(b.keychain.paths@[k] == a.keychain.paths@[k]);
    }
    assert forall|k: int| 0 <= k < a.utxo_set.entries@.len() implies #[trigger] c.utxo_set.entries@[k] == a.utxo_set.entries@[k] by {
        assert(b.utxo_set.entries@[k] == a.utxo_set.entries@[k]);
    }
}

/// What an account holds it keeps holding as it is extended.
proof fn lemma_covers_extends(a: Account, b: Account, da: DiscoveredAccount)
    requires
        account_extends(a, b),
        account_covers(a, da),
    ensures
        account_covers(b, da),
{
    assert forall|k: int| 0 <= k < da.external_paths@.len() implies keychain_has(b, #[trigger] da.external_paths@[k]) by {
        let j = choose|j: int| 0 <= j < a.keychain.paths@.len() && (#[trigger] a.keychain.paths@[j]).derive_path == da.external_paths@[k];
        assert(b.keychain.paths@[j] == a.keychain.paths@[j]);
    }
    assert forall|k: int| 0 <= k < da.internal_paths@.len() implies keychain_has(b, #[trigger] da.internal_paths@[k]) by {
        let j = choose|j: int| 0 <= j < a.keychain.paths@.len() && (#[trigger] a.keychain.paths@[j]).derive_path == da.internal_paths@[k];
        assert(b.keychain.paths@[j] == a.keychain.paths@[j]);
    }
    assert forall|k: int| 0 <= k < da.utxos@.len() implies utxos_have(b, utxo_key(#[trigger] da.utxos@[k])) by {
        let j = choose|j: int| 0 <= j < a.utxo_set.entries@.len() && utxo_key(#[trigger] a.utxo_set.entries@[j]) == utxo_key(da.utxos@[k]);
        assert(b.utxo_set.entries@[j] == a.utxo_set.entries@[j]);
    }
}

/// Positions of accounts survive extension.
proof fn lemma_position_extends(a: Seq<Account>, b: Seq<Account>, index: u32)
    requires
        accounts_extend(a, b),
        account_position(a, index) is Some,
    ensures
        account_position(b, index) == account_position(a, index),
{
    lemma_account_position(a, index);
    let j = account_position(a, index).unwrap();
    assert(account_extends(a[j], b[j]));
    assert(b[j].index == index);
    lemma_account_position(b, index);
    let jb = account_position(b, index).unwrap();
    if jb < j {
        assert(account_extends(a[jb], b[jb]));
        assert(a[jb].index == index);
    }
    if j < jb {
        assert(b[j].index == index);
    }
}

/// What the accounts hold for a prefix of the discovery they keep holding as
/// they are extended.
proof fn lemma_applied_extends(a: Seq<Account>, b: Seq<Account>, d: Seq<DiscoveredAccount>)
    requires
        accounts_extend(a, b),
        discovery_applied(a, d),
    ensures
        discovery_applied(b, d),
{
    assert forall|i: int| 0 <= i < d.len() implies match account_position(b, (#[trigger] d[i]).index) {
        Some(j) => account_covers(b[j], d[i]),
        None => false,
    } by {
        let j = account_position(a, d[i].index).unwrap();
        lemma_account_position(a, d[i].index);
        lemma_position_extends(a, b, d[i].index);
        assert(account_extends(a[j], b[j]));
        lemma_covers_extends(a[j], b[j], d[i]);
    }
}

impl Account {
    /// Adds the discovered paths and outputs that the account does not hold
    /// yet, counting them in the report.
    fn merge_discovered(&mut self, da: DiscoveredAccount, report: &mut DiscoveryReport)
        requires
            keys_distinct(old(self).utxo_set.entries@),
            old(report).paths_added + da.external_paths@.len() + da.internal_paths@.len() <= usize::MAX,
            old(report).utxos_added + da.utxos@.len() <= usize::MAX,
        ensures
            account_extends(*old(self), *final(self)),
            keys_distinct(final(self).utxo_set.entries@),
            account_covers(*final(self), da),
            account_covers(*old(self), da) ==> *final(self) == *old(self) && *final(report) == *old(report),
            final(report).accounts == old(report).accounts,
            final(report).paths_added == old(report).paths_added + final(self).keychain.paths@.len()
                - old(self).keychain.paths@.len(),
            final(report).utxos_added == old(report).utxos_added + final(self).utxo_set.entries@.len()
                - old(self).utxo_set.entries@.len(),
            final(report).total_value_sat == capped(
                old(report).total_value_sat + value_sum(final(self).utxo_set.entries@) - value_sum(
                    old(self).utxo_set.entries@,
                ),
            ),
            final(self).keychain.paths@.len() - old(self).keychain.paths@.len() <= da.external_paths@.len()
                + da.internal_paths@.len(),
            final(self).utxo_set.entries@.len() - old(self).utxo_set.entries@.len() <= da.utxos@.len(),
            additions_from(*old(self), *final(self), da),
    {
        let ghost start = *self;
        let ghost start_report = *report;
        let ghost covered = account_covers(start, da);
        let DiscoveredAccount { scheme: _, index: _, external_paths, internal_paths, utxos } = da;
        let ghost ext = external_paths@;
        let ghost internal = internal_paths@;
        let ghost found = utxos@;

        let mut k: usize = 0;
        while k < external_paths.len()
            invariant
                k <= ext.len(),
                ext == external_paths@,
                account_extends(start, *self),
                keys_distinct(self.utxo_set.entries@),
                forall|m: int| 0 <= m < k ==> keychain_has(*self, #[trigger] ext[m]),
                covered ==> *self == start && *report == start_report,
                covered == account_covers(start, da),
                da.external_paths@ == ext,
                report.accounts == start_report.accounts,
                report.paths_added == start_report.paths_added + self.keychain.paths@.len() - start.keychain.paths@.len(),
                report.utxos_added == start_report.utxos_added + self.utxo_set.entries@.len() - start.utxo_set.entries@.len(),
                report.total_value_sat == capped(start_report.total_value_sat + value_sum(self.utxo_set.entries@) - value_sum(start.utxo_set.entries@)),
                self.keychain.paths@.len() - start.keychain.paths@.len() <= k,
                self.utxo_set.entries@ == start.utxo_set.entries@,
                start_report.paths_added + ext.len() + internal.len() <= usize::MAX,
                additions_from(start, *self, da),
            decreases ext.len() - k,
        {
            let p = external_paths[k];
            if !self.keychain.contains_path(p) {
                let ghost before = *self;
                proof {
                    if covered {
                        assert(keychain_has(start, ext[k as int]));
                    }
                }
                self.keychain.push(LabeledDerivationPath { label: String::new(), derive_path: p });
                report.paths_added = report.paths_added + 1;
                proof {
                    let n = before.keychain.paths@.len() as int;
                    assert(self.keychain.paths@[n].derive_path == p);
                    assert(ext[k as int] == p);
                    assert(additions_from(start, *self, da)) by {
                        assert forall|m: int|
                            start.keychain.paths@.len() <= m < self.keychain.paths@.len() implies {
                            &&& (#[trigger] self.keychain.paths@[m]).label@ == Seq::<char>::empty()
                            &&& (da.external_paths@.contains(self.keychain.paths@[m].derive_path)
                                || da.internal_paths@.contains(self.keychain.paths@[m].derive_path))
                        } by {
                            if m < n {
                                assert(self.keychain.paths@[m] == before.keychain.paths@[m]);
                            }
                        }
                    }
                    assert forall|m: int| 0 <= m < k + 1 implies keychain_has(*self, #[trigger] ext[m]) by {
                        if m < k {
                            let j = choose|j: int| 0 <= j < before.keychain.paths@.len() && (#[trigger] before.keychain.paths@[j]).derive_path == ext[m];
                            assert(self.keychain.paths@[j] == before.keychain.paths@[j]);
                        }
                    }
                    lemma_account_extends_trans(start, before, *self);
                }
            }
            k = k + 1;
        }

        let mut k: usize = 0;
        while k < internal_paths.len()
            invariant
                k <= internal.len(),
                internal == internal_paths@,
                account_extends(start, *self),
                keys_distinct(self.utxo_set.entries@),
                forall|m: int| 0 <= m < ext.len() ==> keychain_has(*self, #[trigger] ext[m]),
                forall|m: int| 0 <= m < k ==> keychain_has(*self, #[trigger] internal[m]),
                covered ==> *self == start && *report == start_report,
                covered == account_covers(start, da),
                da.external_paths@ == ext,
                da.internal_paths@ == internal,
                report.accounts == start_report.accounts,
                report.paths_added == start_report.paths_added + self.keychain.paths@.len() - start.keychain.paths@.len(),
                report.utxos_added == start_report.utxos_added + self.utxo_set.entries@.len() - start.utxo_set.entries@.len(),
                report.total_value_sat == capped(start_report.total_value_sat + value_sum(self.utxo_set.entries@) - value_sum(start.utxo_set.entries@)),
                self.keychain.paths@.len() - start.keychain.paths@.len() <= ext.len() + k,
                self.utxo_set.entries@ == start.utxo_set.entries@,
                start_report.paths_added + ext.len() + internal.len() <= usize::MAX,
                additions_from(start, *self, da),
            decreases internal.len() - k,
        {
            let p = internal_paths[k];
            if !self.keychain.contains_path(p) {
                let ghost before = *self;
                proof {
                    if covered {
                        assert(keychain_has(start, internal[k as int]));
                    }
                }
                self.keychain.push(LabeledDerivationPath { label: String::new(), derive_path: p });
                report.paths_added = report.paths_added + 1;
                proof {
                    let n = before.keychain.paths@.len() as int;
                    assert(self.keychain.paths@[n].derive_path == p);
                    assert(internal[k as int] == p);
                    assert(additions_from(start, *self, da)) by {
                        assert forall|m: int|
                            start.keychain.paths@.len() <= m < self.keychain.paths@.len() implies {
                            &&& (#[trigger] self.keychain.paths@[m]).label@ == Seq::<char>::empty()
                            &&& (da.external_paths@.contains(self.keychain.paths@[m].derive_path)
                                || da.internal_paths@.contains(self.keychain.paths@[m].derive_path))
                        } by {
                            if m < n {
                                assert(self.keychain.paths@[m] == before.keychain.paths@[m]);
                            }
                        }
                    }
                    assert forall|m: int| 0 <= m < ext.len() implies keychain_has(*self, #[trigger] ext[m]) by {
                        let j = choose|j: int| 0 <= j < before.keychain.paths@.len() && (#[trigger] before.keychain.paths@[j]).derive_path == ext[m];
                        assert(self.keychain.paths@[j] == before.keychain.paths@[j]);
                    }
                    assert forall|m: int| 0 <= m < k + 1 implies keychain_has(*self, #[trigger] internal[m]) by {
                        if m < k {
                            let j = choose|j: int| 0 <= j < before.keychain.paths@.len() && (#[trigger] before.keychain.paths@[j]).derive_path == internal[m];
                            assert(self.keychain.paths@[j] == before.keychain.paths@[j]);
                        }
                    }
                    lemma_account_extends_trans(start, before, *self);
                }
            }
            k = k + 1;
        }

        let mut rest = utxos;
        let ghost mut k: int = 0;
        assert(found.skip(0) =~= found);
        while rest.len() > 0
            invariant
                0 <= k <= found.len(),
                rest@ == found.skip(k),
                account_extends(start, *self),
                keys_distinct(self.utxo_set.entries@),
                forall|m: int| 0 <= m < ext.len() ==> keychain_has(*self, #[trigger] ext[m]),
                forall|m: int| 0 <= m < internal.len() ==> keychain_has(*self, #[trigger] internal[m]),
                forall|m: int| 0 <= m < k ==> utxos_have(*self, utxo_key(#[trigger] found[m])),
                covered ==> *self == start && *report == start_report,
                covered == account_covers(start, da),
                da.external_paths@ == ext,
                da.internal_paths@ == internal,
                da.utxos@ == found,
                report.accounts == start_report.accounts,
                report.paths_added == start_report.paths_added + self.keychain.paths@.len() - start.keychain.paths@.len(),
                report.utxos_added == start_report.utxos_added + self.utxo_set.entries@.len() - start.utxo_set.entries@.len(),
                report.total_value_sat == capped(start_report.total_value_sat + value_sum(self.utxo_set.entries@) - value_sum(start.utxo_set.entries@)),
                self.keychain.paths@.len() - start.keychain.paths@.len() <= ext.len() + internal.len(),
                self.utxo_set.entries@.len() - start.utxo_set.entries@.len() <= k,
                start_report.utxos_added + found.len() <= usize::MAX,
                additions_from(start, *self, da),
            decreases rest@.len(),
        {
            let u = rest.remove(0);
            proof {
                assert(u == found[k]);
                assert(found.skip(k).remove(0) =~= found.skip(k + 1));
            }
            let op = u.outpoint();
            if !self.utxo_set.contains_key(&op) {
                let ghost before = *self;
                let ghost total_before: int = start_report.total_value_sat + value_sum(before.utxo_set.entries@)
                    - value_sum(start.utxo_set.entries@);
                proof {
                    if covered {
                        assert(utxos_have(start, utxo_key(found[k])));
                    }
                    assert(report.total_value_sat == capped(total_before));
                    let sl = start.utxo_set.entries@.len() as int;
                    assert(before.utxo_set.entries@.take(sl) =~= start.utxo_set.entries@);
                    crate::chain::btc::account::lemma_value_sum_prefix(before.utxo_set.entries@, sl);
                    assert(total_before >= 0);
                }
                report.total_value_sat = report.total_value_sat.saturating_add(u.output.value);
                proof {
                    assert(report.total_value_sat == capped(total_before + u.output.value));
                }
                self.utxo_set.entries.push(u);
                report.utxos_added = report.utxos_added + 1;
                proof {
                    let n = before.utxo_set.entries@.len() as int;
                    assert(found[k] == u);
                    assert(additions_from(start, *self, da)) by {
                        assert forall|m: int|
                            start.utxo_set.entries@.len() <= m < self.utxo_set.entries@.len() implies da.utxos@.contains(
                            #[trigger] self.utxo_set.entries@[m],
                        ) by {
                            if m < n {
                                assert(self.utxo_set.entries@[m] == before.utxo_set.entries@[m]);
                            } else {
                                assert(self.utxo_set.entries@[m] == found[k]);
                            }
                        }
                    }
                    assert(utxo_key(self.utxo_set.entries@[n]) == utxo_key(found[k]));
                    assert(self.utxo_set.entries@.drop_last() =~= before.utxo_set.entries@);
                    assert(value_sum(self.utxo_set.entries@) == value_sum(before.utxo_set.entries@) + u.output.value);
                    assert forall|a: int, b: int|
                        0 <= a < self.utxo_set.entries@.len() && 0 <= b < self.utxo_set.entries@.len() && a != b
                            implies utxo_key(#[trigger] self.utxo_set.entries@[a]) != utxo_key(#[trigger] self.utxo_set.entries@[b]) by {
                        if a < n && b < n {
                            assert(utxo_key(before.utxo_set.entries@[a]) != utxo_key(before.utxo_set.entries@[b]));
                        } else if a == n {
                            assert(self.utxo_set.entries@[b] == before.utxo_set.entries@[b]);
                        } else {
                            assert(self.utxo_set.entries@[a] == before.utxo_set.entries@[a]);
                        }
                    }
                    assert forall|m: int| 0 <= m < ext.len() implies keychain_has(*self, #[trigger] ext[m]) by {
                        assert(self.keychain == before.keychain);
                    }
                    assert forall|m: int| 0 <= m < internal.len() implies keychain_has(*self, #[trigger] internal[m]) by {
                        assert(self.keychain == before.keychain);
                    }
                    assert forall|m: int| 0 <= m < k + 1 implies utxos_have(*self, utxo_key(#[trigger] found[m])) by {
                        if m < k {
                            let j = choose|j: int| 0 <= j < before.utxo_set.entries@.len() && utxo_key(#[trigger] before.utxo_set.entries@[j]) == utxo_key(found[m]);
                            assert(self.utxo_set.entries@[j] == before.utxo_set.entries@[j]);
                        }
                    }
                    lemma_account_extends_trans(start, before, *self);
                }
            }
            proof {
                k = k + 1;
            }
        }
        proof {
            assert(found.len() == k);
        }
    }
}

/// Number of derivation paths over all accounts.
pub open spec fn path_total(accounts: Seq<Account>) -> nat
    decreases accounts.len(),
{
    if accounts.len() == 0 {
        0
    } else {
        path_total(accounts.drop_last()) + accounts.last().keychain.paths@.len()
    }
}

/// Number of unspent outputs over all accounts.
pub open spec fn utxo_total(accounts: Seq<Account>) -> nat
    decreases accounts.len(),
{
    if accounts.len() == 0 {
        0
    } else {
        utxo_total(accounts.drop_last()) + accounts.last().utxo_set.entries@.len()
    }
}

/// Value of the unspent outputs over all accounts.
pub open spec fn value_total(accounts: Seq<Account>) -> nat
    decreases accounts.len(),
{
    if accounts.len() == 0 {
        0
    } else {
        value_total(accounts.drop_last()) + value_sum(accounts.last().utxo_set.entries@)
    }
}

proof fn lemma_totals_push(s: Seq<Account>, a: Account)
    ensures
        path_total(s.push(a)) == path_total(s) + a.keychain.paths@.len(),
        utxo_total(s.push(a)) == utxo_total(s) + a.utxo_set.entries@.len(),
        value_total(s.push(a)) == value_total(s) + value_sum(a.utxo_set.entries@),
{
    assert(s.push(a).drop_last() =~= s);
}

proof fn lemma_totals_update(s: Seq<Account>, j: int, a: Account)
    requires
        0 <= j < s.len(),
    ensures
        path_total(s.update(j, a)) == path_total(s) - s[j].keychain.paths@.len() + a.keychain.paths@.len(),
        utxo_total(s.update(j, a)) == utxo_total(s) - s[j].utxo_set.entries@.len() + a.utxo_set.entries@.len(),
        value_total(s.update(j, a)) == value_total(s) - value_sum(s[j].utxo_set.entries@) + value_sum(
            a.utxo_set.entries@,
        ),
    decreases s.len(),
{
    let n = s.len() - 1;
    if j == n {
        assert(s.update(j, a).drop_last() =~= s.drop_last());
    } else {
        assert(s.update(j, a).drop_last() =~= s.drop_last().update(j, a));
        lemma_totals_update(s.drop_last(), j, a);
    }
}

/// Saturating twice is saturating once.
proof fn lemma_capped_add(a: int, d: int)
    requires
        a >= 0,
        d >= 0,
    ensures
        capped(capped(a) + d) == capped(a + d),
{
}

/// An extended account holds at least the value it held.
proof fn lemma_extends_value(a: Account, b: Account)
    requires
        account_extends(a, b),
    ensures
        value_sum(a.utxo_set.entries@) <= value_sum(b.utxo_set.entries@),
{
    let n = a.utxo_set.entries@.len() as int;
    assert(b.utxo_set.entries@.take(n) =~= a.utxo_set.entries@);
    crate::chain::btc::account::lemma_value_sum_prefix(b.utxo_set.entries@, n);
}

/// What a merge of a discovery into a wallet's accounts guarantees: every
/// discovered account, path and output is there afterwards, nothing that was
/// there is lost, the report counts the paths added to existing keychains
/// (not the main path an account is created with), the outputs added and
/// their value (saturated), and where everything was already there nothing
/// changes and nothing is counted.
pub open spec fn discovery_merged(
    before: Seq<Account>,
    after: Seq<Account>,
    d: Seq<DiscoveredAccount>,
    report: DiscoveryReport,
) -> bool {
    &&& discovery_applied(after, d)
    &&& accounts_extend(before, after)
    &&& (all_keys_distinct(before) ==> all_keys_distinct(after))
    &&& (discovery_applied(before, d) ==> after == before && report.paths_added == 0
        && report.utxos_added == 0 && report.total_value_sat == 0)
    &&& report.paths_added == path_total(after) - path_total(before) - (after.len() - before.len())
    &&& report.utxos_added == utxo_total(after) - utxo_total(before)
    &&& report.total_value_sat == capped(value_total(after) - value_total(before))
    &&& forall|i: int| 0 <= i < d.len() ==> report.accounts@.contains((#[trigger] d[i]).index)
    &&& forall|k: int|
        0 <= k < report.accounts@.len() ==> exists|i: int|
            0 <= i < d.len() && (#[trigger] d[i]).index == #[trigger] report.accounts@[k]
    &&& report.accounts@.no_duplicates()
}

/// After a merge of the next discovered account, the accounts hold the
/// discovery one entry further.
proof fn lemma_applied_step(before: Seq<Account>, after: Seq<Account>, all: Seq<DiscoveredAccount>, i: int)
    requires
        0 <= i < all.len(),
        accounts_extend(before, after),
        discovery_applied(before, all.take(i)),
        account_position(after, all[i].index) matches Some(j) && account_covers(after[j], all[i]),
    ensures
        discovery_applied(after, all.take(i + 1)),
{
    lemma_applied_extends(before, after, all.take(i));
    assert forall|m: int| 0 <= m < i + 1 implies match account_position(after, (#[trigger] all.take(i + 1)[m]).index) {
        Some(j) => account_covers(after[j], all.take(i + 1)[m]),
        None => false,
    } by {
        if m < i {
            assert(all.take(i + 1)[m] == all.take(i)[m]);
        }
    }
}

/// The report lists each account of a discovery prefix once, and only those.
proof fn lemma_report_accounts_step(
    before: Seq<AccountIndex>,
    after: Seq<AccountIndex>,
    all: Seq<DiscoveredAccount>,
    i: int,
)
    requires
        0 <= i < all.len(),
        forall|m: int| 0 <= m < i ==> before.contains((#[trigger] all[m]).index),
        forall|k: int|
            0 <= k < before.len() ==> exists|m: int|
                0 <= m < i && (#[trigger] all[m]).index == #[trigger] before[k],
        after == (if before.contains(all[i].index) {
            before
        } else {
            before.push(all[i].index)
        }),
    ensures
        forall|m: int| 0 <= m < i + 1 ==> after.contains((#[trigger] all[m]).index),
        forall|k: int|
            0 <= k < after.len() ==> exists|m: int|
                0 <= m < i + 1 && (#[trigger] all[m]).index == #[trigger] after[k],
{
    assert forall|m: int| 0 <= m < i + 1 implies after.contains((#[trigger] all[m]).index) by {
        if m < i {
            let q = choose|q: int| 0 <= q < before.len() && before[q] == all[m].index;
            assert(after[q] == before[q]);
        } else if !before.contains(all[i].index) {
            assert(after[before.len() as int] == all[i].index);
        }
    }
    assert forall|k: int| 0 <= k < after.len() implies exists|m: int|
        0 <= m < i + 1 && (#[trigger] all[m]).index == #[trigger] after[k] by {
        if k < before.len() {
            assert(after[k] == before[k]);
            let m = choose|m: int| 0 <= m < i && (#[trigger] all[m]).index == before[k];
            assert(all[m].index == after[k]);
        } else {
            assert(all[i].index == after[k]);
        }
    }
}

impl BitcoinWallet {
    /// Merge a discovery result into the in-memory wallet. Idempotent: paths
    /// and UTXOs already present are left untouched, accounts are inserted
    /// only when missing. Returns a summary of what was added.
    #[verifier::rlimit(40)]
    pub fn apply_discovery(&mut self, discovered: Vec<DiscoveredAccount>) -> (report: DiscoveryReport)
        requires
            all_keys_distinct(old(self).accounts@),
            discovered_path_count(discovered@) <= usize::MAX,
            discovered_utxo_count(discovered@) <= usize::MAX,
        ensures
            discovery_merged(old(self).accounts@, final(self).accounts@, discovered@, report),
            only_discovered(old(self).accounts@, final(self).accounts@, discovered@, network_of(old(self).config.regtest)),
            report.accounts@ == indices_in_order(discovered@),
            final(self).active_account == old(self).active_account,
            final(self).config == old(self).config,
    {
        let network = self.config.network();
        let mut report = DiscoveryReport { accounts: Vec::new(), paths_added: 0, utxos_added: 0, total_value_sat: 0 };
        let ghost all = discovered@;
        let ghost start = self.accounts@;
        let ghost covered = discovery_applied(start, all);
        let mut rest = discovered;
        let ghost mut i: int = 0;
        assert(all.skip(0) =~= all);
        assert(all.take(0) =~= Seq::<DiscoveredAccount>::empty());
        proof {
            reveal(only_discovered);
        }
        while rest.len() > 0
            invariant
                0 <= i <= all.len(),
                rest@ == all.skip(i),
                accounts_extend(start, self.accounts@),
                all_keys_distinct(self.accounts@),
                discovery_applied(self.accounts@, all.take(i)),
                covered == discovery_applied(start, all),
                covered ==> self.accounts@ == start && report.paths_added == 0 && report.utxos_added == 0
                    && report.total_value_sat == 0,
                self.active_account == old(self).active_account,
                self.config == old(self).config,
                report.paths_added <= discovered_path_count(all.take(i)),
                report.utxos_added <= discovered_utxo_count(all.take(i)),
                discovered_path_count(all) <= usize::MAX,
                discovered_utxo_count(all) <= usize::MAX,
                forall|m: int| 0 <= m < i ==> report.accounts@.contains((#[trigger] all[m]).index),
                forall|k: int|
                    0 <= k < report.accounts@.len() ==> exists|m: int|
                        0 <= m < i && (#[trigger] all[m]).index == #[trigger] report.accounts@[k],
                report.accounts@.no_duplicates(),
                network == network_of(self.config.regtest),
                start.len() <= self.accounts@.len(),
                value_total(start) <= value_total(self.accounts@),
                report.paths_added == path_total(self.accounts@) - path_total(start) - (
                self.accounts@.len() - start.len()),
                report.utxos_added == utxo_total(self.accounts@) - utxo_total(start),
                report.total_value_sat == capped(value_total(self.accounts@) - value_total(start)),
                only_discovered(start, self.accounts@, all.take(i), network),
                report.accounts@ == indices_in_order(all.take(i)),
            decreases rest@.len(),
        {
            let da = rest.remove(0);
            let ghost before = self.accounts@;
            let ghost report_before = report;
            proof {
                assert(da == all[i]);
                assert(all.skip(i).remove(0) =~= all.skip(i + 1));
                lemma_counts_prefix(all, i + 1);
                if covered {
                    assert(discovery_applied(start, all));
                    assert(all[i] == da);
                }
            }
            self.merge_one(da, network, &mut report);
            proof {
                let after = self.accounts@;
                lemma_extends_trans_seq(start, before, after);
                lemma_applied_step(before, after, all, i);
                lemma_report_accounts_step(report_before.accounts@, report.accounts@, all, i);
                lemma_capped_add(value_total(before) - value_total(start), value_total(after) - value_total(before));
                lemma_only_discovered_step(start, before, after, all, i, network);
                assert(all.take(i + 1).drop_last() =~= all.take(i));
                assert(all.take(i + 1).last() == all[i]);
                i = i + 1;
            }
        }
        proof {
            assert(all.take(i) =~= all);
        }
        report
    }

    /// Merges one discovered account: creates it when missing, then adds
    /// the paths and outputs it does not hold yet.
    fn merge_one(&mut self, da: DiscoveredAccount, network: Network, report: &mut DiscoveryReport)
        requires
            all_keys_distinct(old(self).accounts@),
            network == network_of(old(self).config.regtest),
            old(report).paths_added + da.external_paths@.len() + da.internal_paths@.len() <= usize::MAX,
            old(report).utxos_added + da.utxos@.len() <= usize::MAX,
            old(report).accounts@.no_duplicates(),
        ensures
            accounts_extend(old(self).accounts@, final(self).accounts@),
            all_keys_distinct(final(self).accounts@),
            (account_position(final(self).accounts@, da.index) matches Some(j) && account_covers(
                final(self).accounts@[j],
                da,
            )),
            (account_position(old(self).accounts@, da.index) matches Some(j) && account_covers(
                old(self).accounts@[j],
                da,
            )) ==> final(self).accounts@ == old(self).accounts@ && final(report).paths_added == old(
                report,
            ).paths_added && final(report).utxos_added == old(report).utxos_added
                && final(report).total_value_sat == old(report).total_value_sat,
            final(self).active_account == old(self).active_account,
            final(self).config == old(self).config,
            final(report).paths_added <= old(report).paths_added + da.external_paths@.len()
                + da.internal_paths@.len(),
            final(report).utxos_added <= old(report).utxos_added + da.utxos@.len(),
            final(self).accounts@.len() - old(self).accounts@.len() <= 1,
            final(report).paths_added == old(report).paths_added + path_total(final(self).accounts@)
                - path_total(old(self).accounts@) - (final(self).accounts@.len() - old(self).accounts@.len()),
            final(report).utxos_added == old(report).utxos_added + utxo_total(final(self).accounts@)
                - utxo_total(old(self).accounts@),
            value_total(old(self).accounts@) <= value_total(final(self).accounts@),
            final(report).total_value_sat == capped(
                old(report).total_value_sat + value_total(final(self).accounts@) - value_total(
                    old(self).accounts@,
                ),
            ),
            final(report).accounts@ == (if old(report).accounts@.contains(da.index) {
                old(report).accounts@
            } else {
                old(report).accounts@.push(da.index)
            }),
            final(report).accounts@.no_duplicates(),
            merge_step(old(self).accounts@, final(self).accounts@, da, network),
    {
        let index = da.index;
        let ghost before = self.accounts@;
        proof {
            lemma_account_position(before, index);
        }
        let pos = match self.find_account_position(index) {
            Some(pos) => pos,
            None => {
                let mut name = "Account ".to_owned();
                push_decimal(&mut name, index as u64);
                self.accounts.push(Account::new(network, index, name));
                proof {
                    let n = before.len() as int;
                    assert(self.accounts@[n].index == index);
                    assert(accounts_extend(before, self.accounts@)) by {
                        assert forall|j: int| 0 <= j < before.len() implies account_extends(before[j], #[trigger] self.accounts@[j]) by {
                            assert(self.accounts@[j] == before[j]);
                        }
                    }
                    assert forall|j: int| 0 <= j < n implies (#[trigger] self.accounts@[j]).index != index by {
                        assert(self.accounts@[j] == before[j]);
                    }
                    lemma_account_position(self.accounts@, index);
                    assert forall|j: int| 0 <= j < self.accounts@.len() implies keys_distinct(#[trigger] self.accounts@[j].utxo_set.entries@) by {
                        if j < n {
                            assert(self.accounts@[j] == before[j]);
                            assert(keys_distinct(before[j].utxo_set.entries@));
                        } else {
                            assert(self.accounts@[j].utxo_set.entries@.len() == 0);
                        }
                    }
                }
                self.accounts.len() - 1
            },
        };
        let ghost mid = self.accounts@;
        let ghost da_view = da;
        proof {
            lemma_account_position(before, index);
        }
        if !contains_index(&report.accounts, index) {
            report.accounts.push(index);
        }
        let ghost report_mid = *report;
        self.accounts[pos].merge_discovered(da, report);
        proof {
            let after = self.accounts@;
            assert(keys_distinct(after[pos as int].utxo_set.entries@));
            lemma_totals_update(mid, pos as int, after[pos as int]);
            if mid.len() > before.len() {
                assert(mid =~= before.push(mid.last()));
                lemma_totals_push(before, mid.last());
            } else {
                assert(mid =~= before);
            }
            assert(after =~= mid.update(pos as int, after[pos as int]));
            assert(accounts_extend(mid, after)) by {
                assert forall|j: int| 0 <= j < mid.len() implies account_extends(mid[j], #[trigger] after[j]) by {
                    if j != pos {
                        assert(after[j] == mid[j]);
                    }
                }
            }
            lemma_extends_trans_seq(before, mid, after);
            lemma_position_extends(mid, after, index);
            lemma_extends_value(mid[pos as int], after[pos as int]);
            assert forall|j: int| 0 <= j < after.len() implies keys_distinct(#[trigger] after[j].utxo_set.entries@) by {
                if j != pos {
                    assert(after[j] == mid[j]);
                    assert(keys_distinct(mid[j].utxo_set.entries@));
                }
            }
            assert forall|j: int|
                0 <= j < before.len() && account_position(before, da_view.index) != Some(j) implies #[trigger] after[j]
                    == before[j] by {
                if mid.len() > before.len() {
                    assert(j != pos);
                } else {
                    assert(account_position(before, index) == Some(pos as int));
                    assert(j != pos);
                }
                assert(after[j] == mid[j]);
                assert(mid[j] == before[j]);
            }
            if mid.len() > before.len() {
                assert(account_position(before, index) is None);
                assert(after.last() == after[pos as int]);
                assert(additions_from(mid[pos as int], after.last(), da_view));
            }
        }
    }

    /// Position of the first account with the given index.
    fn find_account_position(&self, index: u32) -> (pos: Option<usize>)
        ensures
            pos matches Some(j) ==> j < self.accounts@.len() && account_position(self.accounts@, index) == Some(j as int),
            pos is None ==> account_position(self.accounts@, index) is None,
    {
        let mut j: usize = 0;
        while j < self.accounts.len()
            invariant
                j <= self.accounts@.len(),
                forall|k: int| 0 <= k < j ==> (#[trigger] self.accounts@[k]).index != index,
            decreases self.accounts@.len() - j,
        {
            if self.accounts[j].index == index {
                return Some(j);
            }
            j = j + 1;
        }
        None
    }
}

/// Whether a list of account indices holds an index.
fn contains_index(indices: &Vec<AccountIndex>, index: AccountIndex) -> (found: bool)
    ensures
        found == indices@.contains(index),
{
    let mut j: usize = 0;
    while j < indices.len()
        invariant
            j <= indices@.len(),
            forall|k: int| 0 <= k < j ==> indices@[k] != index,
        decreases indices@.len() - j,
    {
        if indices[j] == index {
            return true;
        }
        j = j + 1;
    }
    false
}

proof fn lemma_extends_trans_seq(a: Seq<Account>, b: Seq<Account>, c: Seq<Account>)
    requires
        accounts_extend(a, b),
        accounts_extend(b, c),
    ensures
        accounts_extend(a, c),
{
    assert forall|j: int| 0 <= j < a.len() implies account_extends(a[j], #[trigger] c[j]) by {
        assert(account_extends(a[j], b[j]));
        assert(account_extends(b[j], c[j]));
        lemma_account_extends_trans(a[j], b[j], c[j]);
    }
}

/// The counts of a prefix of a discovery, and of one more entry.
proof fn lemma_counts_prefix(d: Seq<DiscoveredAccount>, k: int)
    requires
        0 < k <= d.len(),
    ensures
        discovered_path_count(d.take(k)) == discovered_path_count(d.take(k - 1)) + d[k - 1].external_paths@.len() + d[k - 1].internal_paths@.len(),
        discovered_utxo_count(d.take(k)) == discovered_utxo_count(d.take(k - 1)) + d[k - 1].utxos@.len(),
        discovered_path_count(d.take(k)) <= discovered_path_count(d),
        discovered_utxo_count(d.take(k)) <= discovered_utxo_count(d),
    decreases d.len(),
{
    assert(d.take(k).drop_last() =~= d.take(k - 1));
    if k < d.len() {
        assert(d.drop_last().take(k) =~= d.take(k));
        lemma_counts_prefix(d.drop_last(), k);
    } else {
        assert(d.take(k) =~= d);
    }
}

/// Applying the same discovery a second time changes nothing: once a merge
/// has put every discovered account, path and output into the wallet, a
/// second merge of it adds no account, path or output and reports nothing
/// added.
pub proof fn lemma_apply_discovery_idempotent(
    start: Seq<Account>,
    first: Seq<Account>,
    second: Seq<Account>,
    d: Seq<DiscoveredAccount>,
    first_report: DiscoveryReport,
    second_report: DiscoveryReport,
)
    requires
        discovery_merged(start, first, d, first_report),
        discovery_merged(first, second, d, second_report),
    ensures
        second == first,
        second_report.paths_added == 0,
        second_report.utxos_added == 0,
        second_report.total_value_sat == 0,
{
}

} // verus!
