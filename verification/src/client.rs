//! The decisions of the client's request loop: whom to ask, when to stop,
//! and how the block heights move on.  The loop itself, with its requests,
//! clock and sleeps, runs outside; it hands each event to `ClientState`
//! and does what comes back.

use vstd::prelude::*;

verus! {

/// Why the experiment ended.
#[derive(Clone, Copy, PartialEq, Eq, Structural, Debug)]
pub enum EndReason {
    /// The time limit was reached.
    TimeLimit,
    /// The arrival log holds at least the requested number of transactions.
    MaxTxCount,
}

pub open spec fn spec_end_reason_text(r: EndReason) -> Seq<char> {
    match r {
        EndReason::TimeLimit => "time_limit"@,
        EndReason::MaxTxCount => "max_tx_count"@,
    }
}

impl EndReason {
    /// The name under which the experiment's metadata records the reason.
    pub fn as_str(&self) -> (r: &'static str)
        ensures
            r@ == spec_end_reason_text(*self),
    {
        match self {
            EndReason::TimeLimit => "time_limit",
            EndReason::MaxTxCount => "max_tx_count",
        }
    }
}

/// How far behind the chain's head the leader-change request reports the
/// platform block height.
pub const PLATFORM_HEIGHT_LAG: u64 = 3;

/// The fixed settings of a run.
#[derive(Clone, Copy, Debug)]
pub struct ClientConfig {
    /// Stop once the arrival log holds this many transactions.
    pub max_tx_count: usize,
    /// The number of transaction orderers, which take turns as leader.
    pub orderer_count: usize,
    /// Seconds between two blocks of the platform chain.
    pub l1_block_generation_interval_secs: u64,
    /// Seconds between two rounds of the loop.
    pub block_generation_interval_secs: u64,
}

/// The state of the loop, as numbers.
pub struct ClientView {
    pub max_tx_count: nat,
    pub orderer_count: nat,
    /// Rounds per platform block.
    pub rounds_per_platform_block: nat,
    pub rollup_block_height: nat,
    pub platform_block_height: nat,
    pub block_generation_count: nat,
    pub cumulative_tx_count: nat,
    pub arrival_log_len: nat,
}

/// What a round asks for.
#[derive(Clone, Copy, Debug, PartialEq, Eq, Structural)]
pub struct RoundPlan {
    /// The rollup block height of this round.
    pub rollup_block_height: usize,
    /// The platform block height that the loop has reached.
    pub platform_block_height: u64,
    /// The platform block height that the request reports,
    /// `PLATFORM_HEIGHT_LAG` behind; `None` where the loop has not yet reached
    /// `PLATFORM_HEIGHT_LAG`, so that the difference would be negative.
    pub reported_platform_block_height: Option<u64>,
    /// The orderer that leads this round, and that the request goes to.
    pub current_leader_index: usize,
    /// The orderer that leads the next round.
    pub next_leader_index: usize,
}

/// What to do at the start of a round.
#[derive(Clone, Copy, Debug, PartialEq, Eq, Structural)]
pub enum RoundStart {
    /// End the experiment.
    Stop(EndReason),
    /// Send the leader-change request.
    Request(RoundPlan),
}

/// What came back from a round's request.
#[derive(Clone, Copy, Debug, PartialEq, Eq, Structural)]
pub enum RoundOutcome {
    /// A reply with `tx_count` transactions (zero where it held no list).
    Delivered { tx_count: usize },
    /// The request failed.
    Failed,
}

/// What the loop does after a round.
pub open spec fn spec_after_round(v: ClientView, outcome: RoundOutcome) -> (ClientView, Option<EndReason>) {
    match outcome {
        RoundOutcome::Delivered { tx_count } => {
            let w = ClientView {
                cumulative_tx_count: v.cumulative_tx_count + tx_count as nat,
                arrival_log_len: v.arrival_log_len + tx_count as nat,
                rollup_block_height: v.rollup_block_height + 1,
                ..v
            };
            if w.arrival_log_len >= w.max_tx_count {
                (w, Some(EndReason::MaxTxCount))
            } else {
                (spec_advance_block_generation(w), None)
            }
        },
        RoundOutcome::Failed => (spec_advance_block_generation(v), None),
    }
}

/// The end of a round that goes on: after `rounds_per_platform_block`
/// rounds the platform block height moves on by one.
pub open spec fn spec_advance_block_generation(v: ClientView) -> ClientView {
    if v.block_generation_count == v.rounds_per_platform_block {
        ClientView {
            block_generation_count: 1,
            platform_block_height: v.platform_block_height + 1,
            ..v
        }
    } else {
        ClientView { block_generation_count: v.block_generation_count + 1, ..v }
    }
}

/// Whether the numbers of a round's end fit their types.
pub open spec fn spec_round_fits(v: ClientView, outcome: RoundOutcome) -> bool {
    let n: nat = match outcome {
        RoundOutcome::Delivered { tx_count } => tx_count as nat,
        RoundOutcome::Failed => 0,
    };
    &&& v.cumulative_tx_count + n <= usize::MAX
    &&& v.rollup_block_height < usize::MAX
    &&& v.block_generation_count < u64::MAX
    &&& (v.block_generation_count == v.rounds_per_platform_block ==> v.platform_block_height
        < u64::MAX)
}

/// The state of the client's loop.
pub struct ClientState {
    config: ClientConfig,
    rounds_per_platform_block: u64,
    rollup_block_height: usize,
    platform_block_height: u64,
    block_generation_count: u64,
    cumulative_tx_count: usize,
    arrival_log_len: usize,
}

impl View for ClientState {
    type V = ClientView;

    closed spec fn view(&self) -> ClientView {
        ClientView {
            max_tx_count: self.config.max_tx_count as nat,
            orderer_count: self.config.orderer_count as nat,
            rounds_per_platform_block: self.rounds_per_platform_block as nat,
            rollup_block_height: self.rollup_block_height as nat,
            platform_block_height: self.platform_block_height as nat,
            block_generation_count: self.block_generation_count as nat,
            cumulative_tx_count: self.cumulative_tx_count as nat,
            arrival_log_len: self.arrival_log_len as nat,
        }
    }
}

/// What holds of the loop's state between rounds: every transaction
/// counted is in the arrival log, there is an orderer to lead, and the
/// round counter stays within a platform block.
pub open spec fn spec_client_wf(v: ClientView) -> bool {
    &&& v.cumulative_tx_count == v.arrival_log_len
    &&& v.orderer_count > 0
    &&& v.rollup_block_height >= 1
    &&& (v.rounds_per_platform_block > 0 ==> v.block_generation_count
        <= v.rounds_per_platform_block)
}

impl ClientState {
    pub open spec fn wf(&self) -> bool {
        spec_client_wf(self@)
    }

    /// The state before the first round, at the platform block height that
    /// the chain reported.
    pub fn new(config: ClientConfig, platform_block_height: u64) -> (r: Self)
        requires
            config.orderer_count > 0,
            config.block_generation_interval_secs > 0,
        ensures
            r@ == (ClientView {
                max_tx_count: config.max_tx_count as nat,
                orderer_count: config.orderer_count as nat,
                rounds_per_platform_block: (config.l1_block_generation_interval_secs
                    / config.block_generation_interval_secs) as nat,
                rollup_block_height: 1,
                platform_block_height: platform_block_height as nat,
                block_generation_count: 0,
                cumulative_tx_count: 0,
                arrival_log_len: 0,
            }),
            r.wf(),
    {
        ClientState {
            config,
            rounds_per_platform_block: config.l1_block_generation_interval_secs
                / config.block_generation_interval_secs,
            rollup_block_height: 1,
            platform_block_height,
            block_generation_count: 0,
            cumulative_tx_count: 0,
            arrival_log_len: 0,
        }
    }

    /// The number of transactions received so far.
    pub fn cumulative_tx_count(&self) -> (r: usize)
        ensures
            r == self@.cumulative_tx_count,
    {
        self.cumulative_tx_count
    }

    /// The number of transactions in the arrival log.
    pub fn arrival_log_len(&self) -> (r: usize)
        ensures
            r == self@.arrival_log_len,
    {
        self.arrival_log_len
    }

    /// The current rollup block height.
    pub fn rollup_block_height(&self) -> (r: usize)
        ensures
            r == self@.rollup_block_height,
    {
        self.rollup_block_height
    }

    /// The platform block height that the loop has reached.
    pub fn platform_block_height(&self) -> (r: u64)
        ensures
            r == self@.platform_block_height,
    {
        self.platform_block_height
    }

    /// The start of a round: stop when the time limit is reached, else the
    /// request to send, led by orderer `rollup_block_height % orderer_count`.
    pub fn start_round(&self, time_limit_reached: bool) -> (r: RoundStart)
        requires
            self.wf(),
        ensures
            time_limit_reached ==> r == RoundStart::Stop(EndReason::TimeLimit),
            !time_limit_reached ==> r == RoundStart::Request(
                RoundPlan {
                    rollup_block_height: self@.rollup_block_height as usize,
                    platform_block_height: self@.platform_block_height as u64,
                    reported_platform_block_height: if self@.platform_block_height
                        >= PLATFORM_HEIGHT_LAG {
                        Some((self@.platform_block_height - PLATFORM_HEIGHT_LAG) as u64)
                    } else {
                        None
                    },
                    current_leader_index: (self@.rollup_block_height % self@.orderer_count) as usize,
                    next_leader_index: ((self@.rollup_block_height % self@.orderer_count + 1)
                        % self@.orderer_count) as usize,
                },
            ),
    {
        if time_limit_reached {
            return RoundStart::Stop(EndReason::TimeLimit);
        }
        let n = self.config.orderer_count;
        let current = self.rollup_block_height % n;
        let next = (current + 1) % n;
        RoundStart::Request(
            RoundPlan {
                rollup_block_height: self.rollup_block_height,
                platform_block_height: self.platform_block_height,
                reported_platform_block_height: self.platform_block_height.checked_sub(
                    PLATFORM_HEIGHT_LAG,
                ),
                current_leader_index: current,
                next_leader_index: next,
            },
        )
    }

    /// Whether the numbers of the end of a round with `outcome` fit their
    /// types.
    pub fn round_fits(&self, outcome: &RoundOutcome) -> (r: bool)
        ensures
            r == spec_round_fits(self@, *outcome),
    {
        let n: usize = match outcome {
            RoundOutcome::Delivered { tx_count } => *tx_count,
            RoundOutcome::Failed => 0,
        };
        self.cumulative_tx_count <= usize::MAX - n && self.rollup_block_height < usize::MAX
            && self.block_generation_count < u64::MAX && (self.block_generation_count
            != self.rounds_per_platform_block || self.platform_block_height < u64::MAX)
    }

    /// The end of a round: counts what was delivered, stops once the arrival
    /// log holds `max_tx_count` transactions, and otherwise moves the block
    /// counters on.
    pub fn finish_round(&mut self, outcome: RoundOutcome) -> (r: Option<EndReason>)
        requires
            old(self).wf(),
            spec_round_fits(old(self)@, outcome),
        ensures
            (final(self)@, r) == spec_after_round(old(self)@, outcome),
            final(self).wf(),
    {
        match outcome {
            RoundOutcome::Delivered { tx_count } => {
                self.cumulative_tx_count = self.cumulative_tx_count + tx_count;
                self.arrival_log_len = self.arrival_log_len + tx_count;
                self.rollup_block_height = self.rollup_block_height + 1;
                if self.arrival_log_len >= self.config.max_tx_count {
                    return Some(EndReason::MaxTxCount);
                }
            },
            RoundOutcome::Failed => {},
        }
        if self.block_generation_count == self.rounds_per_platform_block {
            self.block_generation_count = 0;
            self.platform_block_height = self.platform_block_height + 1;
        }
        self.block_generation_count = self.block_generation_count + 1;
        None
    }
}

/// Every round that goes on moves the block counters on in the same way,
/// whether its request delivered transactions or failed: the round counter
/// goes up by one, and when it had reached `rounds_per_platform_block` it
/// starts again at one and the platform block height goes up by one.
pub proof fn law_every_round_advances_blocks(v: ClientView, outcome: RoundOutcome)
    requires
        spec_after_round(v, outcome).1 is None,
    ensures
        ({
            let w = spec_after_round(v, outcome).0;
            let f = spec_after_round(v, RoundOutcome::Failed).0;
            &&& w.block_generation_count == f.block_generation_count
            &&& w.platform_block_height == f.platform_block_height
            &&& if v.block_generation_count == v.rounds_per_platform_block {
                &&& w.block_generation_count == 1
                &&& w.platform_block_height == v.platform_block_height + 1
            } else {
                &&& w.block_generation_count == v.block_generation_count + 1
                &&& w.platform_block_height == v.platform_block_height
            }
        }),
{
}

/// A delivered round counts its transactions and moves the rollup height
/// on; it ends the run exactly when the arrival log then holds at least
/// `max_tx_count` transactions.  A failed round never ends the run and
/// changes neither count.
pub proof fn law_round_counts(v: ClientView, outcome: RoundOutcome)
    ensures
        ({
            let (w, stop) = spec_after_round(v, outcome);
            match outcome {
                RoundOutcome::Delivered { tx_count } => {
                    &&& w.cumulative_tx_count == v.cumulative_tx_count + tx_count
                    &&& w.arrival_log_len == v.arrival_log_len + tx_count
                    &&& w.rollup_block_height == v.rollup_block_height + 1
                    &&& (stop == Some(EndReason::MaxTxCount) <==> v.arrival_log_len + tx_count
                        >= v.max_tx_count)
                    &&& (stop is None <==> v.arrival_log_len + tx_count < v.max_tx_count)
                },
                RoundOutcome::Failed => {
                    &&& stop is None
                    &&& w.cumulative_tx_count == v.cumulative_tx_count
                    &&& w.arrival_log_len == v.arrival_log_len
                    &&& w.rollup_block_height == v.rollup_block_height
                },
            }
        }),
{
}

/// The state after `k` more rounds that go on.
pub open spec fn spec_advance_rounds(v: ClientView, k: nat) -> ClientView
    decreases k,
{
    if k == 0 {
        v
    } else {
        spec_advance_rounds(spec_advance_block_generation(v), (k - 1) as nat)
    }
}

pub proof fn lemma_advance_compose(v: ClientView, a: nat, b: nat)
    ensures
        spec_advance_rounds(v, a + b) == spec_advance_rounds(spec_advance_rounds(v, a), b),
    decreases a,
{
    if a > 0 {
        lemma_advance_compose(spec_advance_block_generation(v), (a - 1) as nat, b);
        assert((a + b - 1) as nat == (a - 1) as nat + b);
    }
}

pub proof fn lemma_advance_within_block(v: ClientView, k: nat)
    requires
        v.block_generation_count + k <= v.rounds_per_platform_block,
    ensures
        spec_advance_rounds(v, k) == (ClientView {
            block_generation_count: v.block_generation_count + k,
            ..v
        }),
    decreases k,
{
    if k > 0 {
        let w = spec_advance_block_generation(v);
        lemma_advance_within_block(w, (k - 1) as nat);
    }
}

/// The platform block height moves on by exactly one in every run of
/// `rounds_per_platform_block` rounds that go on, and the round counter
/// comes back to where it was.
pub proof fn law_platform_height_per_cycle(v: ClientView)
    requires
        v.rounds_per_platform_block >= 1,
        1 <= v.block_generation_count <= v.rounds_per_platform_block,
    ensures
        spec_advance_rounds(v, v.rounds_per_platform_block).platform_block_height
            == v.platform_block_height + 1,
        spec_advance_rounds(v, v.rounds_per_platform_block).block_generation_count
            == v.block_generation_count,
{
    let r = v.rounds_per_platform_block;
    let c = v.block_generation_count;
    let a = (r - c) as nat;
    lemma_advance_within_block(v, a);
    let w = spec_advance_rounds(v, a);
    assert(w.block_generation_count == r);
    let x = spec_advance_block_generation(w);
    assert(x.block_generation_count == 1);
    assert(x.platform_block_height == v.platform_block_height + 1);
    assert(spec_advance_rounds(w, 1) == x) by {
        assert(spec_advance_rounds(x, 0) == x);
    }
    let b = (c - 1) as nat;
    lemma_advance_within_block(x, b);
    lemma_advance_compose(v, a, 1);
    lemma_advance_compose(v, a + 1, b);
    assert(a + 1 + b == r);
}

/// The leader of a round is the next leader named by the round before when
/// that round was delivered, and the same leader when it failed.
pub proof fn law_leader_rotation(v: ClientView, outcome: RoundOutcome)
    requires
        spec_client_wf(v),
        spec_after_round(v, outcome).1 is None,
    ensures
        ({
            let w = spec_after_round(v, outcome).0;
            let n = v.orderer_count;
            match outcome {
                RoundOutcome::Delivered { .. } => w.rollup_block_height % n == (
                v.rollup_block_height % n + 1) % n,
                RoundOutcome::Failed => w.rollup_block_height % n == v.rollup_block_height % n,
            }
        }),
{
    let n = v.orderer_count as int;
    let h = v.rollup_block_height as int;
    vstd::arithmetic::div_mod::lemma_add_mod_noop(h, 1, n);
    vstd::arithmetic::div_mod::lemma_mod_twice(1, n);
    if n > 1 {
        vstd::arithmetic::div_mod::lemma_small_mod(1, n as nat);
    }
    vstd::arithmetic::div_mod::lemma_add_mod_noop(h % n, 1, n);
    vstd::arithmetic::div_mod::lemma_mod_twice(h, n);
}

} // verus!
