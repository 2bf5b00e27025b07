//! The follower dissemination router: decides, for each ordering
//! protocol event, which followers must receive a forwarded copy.
//!
//! Pre-prepares are large, so their forwarding cost is shared: each
//! non-primary replica covers only a window of the follower list,
//! computed by a deterministic, coordination-free target selection.
//! Prepares and commits are small, so a replica forwards its own to
//! every follower. The router hands back explicit broadcast decisions;
//! performing the sends is the hosting thread's business.

use vstd::prelude::*;
use vstd::arithmetic::div_mod::{
    lemma_add_mod_noop, lemma_div_is_ordered_by_denominator, lemma_div_multiples_vanish,
    lemma_fundamental_div_mod, lemma_mod_bound, lemma_small_mod,
};
use crate::types::{NodeId, StoredMessage, SystemMessage, ViewInfo};

verus! {

/// An ordering-protocol event delivered to the router.
pub enum FollowerEvent {
    /// Reserved for dispatch to the consensus-message handlers; not
    /// yet wired to them.
    ReceivedConsensusMsg(ViewInfo, StoredMessage),
    /// A view-change message, forwarded verbatim to all followers.
    ReceivedViewChangeMsg(StoredMessage),
}

/// A broadcast the router asks its host to perform: this message, to
/// exactly these targets.
pub struct BroadcastDecision {
    pub message: SystemMessage,
    pub targets: Vec<NodeId>,
}

/// Own id renumbered into a dense 0-based range over the non-primary
/// replicas: ids above the primary's shift down by one, closing the
/// gap the primary's exclusion leaves.
pub open spec fn local_index(own_id: int, primary: int) -> int {
    if own_id > primary {
        own_id - 1
    } else {
        own_id
    }
}

/// Inverse of the renumbering: the replica id holding a given dense
/// local index.
pub open spec fn unrenumber(local: int, primary: int) -> int {
    if local >= primary {
        local + 1
    } else {
        local
    }
}

/// How many followers one non-primary replica covers, out of
/// `follower_count`, when each follower must be covered by `f + 1` of
/// the `n - 1` non-primary replicas.
pub open spec fn window_size(n: int, f: int, follower_count: int) -> int {
    ((f + 1) * follower_count) / (n - 1)
}

/// Where this replica's target window starts in the follower list.
pub open spec fn first_follower(own_id: int, primary: int, follower_count: int) -> int {
    local_index(own_id, primary) % follower_count
}

/// The followers a non-primary replica is responsible for: a circular
/// window of `window_size` entries starting at `first_follower`,
/// indexed with explicit modular wraparound. When there are fewer
/// followers than forwarding replicas the window layout degenerates,
/// and the policy is a full broadcast to all followers.
pub open spec fn target_followers(
    own_id: int,
    primary: int,
    n: int,
    f: int,
    followers: Seq<NodeId>,
) -> Seq<NodeId> {
    if followers.len() >= n - 1 {
        Seq::new(
            window_size(n, f, followers.len() as int) as nat,
            |k: int|
                followers[(first_follower(own_id, primary, followers.len() as int) + k) % (
                followers.len() as int)],
        )
    } else {
        followers
    }
}

/// Renumbering law: over the ids `0..n` with the primary excluded,
/// the local index is in the dense range `0..n-1` and distinct ids
/// keep distinct indices.
pub proof fn lemma_local_index_dense(primary: int, n: int, i: int, j: int)
    requires
        0 <= primary < n,
        0 <= i < n,
        i != primary,
        0 <= j < n,
        j != primary,
    ensures
        0 <= local_index(i, primary) < n - 1,
        i != j ==> local_index(i, primary) != local_index(j, primary),
{
}

/// Renumbering law, onto: every dense local index `0..n-1` is held by
/// exactly the non-primary replica `unrenumber` names.
pub proof fn lemma_local_index_onto(primary: int, n: int, k: int)
    requires
        0 <= primary < n,
        0 <= k < n - 1,
    ensures
        0 <= unrenumber(k, primary) < n,
        unrenumber(k, primary) != primary,
        local_index(unrenumber(k, primary), primary) == k,
{
}

/// Coverage law, for as many followers as forwarding replicas: every
/// follower position `j` lies in the target windows of `f + 1`
/// distinct non-primary replicas, namely those whose local index is
/// `(j - k) mod (n - 1)` for `k` in `0..=f`. Even with `f` Byzantine
/// forwarders among them, at least one honest replica forwards each
/// pre-prepare to each follower.
pub proof fn lemma_target_coverage(
    n: int,
    f: int,
    primary: int,
    followers: Seq<NodeId>,
    j: int,
    k: int,
)
    requires
        2 <= n,
        0 <= f,
        f + 1 <= n - 1,
        0 <= primary < n,
        followers.len() == n - 1,
        0 <= j < followers.len(),
        0 <= k <= f,
    ensures
        ({
            let a = n - 1;
            let l = (j - k) % a;
            let own = unrenumber(l, primary);
            &&& 0 <= l < a
            &&& 0 <= own < n && own != primary
            &&& exists|t: int|
                0 <= t < target_followers(own, primary, n, f, followers).len() && target_followers(
                    own,
                    primary,
                    n,
                    f,
                    followers,
                )[t] == followers[j]
            &&& forall|k2: int| 0 <= k2 <= f && k2 != k ==> #[trigger] ((j - k2) % a) != l
        }),
{
    let a = n - 1;
    let l = (j - k) % a;
    let own = unrenumber(l, primary);
    lemma_mod_bound(j - k, a);
    lemma_local_index_onto(primary, n, l);
    lemma_div_multiples_vanish(f + 1, a);
    assert(window_size(n, f, a) == f + 1);
    lemma_small_mod(l as nat, a as nat);
    assert(first_follower(own, primary, a) == l);
    let w = target_followers(own, primary, n, f, followers);
    assert(w.len() == f + 1);
    // The k-th window slot of this replica lands exactly on follower j.
    lemma_small_mod(k as nat, a as nat);
    lemma_small_mod(j as nat, a as nat);
    lemma_add_mod_noop(j - k, k, a);
    assert(((j - k) % a + k % a) % a == (j - k + k) % a);
    assert((l + k) % a == j);
    assert(w[k] == followers[j]);
    assert forall|k2: int| 0 <= k2 <= f && k2 != k implies #[trigger] ((j - k2) % a) != l by {
        if (j - k2) % a == l {
            lemma_fundamental_div_mod(j - k, a);
            lemma_fundamental_div_mod(j - k2, a);
            let q1 = (j - k) / a;
            let q2 = (j - k2) / a;
            assert(k2 - k == a * (q1 - q2)) by (nonlinear_arith)
                requires
                    j - k == a * q1 + l,
                    j - k2 == a * q2 + l,
            ;
            assert(q1 != q2);
            assert(a * (q1 - q2) >= a || a * (q1 - q2) <= -a) by (nonlinear_arith)
                requires
                    a >= 1,
                    q1 != q2,
            ;
            assert(false);
        }
    }
}

/// Owns this replica's identity and the current follower list, and
/// turns ordering-protocol events into broadcast decisions.
pub struct FollowersFollowing {
    own_id: NodeId,
    followers: Vec<NodeId>,
}

impl FollowersFollowing {
    /// This replica's own id.
    pub closed spec fn own_id(&self) -> NodeId {
        self.own_id
    }

    /// The current follower list.
    pub closed spec fn followers(&self) -> Seq<NodeId> {
        self.followers@
    }

    /// Builds the router for one replica and its current follower
    /// list. The hosting thread feeds it events and performs the
    /// broadcasts it decides.
    pub fn init_follower_handling(own_id: NodeId, followers: Vec<NodeId>) -> (r: Self)
        ensures
            r.own_id() == own_id,
            r.followers() == followers@,
    {
        FollowersFollowing { own_id, followers }
    }

    /// A fresh copy of the whole follower list.
    fn all_followers(&self) -> (v: Vec<NodeId>)
        ensures
            v@ == self.followers(),
    {
        let mut v: Vec<NodeId> = Vec::new();
        let mut k: usize = 0;
        while k < self.followers.len()
            invariant
                0 <= k <= self.followers().len(),
                v@ == self.followers().take(k as int),
            decreases self.followers().len() - k,
        {
            v.push(self.followers[k]);
            proof {
                assert(self.followers().take(k as int).push(self.followers()[k as int])
                    =~= self.followers().take(k as int + 1));
            }
            k = k + 1;
        }
        proof {
            assert(self.followers().take(self.followers().len() as int) =~= self.followers());
        }
        v
    }

    /// Computes which followers this replica has to forward a
    /// pre-prepare to, given the disposition of the quorum and the
    /// follower list: the circular window of `target_followers`.
    pub fn targets(&self, view: &ViewInfo) -> (t: Vec<NodeId>)
        requires
            view.n >= 2,
            view.f < usize::MAX,
            (view.f + 1) * self.followers().len() + self.followers().len() <= usize::MAX,
        ensures
            t@ == target_followers(
                self.own_id() as int,
                view.primary as int,
                view.n as int,
                view.f as int,
                self.followers(),
            ),
    {
        let available_replicas: usize = view.n - 1;
        let followers_count: usize = self.followers.len();
        let replicas_per_follower: usize = view.f + 1;

        if followers_count >= available_replicas {
            let followers_for_replica: usize = (replicas_per_follower * followers_count)
                / available_replicas;
            proof {
                lemma_div_is_ordered_by_denominator(
                    (replicas_per_follower * followers_count) as int,
                    1,
                    available_replicas as int,
                );
            }
            let temp_id: u32 = if self.own_id > view.primary {
                self.own_id - 1
            } else {
                self.own_id
            };
            let first: usize = (temp_id as usize) % followers_count;

            let mut targetted_followers: Vec<NodeId> = Vec::new();
            let mut k: usize = 0;
            while k < followers_for_replica
                invariant
                    0 <= k <= followers_for_replica,
                    followers_count == self.followers().len(),
                    1 <= followers_count,
                    first < followers_count,
                    followers_for_replica + followers_count <= usize::MAX,
                    targetted_followers@.len() == k,
                    forall|i: int|
                        0 <= i < k ==> targetted_followers@[i] == self.followers()[(first + i) % (
                        followers_count as int)],
                decreases followers_for_replica - k,
            {
                let idx: usize = (first + k) % followers_count;
                targetted_followers.push(self.followers[idx]);
                k = k + 1;
            }
            proof {
                assert(targetted_followers@ =~= target_followers(
                    self.own_id() as int,
                    view.primary as int,
                    view.n as int,
                    view.f as int,
                    self.followers(),
                ));
            }
            targetted_followers
        } else {
            // Fewer followers than forwarding replicas: the window
            // layout degenerates, so fall back to a full broadcast.
            self.all_followers()
        }
    }

    /// A pre-prepare was received from the network. The primary skips
    /// follower forwarding entirely (it already broadcast the same
    /// content to the replicas); a non-primary forwards to its target
    /// window.
    pub fn handle_preprepare_msg_rcvd(&self, view: &ViewInfo, message: StoredMessage) -> (d:
        Option<BroadcastDecision>)
        requires
            view.n >= 2,
            view.f < usize::MAX,
            (view.f + 1) * self.followers().len() + self.followers().len() <= usize::MAX,
        ensures
            view.primary == self.own_id() ==> d is None,
            view.primary != self.own_id() ==> (d matches Some(dec)
                && dec.message == SystemMessage::ForwardedProtocolMessage(message)
                && dec.targets@ == target_followers(
                self.own_id() as int,
                view.primary as int,
                view.n as int,
                view.f as int,
                self.followers(),
            )),
    {
        if view.primary == self.own_id {
            return None;
        }
        let targets = self.targets(view);
        Some(
            BroadcastDecision {
                message: SystemMessage::ForwardedProtocolMessage(message),
                targets,
            },
        )
    }

    /// This replica sent a prepare message. Only self-authored
    /// prepares are forwarded, and then to the entire follower set.
    pub fn handle_prepare_msg(&self, prepare: StoredMessage) -> (d: Option<BroadcastDecision>)
        ensures
            prepare.header.from != self.own_id() ==> d is None,
            prepare.header.from == self.own_id() ==> (d matches Some(dec)
                && dec.message == SystemMessage::ForwardedProtocolMessage(prepare)
                && dec.targets@ == self.followers()),
    {
        if prepare.header.from != self.own_id {
            return None;
        }
        let targets = self.all_followers();
        Some(
            BroadcastDecision {
                message: SystemMessage::ForwardedProtocolMessage(prepare),
                targets,
            },
        )
    }

    /// This replica sent a commit message. Only self-authored commits
    /// are forwarded, and then to the entire follower set.
    pub fn handle_commit_msg(&self, commit: StoredMessage) -> (d: Option<BroadcastDecision>)
        ensures
            commit.header.from != self.own_id() ==> d is None,
            commit.header.from == self.own_id() ==> (d matches Some(dec)
                && dec.message == SystemMessage::ForwardedProtocolMessage(commit)
                && dec.targets@ == self.followers()),
    {
        if commit.header.from != self.own_id {
            return None;
        }
        let targets = self.all_followers();
        Some(
            BroadcastDecision {
                message: SystemMessage::ForwardedProtocolMessage(commit),
                targets,
            },
        )
    }

    /// A view-change message: forwarded verbatim to all followers.
    pub fn handle_sync_msg(&self, msg: StoredMessage) -> (d: BroadcastDecision)
        ensures
            d.message == SystemMessage::ForwardedProtocolMessage(msg),
            d.targets@ == self.followers(),
    {
        let targets = self.all_followers();
        BroadcastDecision { message: SystemMessage::ForwardedProtocolMessage(msg), targets }
    }

    /// One step of the router's event loop: view-change messages go to
    /// all followers; consensus-message dispatch is reserved and not
    /// yet wired, so such events produce no broadcast.
    pub fn handle_follower_event(&self, event: FollowerEvent) -> (d: Option<BroadcastDecision>)
        ensures
            event is ReceivedConsensusMsg ==> d is None,
            event matches FollowerEvent::ReceivedViewChangeMsg(msg) ==> (d matches Some(dec)
                && dec.message == SystemMessage::ForwardedProtocolMessage(msg)
                && dec.targets@ == self.followers()),
    {
        match event {
            FollowerEvent::ReceivedConsensusMsg(_view, _message) => None,
            FollowerEvent::ReceivedViewChangeMsg(msg) => Some(self.handle_sync_msg(msg)),
        }
    }
}

} // verus!
