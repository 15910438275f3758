use vstd::prelude::*;

use crate::account::Account;
use crate::error::Error;
use crate::stream::{stream_terms_ok, Stream};
use crate::subscription::Subscription;
use crate::text::{text_ok, MAX_DESCRIPTION_LEN, MAX_TITLE_LEN};

verus! {

/// Each stream is well formed and stored under its own identifier, which fits
/// a `u32`.
pub open spec fn streams_ok(streams: Seq<Stream>) -> bool {
    &&& forall|k: int|
        0 <= k < streams.len() ==> #[trigger] streams[k].wf() && streams[k].id == k + 1
    &&& streams.len() < u32::MAX
}

/// Each subscription is well formed and stored under its own identifier,
/// which fits a `u32`.
pub open spec fn subscriptions_ok(subscriptions: Seq<Subscription>) -> bool {
    &&& forall|k: int|
        0 <= k < subscriptions.len() ==> #[trigger] subscriptions[k].wf() && subscriptions[k].id
            == k + 1
    &&& subscriptions.len() < u32::MAX
}

/// Streams sent by `user`.
pub open spec fn sent_by(user: Account) -> spec_fn(Stream) -> bool {
    |s: Stream| s.sender == user
}

/// Streams that pay `user`.
pub open spec fn paying(user: Account) -> spec_fn(Stream) -> bool {
    |s: Stream| s.recipients@.contains(user)
}

/// Streams that pay `user` and that `user` did not send.
pub open spec fn paying_not_sent_by(user: Account) -> spec_fn(Stream) -> bool {
    |s: Stream| s.recipients@.contains(user) && s.sender != user
}

/// Subscriptions paid by `user`.
pub open spec fn paid_by(user: Account) -> spec_fn(Subscription) -> bool {
    |s: Subscription| s.subscriber == user
}

/// Subscriptions that pay `user`.
pub open spec fn received_by(user: Account) -> spec_fn(Subscription) -> bool {
    |s: Subscription| s.receiver == user
}

/// Subscriptions that pay `user` and that `user` does not pay.
pub open spec fn received_not_paid_by(user: Account) -> spec_fn(Subscription) -> bool {
    |s: Subscription| s.receiver == user && s.subscriber != user
}

/// Identifiers of the streams, in the order stored, that satisfy `keep`.
pub open spec fn stream_ids_where(streams: Seq<Stream>, keep: spec_fn(Stream) -> bool) -> Seq<u32>
    decreases streams.len(),
{
    if streams.len() == 0 {
        seq![]
    } else {
        let prev = stream_ids_where(streams.drop_last(), keep);
        if keep(streams.last()) {
            prev.push(streams.last().id)
        } else {
            prev
        }
    }
}

/// Identifiers of the subscriptions, in the order stored, that satisfy `keep`.
pub open spec fn subscription_ids_where(
    subscriptions: Seq<Subscription>,
    keep: spec_fn(Subscription) -> bool,
) -> Seq<u32>
    decreases subscriptions.len(),
{
    if subscriptions.len() == 0 {
        seq![]
    } else {
        let prev = subscription_ids_where(subscriptions.drop_last(), keep);
        if keep(subscriptions.last()) {
            prev.push(subscriptions.last().id)
        } else {
            prev
        }
    }
}

/// Every identifier selected from records stored under their own identifiers
/// names one of them.
proof fn lemma_stream_ids_in_range(streams: Seq<Stream>, keep: spec_fn(Stream) -> bool)
    requires
        streams_ok(streams),
    ensures
        forall|i: int|
            0 <= i < stream_ids_where(streams, keep).len() ==> 1 <= #[trigger] stream_ids_where(
                streams,
                keep,
            )[i] <= streams.len(),
    decreases streams.len(),
{
    if streams.len() > 0 {
        let d = streams.drop_last();
        assert forall|k: int| 0 <= k < d.len() implies #[trigger] d[k].wf() && d[k].id == k + 1 by {
            assert(d[k] == streams[k]);
        }
        lemma_stream_ids_in_range(d, keep);
        assert(streams[streams.len() - 1].wf());
        assert(streams.last().id == streams.len());
        let r = stream_ids_where(streams, keep);
        let p = stream_ids_where(d, keep);
        assert forall|i: int| 0 <= i < r.len() implies 1 <= #[trigger] r[i] <= streams.len() by {
            if i < p.len() {
                assert(r[i] == p[i]);
            }
        }
    }
}

/// Every identifier selected from records stored under their own identifiers
/// names one of them.
proof fn lemma_subscription_ids_in_range(
    subscriptions: Seq<Subscription>,
    keep: spec_fn(Subscription) -> bool,
)
    requires
        subscriptions_ok(subscriptions),
    ensures
        forall|i: int|
            0 <= i < subscription_ids_where(subscriptions, keep).len() ==> 1
                <= #[trigger] subscription_ids_where(subscriptions, keep)[i]
                <= subscriptions.len(),
    decreases subscriptions.len(),
{
    if subscriptions.len() > 0 {
        let d = subscriptions.drop_last();
        assert forall|k: int| 0 <= k < d.len() implies #[trigger] d[k].wf() && d[k].id == k + 1 by {
            assert(d[k] == subscriptions[k]);
        }
        lemma_subscription_ids_in_range(d, keep);
        assert(subscriptions[subscriptions.len() - 1].wf());
        assert(subscriptions.last().id == subscriptions.len());
        let r = subscription_ids_where(subscriptions, keep);
        let p = subscription_ids_where(d, keep);
        assert forall|i: int| 0 <= i < r.len() implies 1 <= #[trigger] r[i] <= subscriptions.len() by {
            if i < p.len() {
                assert(r[i] == p[i]);
            }
        }
    }
}

/// The whole escrow engine: its settings and every stream and subscription
/// ever created. Stream `k` (counting from 1) is `streams[k - 1]`, and the same
/// for subscriptions; records are never removed.
pub struct Streamer {
    pub platform_admin: Option<Account>,
    pub token_contract: Option<Account>,
    pub streams: Vec<Stream>,
    pub subscriptions: Vec<Subscription>,
}

impl Streamer {
    /// Every record is well formed and stored under its own identifier.
    pub open spec fn wf(&self) -> bool {
        &&& streams_ok(self.streams@)
        &&& subscriptions_ok(self.subscriptions@)
    }

    /// Stream `id` exists.
    pub open spec fn has_stream(&self, id: u32) -> bool {
        1 <= id <= self.streams@.len()
    }

    /// Stream `id`; meaningful when it exists.
    pub open spec fn stream(&self, id: u32) -> Stream {
        self.streams@[id - 1]
    }

    /// Subscription `id` exists.
    pub open spec fn has_subscription(&self, id: u32) -> bool {
        1 <= id <= self.subscriptions@.len()
    }

    /// Subscription `id`; meaningful when it exists.
    pub open spec fn subscription(&self, id: u32) -> Subscription {
        self.subscriptions@[id - 1]
    }

    /// Only stream `id` may differ between `self` and `other`.
    pub open spec fn others_kept(&self, other: &Streamer, id: u32) -> bool {
        &&& self.platform_admin == other.platform_admin
        &&& self.token_contract == other.token_contract
        &&& self.subscriptions@ == other.subscriptions@
        &&& self.streams@.len() == other.streams@.len()
        &&& forall|k: int|
            0 <= k < self.streams@.len() && k != id - 1 ==> #[trigger] self.streams@[k]
                == other.streams@[k]
    }

    /// Only subscription `id` may differ between `self` and `other`.
    pub open spec fn other_subscriptions_kept(&self, other: &Streamer, id: u32) -> bool {
        &&& self.platform_admin == other.platform_admin
        &&& self.token_contract == other.token_contract
        &&& self.streams@ == other.streams@
        &&& self.subscriptions@.len() == other.subscriptions@.len()
        &&& forall|k: int|
            0 <= k < self.subscriptions@.len() && k != id - 1 ==> #[trigger] self.subscriptions@[k]
                == other.subscriptions@[k]
    }

    /// An engine with no settings and no records.
    pub fn new() -> (r: Streamer)
        ensures
            r.wf(),
            r.platform_admin is None,
            r.token_contract is None,
            r.streams@.len() == 0,
            r.subscriptions@.len() == 0,
    {
        Streamer {
            platform_admin: None,
            token_contract: None,
            streams: Vec::new(),
            subscriptions: Vec::new(),
        }
    }

    /// Records the platform administrator and, if given, the default token
    /// contract. Allowed once.
    pub fn init(&mut self, platform_admin: Account, default_token: Option<Account>) -> (r: Result<
        (),
        Error,
    >)
        requires
            old(self).wf(),
        ensures
            final(self).wf(),
            old(self).platform_admin is Some ==> r == Err::<(), Error>(Error::AlreadyInitialized)
                && *final(self) == *old(self),
            old(self).platform_admin is None ==> {
                &&& r == Ok::<(), Error>(())
                &&& final(self).platform_admin == Some(platform_admin)
                &&& final(self).token_contract == (if default_token is Some {
                    default_token
                } else {
                    old(self).token_contract
                })
                &&& final(self).streams@ == old(self).streams@
                &&& final(self).subscriptions@ == old(self).subscriptions@
            },
    {
        if self.platform_admin.is_some() {
            return Err(Error::AlreadyInitialized);
        }
        self.platform_admin = Some(platform_admin);
        if default_token.is_some() {
            self.token_contract = default_token;
        }
        Ok(())
    }

    /// Replaces the default token contract; needs an administrator to have
    /// been recorded.
    pub fn set_token_contract(&mut self, token: Account) -> (r: Result<(), Error>)
        requires
            old(self).wf(),
        ensures
            final(self).wf(),
            old(self).platform_admin is None ==> r == Err::<(), Error>(Error::NotInitialized)
                && *final(self) == *old(self),
            old(self).platform_admin is Some ==> {
                &&& r == Ok::<(), Error>(())
                &&& final(self).platform_admin == old(self).platform_admin
                &&& final(self).token_contract == Some(token)
                &&& final(self).streams@ == old(self).streams@
                &&& final(self).subscriptions@ == old(self).subscriptions@
            },
    {
        if self.platform_admin.is_none() {
            return Err(Error::NotInitialized);
        }
        self.token_contract = Some(token);
        Ok(())
    }

    /// Creates a stream started at `now` and returns its identifier, the next
    /// one in sequence. The caller moves `deposit` from the sender into escrow.
    pub fn create_stream(
        &mut self,
        sender: Account,
        recipients: Vec<Account>,
        token_contract: Account,
        amounts_per_period: Vec<i128>,
        period_seconds: u64,
        deposit: i128,
        title: Option<String>,
        description: Option<String>,
        now: u64,
    ) -> (r: Result<u32, Error>)
        requires
            old(self).wf(),
            old(self).streams@.len() + 1 < u32::MAX,
        ensures
            final(self).wf(),
            r is Ok <==> stream_terms_ok(recipients@, amounts_per_period@, period_seconds, deposit)
                && text_ok(title, MAX_TITLE_LEN) && text_ok(description, MAX_DESCRIPTION_LEN),
            r matches Err(e) ==> e == Error::InvalidParameters && *final(self) == *old(self),
            r matches Ok(id) ==> {
                &&& id == old(self).streams@.len() + 1
                &&& final(self).streams@.len() == id
                &&& final(self).streams@.drop_last() == old(self).streams@
                &&& final(self).stream(id).created_from(
                    id,
                    sender,
                    recipients@,
                    token_contract,
                    amounts_per_period@,
                    period_seconds,
                    deposit,
                    title,
                    description,
                    now,
                )
                &&& final(self).subscriptions@ == old(self).subscriptions@
                &&& final(self).platform_admin == old(self).platform_admin
                &&& final(self).token_contract == old(self).token_contract
            },
    {
        let id = (self.streams.len() + 1) as u32;
        match Stream::new(
            id,
            sender,
            recipients,
            token_contract,
            amounts_per_period,
            period_seconds,
            deposit,
            title,
            description,
            now,
        ) {
            Ok(s) => {
                self.streams.push(s);
                proof {
                    assert(self.streams@.drop_last() =~= old(self).streams@);
                    assert forall|j: int| 0 <= j < self.streams@.len() implies #[trigger] self.streams@[j].wf()
                        && self.streams@[j].id == j + 1 by {
                        if j < old(self).streams@.len() {
                            assert(old(self).streams@[j].wf());
                            assert(self.streams@[j] == old(self).streams@[j]);
                        }
                    }
                }
                Ok(id)
            },
            Err(e) => Err(e),
        }
    }

    /// Withdrawal by `recipient` from stream `stream_id` at `now`; see
    /// [`Stream::withdraw`]. The caller pays the returned amount out of escrow.
    pub fn withdraw_stream(&mut self, stream_id: u32, recipient: Account, now: u64) -> (r: Result<
        i128,
        Error,
    >)
        requires
            old(self).wf(),
        ensures
            final(self).wf(),
            !old(self).has_stream(stream_id) ==> r == Err::<i128, Error>(Error::StreamNotFound)
                && *final(self) == *old(self),
            old(self).has_stream(stream_id) ==> {
                let s0 = old(self).stream(stream_id);
                let s1 = final(self).stream(stream_id);
                &&& r == s0.withdraw_result(recipient, now)
                &&& final(self).others_kept(old(self), stream_id)
                &&& match r {
                    Ok(a) => if a > 0 {
                        s1.paid(&s0, s0.index_of(recipient), now, a as int)
                    } else {
                        s1 == s0
                    },
                    Err(_) => s1 == s0,
                }
                &&& s0.time_ok(now) ==> s1.time_ok(now)
                &&& forall|d: int|
                    s0.time_ok(now) && #[trigger] s0.within_deposit(d) ==> s1.within_deposit(d)
            },
    {
        if stream_id == 0 || stream_id as usize > self.streams.len() {
            return Err(Error::StreamNotFound);
        }
        let k = (stream_id - 1) as usize;
        let r = self.streams[k].withdraw(recipient, now);
        proof {
            assert(old(self).streams@[k as int].wf());
            assert(self.streams@[k as int].id == old(self).streams@[k as int].id);
            self.lemma_stream_replaced(old(self), k as int);
        }
        r
    }

    /// Cancellation of stream `stream_id` at `now`; see [`Stream::cancel`]. The
    /// caller refunds the returned amount to the sender.
    pub fn cancel_stream(&mut self, stream_id: u32, now: u64) -> (r: Result<i128, Error>)
        requires
            old(self).wf(),
            old(self).has_stream(stream_id) ==> old(self).stream(stream_id).start_time <= now,
        ensures
            final(self).wf(),
            !old(self).has_stream(stream_id) ==> r == Err::<i128, Error>(Error::StreamNotFound)
                && *final(self) == *old(self),
            old(self).has_stream(stream_id) ==> {
                let s0 = old(self).stream(stream_id);
                let s1 = final(self).stream(stream_id);
                &&& final(self).others_kept(old(self), stream_id)
                &&& !s0.is_active ==> r == Err::<i128, Error>(Error::StreamInactive) && s1 == s0
                &&& s0.is_active ==> {
                    &&& r == Ok::<i128, Error>(
                        if s0.remaining_at(now) > 0 {
                            s0.remaining_at(now) as i128
                        } else {
                            0
                        },
                    )
                    &&& s1.same_terms(&s0)
                    &&& s1.recipient_last_withdraw@ == s0.recipient_last_withdraw@
                    &&& s1.recipient_total_withdrawn@ == s0.recipient_total_withdrawn@
                    &&& s1.deposit == 0
                    &&& !s1.is_active
                }
                &&& s0.time_ok(now) ==> s1.time_ok(now)
                &&& forall|d: int| #[trigger] s0.within_deposit(d) ==> s1.within_deposit(d)
            },
    {
        if stream_id == 0 || stream_id as usize > self.streams.len() {
            return Err(Error::StreamNotFound);
        }
        let k = (stream_id - 1) as usize;
        let r = self.streams[k].cancel(now);
        proof {
            assert(old(self).streams@[k as int].wf());
            assert(self.streams@[k as int].id == old(self).streams@[k as int].id);
            self.lemma_stream_replaced(old(self), k as int);
        }
        r
    }

    /// Creates a subscription with an empty balance and returns its
    /// identifier, the next one in sequence.
    pub fn create_subscription(
        &mut self,
        subscriber: Account,
        receiver: Account,
        token_contract: Account,
        amount_per_interval: i128,
        interval_seconds: u64,
        first_payment_time: u64,
        title: Option<String>,
        description: Option<String>,
    ) -> (r: Result<u32, Error>)
        requires
            old(self).wf(),
            old(self).subscriptions@.len() + 1 < u32::MAX,
        ensures
            final(self).wf(),
            r is Ok <==> amount_per_interval > 0 && interval_seconds > 0 && text_ok(
                title,
                MAX_TITLE_LEN,
            ) && text_ok(description, MAX_DESCRIPTION_LEN),
            r matches Err(e) ==> e == Error::InvalidParameters && *final(self) == *old(self),
            r matches Ok(id) ==> {
                &&& id == old(self).subscriptions@.len() + 1
                &&& final(self).subscriptions@.len() == id
                &&& final(self).subscriptions@.drop_last() == old(self).subscriptions@
                &&& final(self).subscription(id).created_from(
                    id,
                    subscriber,
                    receiver,
                    token_contract,
                    amount_per_interval,
                    interval_seconds,
                    first_payment_time,
                    title,
                    description,
                )
                &&& final(self).streams@ == old(self).streams@
                &&& final(self).platform_admin == old(self).platform_admin
                &&& final(self).token_contract == old(self).token_contract
            },
    {
        let id = (self.subscriptions.len() + 1) as u32;
        match Subscription::new(
            id,
            subscriber,
            receiver,
            token_contract,
            amount_per_interval,
            interval_seconds,
            first_payment_time,
            title,
            description,
        ) {
            Ok(s) => {
                self.subscriptions.push(s);
                proof {
                    assert(self.subscriptions@.drop_last() =~= old(self).subscriptions@);
                    assert forall|j: int| 0 <= j < self.subscriptions@.len() implies #[trigger] self.subscriptions@[j].wf()
                        && self.subscriptions@[j].id == j + 1 by {
                        if j < old(self).subscriptions@.len() {
                            assert(old(self).subscriptions@[j].wf());
                            assert(self.subscriptions@[j] == old(self).subscriptions@[j]);
                        }
                    }
                }
                Ok(id)
            },
            Err(e) => Err(e),
        }
    }

    /// Adds `amount` to the escrow of subscription `subscription_id`; see
    /// [`Subscription::deposit`]. The caller moves the amount from the
    /// subscriber into escrow.
    pub fn deposit_to_subscription(&mut self, subscription_id: u32, amount: i128) -> (r: Result<
        (),
        Error,
    >)
        requires
            old(self).wf(),
        ensures
            final(self).wf(),
            !old(self).has_subscription(subscription_id) ==> r == Err::<(), Error>(
                Error::SubscriptionNotFound,
            ) && *final(self) == *old(self),
            old(self).has_subscription(subscription_id) ==> {
                let s0 = old(self).subscription(subscription_id);
                let s1 = final(self).subscription(subscription_id);
                &&& final(self).other_subscriptions_kept(old(self), subscription_id)
                &&& amount <= 0 ==> r == Err::<(), Error>(Error::InvalidParameters) && s1 == s0
                &&& amount > 0 ==> {
                    &&& r == Ok::<(), Error>(())
                    &&& s1.same_terms(&s0)
                    &&& s1.next_payment_time == s0.next_payment_time
                    &&& s1.active == s0.active
                    &&& s1.balance == crate::accrual::cap(s0.balance + amount)
                }
            },
    {
        if subscription_id == 0 || subscription_id as usize > self.subscriptions.len() {
            return Err(Error::SubscriptionNotFound);
        }
        let k = (subscription_id - 1) as usize;
        let r = self.subscriptions[k].deposit(amount);
        proof {
            self.lemma_subscription_replaced(old(self), k as int);
        }
        r
    }

    /// Charge of subscription `subscription_id` at `now`; see
    /// [`Subscription::charge`]. The caller pays the returned amount to the
    /// receiver out of escrow.
    pub fn charge_subscription(&mut self, subscription_id: u32, now: u64) -> (r: Result<
        i128,
        Error,
    >)
        requires
            old(self).wf(),
            old(self).has_subscription(subscription_id) ==> now + old(self).subscription(
                subscription_id,
            ).interval_seconds <= u64::MAX,
        ensures
            final(self).wf(),
            !old(self).has_subscription(subscription_id) ==> r == Err::<i128, Error>(
                Error::SubscriptionNotFound,
            ) && *final(self) == *old(self),
            old(self).has_subscription(subscription_id) ==> {
                let s0 = old(self).subscription(subscription_id);
                let s1 = final(self).subscription(subscription_id);
                &&& final(self).other_subscriptions_kept(old(self), subscription_id)
                &&& r == s0.charge_result(now)
                &&& match r {
                    Ok(a) => {
                        &&& s1.same_terms(&s0)
                        &&& s1.active == s0.active
                        &&& s1.balance == s0.balance - a
                        &&& s1.next_payment_time == s0.next_payment_time + s0.due_intervals(now)
                            * s0.interval_seconds
                    },
                    Err(_) => s1 == s0,
                }
            },
    {
        if subscription_id == 0 || subscription_id as usize > self.subscriptions.len() {
            return Err(Error::SubscriptionNotFound);
        }
        let k = (subscription_id - 1) as usize;
        let r = self.subscriptions[k].charge(now);
        proof {
            self.lemma_subscription_replaced(old(self), k as int);
        }
        r
    }

    /// Cancellation of subscription `subscription_id`; see
    /// [`Subscription::cancel`]. The caller refunds the returned amount to the
    /// subscriber.
    pub fn cancel_subscription(&mut self, subscription_id: u32) -> (r: Result<i128, Error>)
        requires
            old(self).wf(),
        ensures
            final(self).wf(),
            !old(self).has_subscription(subscription_id) ==> r == Err::<i128, Error>(
                Error::SubscriptionNotFound,
            ) && *final(self) == *old(self),
            old(self).has_subscription(subscription_id) ==> {
                let s0 = old(self).subscription(subscription_id);
                let s1 = final(self).subscription(subscription_id);
                &&& final(self).other_subscriptions_kept(old(self), subscription_id)
                &&& r == Ok::<i128, Error>(s0.balance)
                &&& s1.same_terms(&s0)
                &&& s1.next_payment_time == s0.next_payment_time
                &&& s1.balance == 0
                &&& !s1.active
            },
    {
        if subscription_id == 0 || subscription_id as usize > self.subscriptions.len() {
            return Err(Error::SubscriptionNotFound);
        }
        let k = (subscription_id - 1) as usize;
        let refund = self.subscriptions[k].cancel();
        proof {
            self.lemma_subscription_replaced(old(self), k as int);
        }
        Ok(refund)
    }

    /// Replacing one well-formed stream by another with the same identifier
    /// keeps the engine well formed.
    proof fn lemma_stream_replaced(&self, pre: &Streamer, k: int)
        requires
            pre.wf(),
            0 <= k < pre.streams@.len(),
            self.streams@ == pre.streams@.update(k, self.streams@[k]),
            self.streams@[k].wf(),
            self.streams@[k].id == pre.streams@[k].id,
            self.subscriptions@ == pre.subscriptions@,
        ensures
            self.wf(),
    {
        assert forall|j: int| 0 <= j < self.streams@.len() implies #[trigger] self.streams@[j].wf()
            && self.streams@[j].id == j + 1 by {
            assert(pre.streams@[j].wf());
        }
    }

    /// Replacing one well-formed subscription by another with the same
    /// identifier keeps the engine well formed.
    proof fn lemma_subscription_replaced(&self, pre: &Streamer, k: int)
        requires
            pre.wf(),
            0 <= k < pre.subscriptions@.len(),
            self.subscriptions@ == pre.subscriptions@.update(k, self.subscriptions@[k]),
            self.subscriptions@[k].wf(),
            self.subscriptions@[k].id == pre.subscriptions@[k].id,
            self.streams@ == pre.streams@,
        ensures
            self.wf(),
    {
        assert forall|j: int| 0 <= j < self.subscriptions@.len() implies #[trigger] self.subscriptions@[j].wf()
            && self.subscriptions@[j].id == j + 1 by {
            assert(pre.subscriptions@[j].wf());
        }
        assert forall|j: int| 0 <= j < self.streams@.len() implies #[trigger] self.streams@[j].wf()
            && self.streams@[j].id == j + 1 by {
            assert(pre.streams@[j].wf());
        }
    }

    /// Identifiers of the streams `user` sent, oldest first.
    pub open spec fn sent_ids(&self, user: Account) -> Seq<u32> {
        stream_ids_where(self.streams@, sent_by(user))
    }

    /// Identifiers of the streams that pay `user`, oldest first.
    pub open spec fn received_ids(&self, user: Account) -> Seq<u32> {
        stream_ids_where(self.streams@, paying(user))
    }

    /// Identifiers of the streams `user` sent, then of those that pay `user`
    /// and that `user` did not send; each list oldest first.
    pub open spec fn user_ids(&self, user: Account) -> Seq<u32> {
        self.sent_ids(user) + stream_ids_where(self.streams@, paying_not_sent_by(user))
    }

    /// Identifiers of the subscriptions `user` pays, oldest first.
    pub open spec fn subscriber_ids(&self, user: Account) -> Seq<u32> {
        subscription_ids_where(self.subscriptions@, paid_by(user))
    }

    /// Identifiers of the subscriptions that pay `user`, oldest first.
    pub open spec fn receiver_ids(&self, user: Account) -> Seq<u32> {
        subscription_ids_where(self.subscriptions@, received_by(user))
    }

    /// Identifiers of the subscriptions `user` pays, then of those that pay
    /// `user` and that `user` does not pay; each list oldest first.
    pub open spec fn subscription_user_ids(&self, user: Account) -> Seq<u32> {
        self.subscriber_ids(user) + subscription_ids_where(self.subscriptions@, received_not_paid_by(user))
    }

    /// Stream `stream_id`.
    pub fn get_stream(&self, stream_id: u32) -> (r: Result<&Stream, Error>)
        requires
            self.wf(),
        ensures
            !self.has_stream(stream_id) ==> r == Err::<&Stream, Error>(Error::StreamNotFound),
            self.has_stream(stream_id) ==> r == Ok::<&Stream, Error>(&self.stream(stream_id)),
    {
        if stream_id == 0 || stream_id as usize > self.streams.len() {
            return Err(Error::StreamNotFound);
        }
        Ok(&self.streams[(stream_id - 1) as usize])
    }

    /// Subscription `subscription_id`.
    pub fn get_subscription(&self, subscription_id: u32) -> (r: Result<&Subscription, Error>)
        requires
            self.wf(),
        ensures
            !self.has_subscription(subscription_id) ==> r == Err::<&Subscription, Error>(
                Error::SubscriptionNotFound,
            ),
            self.has_subscription(subscription_id) ==> r == Ok::<&Subscription, Error>(
                &self.subscription(subscription_id),
            ),
    {
        if subscription_id == 0 || subscription_id as usize > self.subscriptions.len() {
            return Err(Error::SubscriptionNotFound);
        }
        Ok(&self.subscriptions[(subscription_id - 1) as usize])
    }

    /// Report on `recipient` of stream `stream_id` at `now`; see
    /// [`Stream::recipient_info`].
    pub fn get_recipient_info(&self, stream_id: u32, recipient: Account, now: u64) -> (r: Result<
        (i128, i128, u64),
        Error,
    >)
        requires
            self.wf(),
            self.has_stream(stream_id) ==> self.stream(stream_id).time_ok(now),
        ensures
            !self.has_stream(stream_id) ==> r == Err::<(i128, i128, u64), Error>(
                Error::StreamNotFound,
            ),
            self.has_stream(stream_id) && !self.stream(stream_id).recipients@.contains(recipient)
                ==> r == Err::<(i128, i128, u64), Error>(Error::InvalidParameters),
            self.has_stream(stream_id) && self.stream(stream_id).recipients@.contains(recipient)
                ==> r == Ok::<(i128, i128, u64), Error>(
                self.stream(stream_id).info_at(self.stream(stream_id).index_of(recipient), now),
            ),
    {
        if stream_id == 0 || stream_id as usize > self.streams.len() {
            return Err(Error::StreamNotFound);
        }
        let k = (stream_id - 1) as usize;
        proof {
            assert(self.streams@[k as int].wf());
        }
        self.streams[k].recipient_info(recipient, now)
    }

    /// Report on every recipient of stream `stream_id` at `now`; see
    /// [`Stream::all_recipients_info`].
    pub fn get_all_recipients_info(&self, stream_id: u32, now: u64) -> (r: Result<
        Vec<(Account, i128, i128, u64)>,
        Error,
    >)
        requires
            self.wf(),
            self.has_stream(stream_id) ==> self.stream(stream_id).time_ok(now),
        ensures
            !self.has_stream(stream_id) ==> r is Err && r->Err_0 == Error::StreamNotFound,
            self.has_stream(stream_id) ==> (r matches Ok(v) && {
                let s = self.stream(stream_id);
                &&& v@.len() == s.count()
                &&& forall|k: int|
                    0 <= k < s.count() ==> #[trigger] v@[k] == (
                        s.recipients@[k],
                        s.info_at(k, now).0,
                        s.info_at(k, now).1,
                        s.info_at(k, now).2,
                    )
            }),
    {
        if stream_id == 0 || stream_id as usize > self.streams.len() {
            return Err(Error::StreamNotFound);
        }
        let k = (stream_id - 1) as usize;
        proof {
            assert(self.streams@[k as int].wf());
        }
        Ok(self.streams[k].all_recipients_info(now))
    }

    /// Identifiers of the streams `user` sent, oldest first.
    pub fn get_user_sent_stream_ids(&self, user: Account) -> (r: Vec<u32>)
        requires
            self.wf(),
        ensures
            r@ == self.sent_ids(user),
    {
        let ghost keep = sent_by(user);
        let mut out: Vec<u32> = Vec::new();
        let mut i: usize = 0;
        while i < self.streams.len()
            invariant
                keep == sent_by(user),
                0 <= i <= self.streams@.len(),
                out@ == stream_ids_where(self.streams@.subrange(0, i as int), keep),
            decreases self.streams@.len() - i,
        {
            proof {
                assert(self.streams@.subrange(0, i + 1).drop_last() =~= self.streams@.subrange(
                    0,
                    i as int,
                ));
            }
            proof {
                assert(keep(self.streams@[i as int]) == (self.streams@[i as int].sender == user));
            }
            if self.streams[i].sender == user {
                out.push(self.streams[i].id);
            }
            i += 1;
        }
        proof {
            assert(self.streams@.subrange(0, self.streams@.len() as int) =~= self.streams@);
        }
        out
    }

    /// Identifiers of the streams that pay `user`, oldest first.
    pub fn get_user_received_stream_ids(&self, user: Account) -> (r: Vec<u32>)
        requires
            self.wf(),
        ensures
            r@ == self.received_ids(user),
    {
        let ghost keep = paying(user);
        let mut out: Vec<u32> = Vec::new();
        let mut i: usize = 0;
        while i < self.streams.len()
            invariant
                self.wf(),
                keep == paying(user),
                0 <= i <= self.streams@.len(),
                out@ == stream_ids_where(self.streams@.subrange(0, i as int), keep),
            decreases self.streams@.len() - i,
        {
            proof {
                assert(self.streams@.subrange(0, i + 1).drop_last() =~= self.streams@.subrange(
                    0,
                    i as int,
                ));
                assert(self.streams@[i as int].wf());
            }
            proof {
                assert(keep(self.streams@[i as int]) == self.streams@[i as int].recipients@.contains(
                    user,
                ));
            }
            if self.streams[i].recipient_index(user).is_some() {
                out.push(self.streams[i].id);
            }
            i += 1;
        }
        proof {
            assert(self.streams@.subrange(0, self.streams@.len() as int) =~= self.streams@);
        }
        out
    }

    /// The streams with the given identifiers, in that order.
    fn streams_of(&self, ids: &Vec<u32>) -> (r: Vec<&Stream>)
        requires
            self.wf(),
            forall|i: int| 0 <= i < ids@.len() ==> self.has_stream(#[trigger] ids@[i]),
        ensures
            r@.len() == ids@.len(),
            forall|i: int| 0 <= i < ids@.len() ==> *#[trigger] r@[i] == self.stream(ids@[i]),
    {
        let mut out: Vec<&Stream> = Vec::new();
        let mut i: usize = 0;
        while i < ids.len()
            invariant
                0 <= i <= ids@.len(),
                forall|j: int| 0 <= j < ids@.len() ==> self.has_stream(#[trigger] ids@[j]),
                out@.len() == i,
                forall|j: int| 0 <= j < i ==> *#[trigger] out@[j] == self.stream(ids@[j]),
            decreases ids@.len() - i,
        {
            let id = ids[i];
            proof {
                assert(self.has_stream(ids@[i as int]));
            }
            out.push(&self.streams[(id - 1) as usize]);
            i += 1;
        }
        out
    }

    /// The streams `user` sent, oldest first.
    pub fn get_user_sent_streams(&self, user: Account) -> (r: Vec<&Stream>)
        requires
            self.wf(),
        ensures
            r@.len() == self.sent_ids(user).len(),
            forall|i: int|
                0 <= i < r@.len() ==> *#[trigger] r@[i] == self.stream(self.sent_ids(user)[i]),
    {
        let ids = self.get_user_sent_stream_ids(user);
        proof {
            lemma_stream_ids_in_range(self.streams@, sent_by(user));
        }
        self.streams_of(&ids)
    }

    /// The streams that pay `user`, oldest first.
    pub fn get_user_received_streams(&self, user: Account) -> (r: Vec<&Stream>)
        requires
            self.wf(),
        ensures
            r@.len() == self.received_ids(user).len(),
            forall|i: int|
                0 <= i < r@.len() ==> *#[trigger] r@[i] == self.stream(self.received_ids(user)[i]),
    {
        let ids = self.get_user_received_stream_ids(user);
        proof {
            lemma_stream_ids_in_range(self.streams@, paying(user));
        }
        self.streams_of(&ids)
    }

    /// Identifiers of the streams `user` sent, then of those that pay `user`
    /// and that `user` did not send.
    fn user_stream_ids(&self, user: Account) -> (r: Vec<u32>)
        requires
            self.wf(),
        ensures
            r@ == self.user_ids(user),
    {
        let mut out = self.get_user_sent_stream_ids(user);
        let ghost sent = out@;
        let ghost keep = paying_not_sent_by(user);
        let mut i: usize = 0;
        proof {
            assert(stream_ids_where(self.streams@.subrange(0, 0), keep) =~= Seq::<u32>::empty());
            assert(out@ =~= sent + stream_ids_where(self.streams@.subrange(0, 0), keep));
        }
        while i < self.streams.len()
            invariant
                self.wf(),
                keep == paying_not_sent_by(user),
                0 <= i <= self.streams@.len(),
                out@ == sent + stream_ids_where(self.streams@.subrange(0, i as int), keep),
            decreases self.streams@.len() - i,
        {
            proof {
                assert(self.streams@.subrange(0, i + 1).drop_last() =~= self.streams@.subrange(
                    0,
                    i as int,
                ));
                assert(self.streams@[i as int].wf());
                assert(keep(self.streams@[i as int]) == (self.streams@[i as int].recipients@.contains(
                    user,
                ) && self.streams@[i as int].sender != user));
            }
            if self.streams[i].sender != user && self.streams[i].recipient_index(user).is_some() {
                out.push(self.streams[i].id);
                proof {
                    assert(out@ =~= sent + stream_ids_where(self.streams@.subrange(0, i + 1), keep));
                }
            }
            i += 1;
        }
        proof {
            assert(self.streams@.subrange(0, self.streams@.len() as int) =~= self.streams@);
        }
        out
    }

    /// The streams `user` sent, then those that pay `user` and that `user`
    /// did not send; each list oldest first, no stream twice.
    pub fn get_user_streams(&self, user: Account) -> (r: Vec<&Stream>)
        requires
            self.wf(),
        ensures
            r@.len() == self.user_ids(user).len(),
            forall|i: int|
                0 <= i < r@.len() ==> *#[trigger] r@[i] == self.stream(self.user_ids(user)[i]),
    {
        let ids = self.user_stream_ids(user);
        proof {
            lemma_stream_ids_in_range(self.streams@, sent_by(user));
            lemma_stream_ids_in_range(self.streams@, paying_not_sent_by(user));
            let a = self.sent_ids(user);
            let b = stream_ids_where(self.streams@, paying_not_sent_by(user));
            assert forall|i: int| 0 <= i < ids@.len() implies self.has_stream(#[trigger] ids@[i]) by {
                if i < a.len() {
                    assert(ids@[i] == a[i]);
                } else {
                    assert(ids@[i] == b[i - a.len()]);
                }
            }
        }
        self.streams_of(&ids)
    }

    /// Identifiers of the subscriptions `user` pays, oldest first.
    pub fn get_user_subs_ids(&self, user: Account) -> (r: Vec<u32>)
        requires
            self.wf(),
        ensures
            r@ == self.subscriber_ids(user),
    {
        let ghost keep = paid_by(user);
        let mut out: Vec<u32> = Vec::new();
        let mut i: usize = 0;
        while i < self.subscriptions.len()
            invariant
                keep == paid_by(user),
                0 <= i <= self.subscriptions@.len(),
                out@ == subscription_ids_where(self.subscriptions@.subrange(0, i as int), keep),
            decreases self.subscriptions@.len() - i,
        {
            proof {
                assert(self.subscriptions@.subrange(0, i + 1).drop_last()
                    =~= self.subscriptions@.subrange(0, i as int));
                assert(keep(self.subscriptions@[i as int]) == (self.subscriptions@[i as int].subscriber
                    == user));
            }
            if self.subscriptions[i].subscriber == user {
                out.push(self.subscriptions[i].id);
            }
            i += 1;
        }
        proof {
            assert(self.subscriptions@.subrange(0, self.subscriptions@.len() as int)
                =~= self.subscriptions@);
        }
        out
    }

    /// Identifiers of the subscriptions that pay `user`, oldest first.
    pub fn get_user_rcvd_subs_ids(&self, user: Account) -> (r: Vec<u32>)
        requires
            self.wf(),
        ensures
            r@ == self.receiver_ids(user),
    {
        let ghost keep = received_by(user);
        let mut out: Vec<u32> = Vec::new();
        let mut i: usize = 0;
        while i < self.subscriptions.len()
            invariant
                keep == received_by(user),
                0 <= i <= self.subscriptions@.len(),
                out@ == subscription_ids_where(self.subscriptions@.subrange(0, i as int), keep),
            decreases self.subscriptions@.len() - i,
        {
            proof {
                assert(self.subscriptions@.subrange(0, i + 1).drop_last()
                    =~= self.subscriptions@.subrange(0, i as int));
                assert(keep(self.subscriptions@[i as int]) == (self.subscriptions@[i as int].receiver
                    == user));
            }
            if self.subscriptions[i].receiver == user {
                out.push(self.subscriptions[i].id);
            }
            i += 1;
        }
        proof {
            assert(self.subscriptions@.subrange(0, self.subscriptions@.len() as int)
                =~= self.subscriptions@);
        }
        out
    }

    /// Identifiers of the subscriptions `user` pays, then of those that pay
    /// `user` and that `user` does not pay.
    fn subscription_user_ids_of(&self, user: Account) -> (r: Vec<u32>)
        requires
            self.wf(),
        ensures
            r@ == self.subscription_user_ids(user),
    {
        let mut out = self.get_user_subs_ids(user);
        let ghost paid = out@;
        let ghost keep = received_not_paid_by(user);
        let mut i: usize = 0;
        proof {
            assert(subscription_ids_where(self.subscriptions@.subrange(0, 0), keep)
                =~= Seq::<u32>::empty());
            assert(out@ =~= paid + subscription_ids_where(self.subscriptions@.subrange(0, 0), keep));
        }
        while i < self.subscriptions.len()
            invariant
                keep == received_not_paid_by(user),
                0 <= i <= self.subscriptions@.len(),
                out@ == paid + subscription_ids_where(self.subscriptions@.subrange(0, i as int), keep),
            decreases self.subscriptions@.len() - i,
        {
            proof {
                assert(self.subscriptions@.subrange(0, i + 1).drop_last()
                    =~= self.subscriptions@.subrange(0, i as int));
                assert(keep(self.subscriptions@[i as int]) == (self.subscriptions@[i as int].receiver
                    == user && self.subscriptions@[i as int].subscriber != user));
            }
            if self.subscriptions[i].receiver == user && self.subscriptions[i].subscriber != user {
                out.push(self.subscriptions[i].id);
                proof {
                    assert(out@ =~= paid + subscription_ids_where(
                        self.subscriptions@.subrange(0, i + 1),
                        keep,
                    ));
                }
            }
            i += 1;
        }
        proof {
            assert(self.subscriptions@.subrange(0, self.subscriptions@.len() as int)
                =~= self.subscriptions@);
        }
        out
    }

    /// The subscriptions with the given identifiers, in that order.
    fn subscriptions_of(&self, ids: &Vec<u32>) -> (r: Vec<&Subscription>)
        requires
            self.wf(),
            forall|i: int| 0 <= i < ids@.len() ==> self.has_subscription(#[trigger] ids@[i]),
        ensures
            r@.len() == ids@.len(),
            forall|i: int| 0 <= i < ids@.len() ==> *#[trigger] r@[i] == self.subscription(ids@[i]),
    {
        let mut out: Vec<&Subscription> = Vec::new();
        let mut i: usize = 0;
        while i < ids.len()
            invariant
                0 <= i <= ids@.len(),
                forall|j: int| 0 <= j < ids@.len() ==> self.has_subscription(#[trigger] ids@[j]),
                out@.len() == i,
                forall|j: int| 0 <= j < i ==> *#[trigger] out@[j] == self.subscription(ids@[j]),
            decreases ids@.len() - i,
        {
            let id = ids[i];
            proof {
                assert(self.has_subscription(ids@[i as int]));
            }
            out.push(&self.subscriptions[(id - 1) as usize]);
            i += 1;
        }
        out
    }

    /// The subscriptions `user` pays, oldest first.
    pub fn get_user_subscriptions(&self, user: Account) -> (r: Vec<&Subscription>)
        requires
            self.wf(),
        ensures
            r@.len() == self.subscriber_ids(user).len(),
            forall|i: int|
                0 <= i < r@.len() ==> *#[trigger] r@[i] == self.subscription(
                    self.subscriber_ids(user)[i],
                ),
    {
        let ids = self.get_user_subs_ids(user);
        proof {
            lemma_subscription_ids_in_range(self.subscriptions@, paid_by(user));
        }
        self.subscriptions_of(&ids)
    }

    /// The subscriptions that pay `user`, oldest first.
    pub fn get_user_received_subscriptions(&self, user: Account) -> (r: Vec<&Subscription>)
        requires
            self.wf(),
        ensures
            r@.len() == self.receiver_ids(user).len(),
            forall|i: int|
                0 <= i < r@.len() ==> *#[trigger] r@[i] == self.subscription(
                    self.receiver_ids(user)[i],
                ),
    {
        let ids = self.get_user_rcvd_subs_ids(user);
        proof {
            lemma_subscription_ids_in_range(self.subscriptions@, received_by(user));
        }
        self.subscriptions_of(&ids)
    }

    /// The subscriptions `user` pays, then those that pay `user` and that
    /// `user` does not pay; each list oldest first, none twice.
    pub fn get_user_subscriptions_all(&self, user: Account) -> (r: Vec<&Subscription>)
        requires
            self.wf(),
        ensures
            r@.len() == self.subscription_user_ids(user).len(),
            forall|i: int|
                0 <= i < r@.len() ==> *#[trigger] r@[i] == self.subscription(
                    self.subscription_user_ids(user)[i],
                ),
    {
        let ids = self.subscription_user_ids_of(user);
        proof {
            lemma_subscription_ids_in_range(self.subscriptions@, paid_by(user));
            lemma_subscription_ids_in_range(self.subscriptions@, received_not_paid_by(user));
            let a = self.subscriber_ids(user);
            let b = subscription_ids_where(self.subscriptions@, received_not_paid_by(user));
            assert forall|i: int| 0 <= i < ids@.len() implies self.has_subscription(
                #[trigger] ids@[i],
            ) by {
                if i < a.len() {
                    assert(ids@[i] == a[i]);
                } else {
                    assert(ids@[i] == b[i - a.len()]);
                }
            }
        }
        self.subscriptions_of(&ids)
    }
}

} // verus!
