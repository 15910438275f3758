use vstd::prelude::*;

use crate::account::Account;
use crate::accrual::{add_capped, cap, mul_capped};
use crate::error::Error;
use crate::text::{
    normalize_optional_text, normalized_text, text_ok, MAX_DESCRIPTION_LEN, MAX_TITLE_LEN,
};

verus! {

/// A fixed amount paid to one receiver at fixed intervals, out of an escrow
/// balance that belongs to this subscription alone.
pub struct Subscription {
    pub id: u32,
    pub subscriber: Account,
    pub receiver: Account,
    pub token_contract: Account,
    pub amount_per_interval: i128,
    pub interval_seconds: u64,
    pub next_payment_time: u64,
    pub active: bool,
    pub balance: i128,
    pub title: Option<String>,
    pub description: Option<String>,
}

impl Subscription {
    /// The subscription's internal invariant.
    pub open spec fn wf(&self) -> bool {
        &&& self.amount_per_interval > 0
        &&& self.interval_seconds > 0
        &&& self.balance >= 0
    }

    /// Number of intervals a charge at `now` settles: 1 within the first
    /// interval after `next_payment_time`, and one more for each further
    /// interval that has fully elapsed.
    pub open spec fn due_intervals(&self, now: u64) -> int {
        if now < self.next_payment_time + self.interval_seconds {
            1
        } else {
            (now - self.next_payment_time) / (self.interval_seconds as int) + 1
        }
    }

    /// The amount a charge at `now` moves, saturating.
    pub open spec fn charge_amount(&self, now: u64) -> int {
        cap(self.amount_per_interval * self.due_intervals(now))
    }

    /// The outcome of a charge at `now`.
    pub open spec fn charge_result(&self, now: u64) -> Result<i128, Error> {
        if !self.active {
            Err(Error::SubscriptionInactive)
        } else if now < self.next_payment_time {
            Err(Error::NotDueYet)
        } else if self.balance < self.charge_amount(now) {
            Err(Error::InsufficientContractBalance)
        } else {
            Ok(self.charge_amount(now) as i128)
        }
    }

    /// The fields that no operation changes.
    pub open spec fn same_terms(&self, other: &Subscription) -> bool {
        &&& self.id == other.id
        &&& self.subscriber == other.subscriber
        &&& self.receiver == other.receiver
        &&& self.token_contract == other.token_contract
        &&& self.amount_per_interval == other.amount_per_interval
        &&& self.interval_seconds == other.interval_seconds
        &&& self.title == other.title
        &&& self.description == other.description
    }

    /// `self` is a subscription just created as `id` from the given terms.
    pub open spec fn created_from(
        &self,
        id: u32,
        subscriber: Account,
        receiver: Account,
        token_contract: Account,
        amount_per_interval: i128,
        interval_seconds: u64,
        first_payment_time: u64,
        title: Option<String>,
        description: Option<String>,
    ) -> bool {
        &&& self.wf()
        &&& self.id == id
        &&& self.subscriber == subscriber
        &&& self.receiver == receiver
        &&& self.token_contract == token_contract
        &&& self.amount_per_interval == amount_per_interval
        &&& self.interval_seconds == interval_seconds
        &&& self.next_payment_time == first_payment_time
        &&& self.active
        &&& self.balance == 0
        &&& self.title == normalized_text(title)
        &&& self.description == normalized_text(description)
    }

    /// Creates subscription `id`, active, with an empty balance. The amount
    /// and the interval must be positive, and the title and description not
    /// too long.
    pub fn new(
        id: u32,
        subscriber: Account,
        receiver: Account,
        token_contract: Account,
        amount_per_interval: i128,
        interval_seconds: u64,
        first_payment_time: u64,
        title: Option<String>,
        description: Option<String>,
    ) -> (r: Result<Subscription, Error>)
        ensures
            r is Ok <==> amount_per_interval > 0 && interval_seconds > 0 && text_ok(
                title,
                MAX_TITLE_LEN,
            ) && text_ok(description, MAX_DESCRIPTION_LEN),
            r matches Err(e) ==> e == Error::InvalidParameters,
            r matches Ok(s) ==> s.created_from(
                id,
                subscriber,
                receiver,
                token_contract,
                amount_per_interval,
                interval_seconds,
                first_payment_time,
                title,
                description,
            ),
    {
        if amount_per_interval <= 0 || interval_seconds == 0 {
            return Err(Error::InvalidParameters);
        }
        let title = match normalize_optional_text(title, MAX_TITLE_LEN) {
            Ok(t) => t,
            Err(e) => {
                return Err(e);
            },
        };
        let description = match normalize_optional_text(description, MAX_DESCRIPTION_LEN) {
            Ok(t) => t,
            Err(e) => {
                return Err(e);
            },
        };
        Ok(
            Subscription {
                id,
                subscriber,
                receiver,
                token_contract,
                amount_per_interval,
                interval_seconds,
                next_payment_time: first_payment_time,
                active: true,
                balance: 0,
                title,
                description,
            },
        )
    }

    /// Adds `amount` to the escrow balance, saturating; the amount must be
    /// positive.
    pub fn deposit(&mut self, amount: i128) -> (r: Result<(), Error>)
        requires
            old(self).wf(),
        ensures
            final(self).wf(),
            amount <= 0 ==> r == Err::<(), Error>(Error::InvalidParameters) && *final(self) == *old(
                self,
            ),
            amount > 0 ==> {
                &&& r == Ok::<(), Error>(())
                &&& final(self).same_terms(old(self))
                &&& final(self).next_payment_time == old(self).next_payment_time
                &&& final(self).active == old(self).active
                &&& final(self).balance == cap(old(self).balance + amount)
            },
    {
        if amount <= 0 {
            return Err(Error::InvalidParameters);
        }
        self.balance = add_capped(self.balance, amount);
        Ok(())
    }

    /// Settles every interval due at `now` in one payment and returns its
    /// amount; the balance is debited and `next_payment_time` advances past the
    /// settled intervals. A charge the balance cannot cover changes nothing.
    pub fn charge(&mut self, now: u64) -> (r: Result<i128, Error>)
        requires
            old(self).wf(),
            now + old(self).interval_seconds <= u64::MAX,
        ensures
            final(self).wf(),
            r == old(self).charge_result(now),
            match r {
                Ok(a) => {
                    &&& final(self).same_terms(old(self))
                    &&& final(self).active == old(self).active
                    &&& final(self).balance == old(self).balance - a
                    &&& final(self).next_payment_time == old(self).next_payment_time + old(
                        self,
                    ).due_intervals(now) * old(self).interval_seconds
                },
                Err(_) => *final(self) == *old(self),
            },
    {
        if !self.active {
            return Err(Error::SubscriptionInactive);
        }
        if now < self.next_payment_time {
            return Err(Error::NotDueYet);
        }
        let interval = self.interval_seconds;
        let elapsed = now - self.next_payment_time;
        let due: u64 = if elapsed < interval {
            1
        } else {
            elapsed / interval + 1
        };
        proof {
            assert(due == self.due_intervals(now));
            assert(due * interval <= elapsed + interval) by (nonlinear_arith)
                requires
                    interval > 0,
                    elapsed >= 0,
                    elapsed < interval ==> due == 1,
                    elapsed >= interval ==> due == elapsed / interval + 1,
            ;
            assert(due >= 1);
        }
        let amount = mul_capped(self.amount_per_interval, due as i128);
        if self.balance < amount {
            return Err(Error::InsufficientContractBalance);
        }
        self.balance = self.balance - amount;
        self.next_payment_time = self.next_payment_time + due * interval;
        Ok(amount)
    }

    /// Ends the subscription for good and returns the whole balance as the
    /// subscriber's refund; the balance becomes 0.
    pub fn cancel(&mut self) -> (r: i128)
        requires
            old(self).wf(),
        ensures
            final(self).wf(),
            r == old(self).balance,
            final(self).same_terms(old(self)),
            final(self).next_payment_time == old(self).next_payment_time,
            final(self).balance == 0,
            !final(self).active,
    {
        let refund = self.balance;
        self.balance = 0;
        self.active = false;
        refund
    }
}

} // verus!
