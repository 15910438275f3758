use vstd::prelude::*;

use crate::account::Account;
use crate::accrual::{
    all_non_negative, all_positive, cap, lemma_sum_ge_entry, lemma_sum_non_negative,
    lemma_sum_scaled_bound, lemma_sum_update, min, mul_capped, sum,
    total_outflow_rate,
};
use crate::error::Error;
use crate::text::{normalize_optional_text, normalized_text, text_ok, MAX_DESCRIPTION_LEN, MAX_TITLE_LEN};

verus! {

/// A deposit shared by one or more recipients, each accruing at a fixed rate
/// per second until the deposit is used up or the sender cancels.
///
/// The per-recipient vectors are indexed like `recipients`.
pub struct Stream {
    pub id: u32,
    pub sender: Account,
    pub recipients: Vec<Account>,
    pub token_contract: Account,
    pub recipient_rate_per_second: Vec<i128>,
    pub deposit: i128,
    pub start_time: u64,
    /// `None` for a recipient that never withdrew, which counts as `start_time`.
    pub recipient_last_withdraw: Vec<Option<u64>>,
    pub recipient_total_withdrawn: Vec<i128>,
    pub is_active: bool,
    pub title: Option<String>,
    pub description: Option<String>,
}

/// Rate per second derived from an amount per period, truncating.
pub open spec fn rate_for(amount: i128, period_seconds: u64) -> int {
    amount as int / period_seconds as int
}

/// No account occurs twice.
pub open spec fn distinct(v: Seq<Account>) -> bool {
    forall|i: int, j: int| 0 <= i < j < v.len() ==> v[i] != v[j]
}

/// The terms a stream can be created with: at least one recipient, each once,
/// one amount per recipient, a positive period and deposit, and every amount
/// at least one unit per second once divided by the period.
pub open spec fn stream_terms_ok(
    recipients: Seq<Account>,
    amounts_per_period: Seq<i128>,
    period_seconds: u64,
    deposit: i128,
) -> bool {
    &&& recipients.len() > 0
    &&& recipients.len() == amounts_per_period.len()
    &&& distinct(recipients)
    &&& period_seconds > 0
    &&& deposit > 0
    &&& forall|i: int|
        0 <= i < amounts_per_period.len() ==> #[trigger] amounts_per_period[i] > 0
            && rate_for(amounts_per_period[i], period_seconds) > 0
}

/// Whether some account occurs twice, by a pairwise scan.
pub fn has_duplicates(v: &Vec<Account>) -> (r: bool)
    ensures
        r == !distinct(v@),
{
    let n = v.len();
    let mut i: usize = 0;
    while i < n
        invariant
            n == v@.len(),
            0 <= i <= n,
            forall|a: int, b: int| 0 <= a < i && a < b < n ==> v@[a] != v@[b],
        decreases n - i,
    {
        let mut j: usize = i + 1;
        while j < n
            invariant
                n == v@.len(),
                0 <= i < n,
                i < j <= n,
                forall|a: int, b: int| 0 <= a < i && a < b < n ==> v@[a] != v@[b],
                forall|b: int| i < b < j ==> v@[i as int] != v@[b],
            decreases n - j,
        {
            if v[i] == v[j] {
                return true;
            }
            j += 1;
        }
        i += 1;
    }
    false
}

/// `cap(e * cap(r)) == cap(e * r)` for non-negative `e` and `r`: saturating the
/// combined rate first does not change the saturated product.
proof fn lemma_cap_product(e: int, r: int)
    requires
        e >= 0,
        r >= 0,
    ensures
        cap(e * cap(r)) == cap(e * r),
{
    if r > i128::MAX {
        if e >= 1 {
            assert(e * (i128::MAX as int) >= i128::MAX) by (nonlinear_arith)
                requires
                    e >= 1,
            ;
            assert(e * r > i128::MAX) by (nonlinear_arith)
                requires
                    e >= 1,
                    r > i128::MAX,
            ;
        } else {
            assert(e == 0);
        }
    }
}

impl Stream {
    /// Number of recipients.
    pub open spec fn count(&self) -> int {
        self.recipients@.len() as int
    }

    /// When recipient `i` last withdrew, `start_time` if never.
    pub open spec fn last_withdraw_of(&self, i: int) -> u64 {
        match self.recipient_last_withdraw@[i] {
            Some(t) => t,
            None => self.start_time,
        }
    }

    pub open spec fn rate_of(&self, i: int) -> int {
        self.recipient_rate_per_second@[i] as int
    }

    pub open spec fn withdrawn_of(&self, i: int) -> int {
        self.recipient_total_withdrawn@[i] as int
    }

    /// Position of a recipient in `recipients`.
    pub open spec fn index_of(&self, a: Account) -> int {
        self.recipients@.index_of(a)
    }

    /// Sum of all recipients' rates.
    pub open spec fn total_rate(&self) -> int {
        sum(self.recipient_rate_per_second@)
    }

    /// Sum of what every recipient has been paid.
    pub open spec fn total_withdrawn(&self) -> int {
        sum(self.recipient_total_withdrawn@)
    }

    /// What all recipients together have accrued from `start_time` to `now`,
    /// saturating.
    pub open spec fn distributed_at(&self, now: u64) -> int {
        cap((now - self.start_time) * self.total_rate())
    }

    /// The deposit that is not yet distributed at `now`; negative once the
    /// combined rate has outrun the deposit.
    pub open spec fn remaining_at(&self, now: u64) -> int {
        self.deposit - self.distributed_at(now)
    }

    /// What recipient `i` has accrued since its last withdrawal, saturating.
    pub open spec fn accrued_at(&self, i: int, now: u64) -> int {
        cap((now - self.last_withdraw_of(i)) * self.rate_of(i))
    }

    /// What a withdrawal by recipient `i` at `now` would pay: its accrual,
    /// capped by the remaining deposit.
    pub open spec fn payable_at(&self, i: int, now: u64) -> int {
        min(self.accrued_at(i, now), self.remaining_at(now))
    }

    /// What recipient `i` could collect at `now`, as the queries report it:
    /// nothing once the remaining deposit is not positive.
    pub open spec fn claimable_at(&self, i: int, now: u64) -> int {
        if self.remaining_at(now) > 0 {
            self.payable_at(i, now)
        } else {
            0
        }
    }

    /// The stream's internal invariant.
    pub open spec fn wf(&self) -> bool {
        let n = self.recipients@.len();
        &&& n > 0
        &&& self.recipient_rate_per_second@.len() == n
        &&& self.recipient_last_withdraw@.len() == n
        &&& self.recipient_total_withdrawn@.len() == n
        &&& forall|i: int, j: int|
            0 <= i < j < n ==> self.recipients@[i] != self.recipients@[j]
        &&& all_positive(self.recipient_rate_per_second@)
        &&& self.deposit >= 0
        &&& forall|i: int| 0 <= i < n ==> self.start_time <= #[trigger] self.last_withdraw_of(i)
        &&& forall|i: int|
            0 <= i < n ==> 0 <= #[trigger] self.withdrawn_of(i) <= (self.last_withdraw_of(i)
                - self.start_time) * self.rate_of(i)
    }

    /// `now` is a reading of a clock that never runs backwards: not before the
    /// start, nor before any recorded withdrawal.
    pub open spec fn time_ok(&self, now: u64) -> bool {
        &&& self.start_time <= now
        &&& forall|i: int| 0 <= i < self.count() ==> #[trigger] self.last_withdraw_of(i) <= now
    }

    /// Neither the current deposit nor the sum paid out exceeds `d`, the
    /// deposit the stream was created with.
    pub open spec fn within_deposit(&self, d: int) -> bool {
        &&& self.deposit <= d
        &&& self.total_withdrawn() <= d
    }

    /// The fields that no operation changes.
    pub open spec fn same_terms(&self, other: &Stream) -> bool {
        &&& self.id == other.id
        &&& self.sender == other.sender
        &&& self.recipients@ == other.recipients@
        &&& self.token_contract == other.token_contract
        &&& self.recipient_rate_per_second@ == other.recipient_rate_per_second@
        &&& self.start_time == other.start_time
        &&& self.title == other.title
        &&& self.description == other.description
    }

    /// What paying `amount` to recipient `i` at `now` does to a stream: the
    /// recipient's last withdrawal becomes `now`, its total grows by `amount`,
    /// and the stream stays active only while the remaining deposit left after
    /// the payment is positive.
    pub open spec fn paid(&self, old: &Stream, i: int, now: u64, amount: int) -> bool {
        &&& self.same_terms(old)
        &&& self.deposit == old.deposit
        &&& self.recipient_last_withdraw@ == old.recipient_last_withdraw@.update(i, Some(now))
        &&& self.recipient_total_withdrawn@ == old.recipient_total_withdrawn@.update(
            i,
            (old.withdrawn_of(i) + amount) as i128,
        )
        &&& self.is_active == (old.remaining_at(now) - amount > 0)
    }

    /// The outcome of a withdrawal by `recipient` at `now`.
    pub open spec fn withdraw_result(&self, recipient: Account, now: u64) -> Result<i128, Error> {
        let i = self.index_of(recipient);
        if !self.is_active {
            Err(Error::StreamInactive)
        } else if !self.recipients@.contains(recipient) {
            Err(Error::InvalidParameters)
        } else if now <= self.last_withdraw_of(i) {
            Ok(0)
        } else if self.payable_at(i, now) <= 0 {
            Err(Error::NothingToWithdraw)
        } else {
            Ok(self.payable_at(i, now) as i128)
        }
    }

    /// Sum paid out is bounded by what the combined rate has produced up to
    /// any time the clock may read.
    pub proof fn lemma_withdrawn_le_produced(&self, now: u64)
        requires
            self.wf(),
            self.time_ok(now),
        ensures
            self.total_withdrawn() <= (now - self.start_time) * self.total_rate(),
    {
        let e = now - self.start_time;
        assert forall|j: int| 0 <= j < self.count() implies self.recipient_total_withdrawn@[j]
            <= e * self.recipient_rate_per_second@[j] by {
            let l = self.last_withdraw_of(j) - self.start_time;
            let r = self.rate_of(j);
            assert(self.withdrawn_of(j) <= l * r);
            assert(l * r <= e * r) by (nonlinear_arith)
                requires
                    0 <= l <= e,
                    r > 0,
            ;
        }
        lemma_sum_scaled_bound(self.recipient_total_withdrawn@, self.recipient_rate_per_second@, e);
    }

    /// `self` is a stream just created as `id` at `now` from the given terms.
    pub open spec fn created_from(
        &self,
        id: u32,
        sender: Account,
        recipients: Seq<Account>,
        token_contract: Account,
        amounts_per_period: Seq<i128>,
        period_seconds: u64,
        deposit: i128,
        title: Option<String>,
        description: Option<String>,
        now: u64,
    ) -> bool {
        &&& self.wf()
        &&& self.id == id
        &&& self.sender == sender
        &&& self.recipients@ == recipients
        &&& self.token_contract == token_contract
        &&& self.deposit == deposit
        &&& self.start_time == now
        &&& self.is_active
        &&& self.title == normalized_text(title)
        &&& self.description == normalized_text(description)
        &&& forall|i: int|
            0 <= i < self.count() ==> {
                &&& #[trigger] self.rate_of(i) == rate_for(amounts_per_period[i], period_seconds)
                &&& self.recipient_last_withdraw@[i] is None
                &&& self.withdrawn_of(i) == 0
            }
        &&& self.total_withdrawn() == 0
        &&& self.within_deposit(deposit as int)
        &&& self.time_ok(now)
    }

    /// Creates stream `id`, started at `now`, from its terms. Each recipient's
    /// rate is its amount per period divided by the period, truncating; terms
    /// that are malformed or give a rate of 0 are rejected, as is a title or
    /// description that is too long. Nobody has withdrawn yet.
    pub fn new(
        id: u32,
        sender: Account,
        recipients: Vec<Account>,
        token_contract: Account,
        amounts_per_period: Vec<i128>,
        period_seconds: u64,
        deposit: i128,
        title: Option<String>,
        description: Option<String>,
        now: u64,
    ) -> (r: Result<Stream, Error>)
        ensures
            r is Ok <==> stream_terms_ok(recipients@, amounts_per_period@, period_seconds, deposit)
                && text_ok(title, MAX_TITLE_LEN) && text_ok(description, MAX_DESCRIPTION_LEN),
            r matches Err(e) ==> e == Error::InvalidParameters,
            r matches Ok(s) ==> s.created_from(
                id,
                sender,
                recipients@,
                token_contract,
                amounts_per_period@,
                period_seconds,
                deposit,
                title,
                description,
                now,
            ),
    {
        if recipients.len() == 0 || recipients.len() != amounts_per_period.len() {
            return Err(Error::InvalidParameters);
        }
        if has_duplicates(&recipients) {
            return Err(Error::InvalidParameters);
        }
        if period_seconds == 0 || deposit <= 0 {
            return Err(Error::InvalidParameters);
        }
        let title = match normalize_optional_text(title, MAX_TITLE_LEN) {
            Ok(t) => t,
            Err(e) => {
                return Err(e);
            },
        };
        let description = match normalize_optional_text(description, MAX_DESCRIPTION_LEN) {
            Ok(t) => t,
            Err(e) => {
                return Err(e);
            },
        };
        let n = recipients.len();
        let period = period_seconds as i128;
        let mut rates: Vec<i128> = Vec::new();
        let mut last: Vec<Option<u64>> = Vec::new();
        let mut totals: Vec<i128> = Vec::new();
        let mut i: usize = 0;
        while i < n
            invariant
                n == recipients@.len(),
                n == amounts_per_period@.len(),
                period == period_seconds as int,
                period > 0,
                0 <= i <= n,
                rates@.len() == i,
                last@.len() == i,
                totals@.len() == i,
                forall|k: int|
                    0 <= k < i ==> #[trigger] amounts_per_period@[k] > 0 && rate_for(amounts_per_period@[k], period_seconds) > 0,
                forall|k: int|
                    0 <= k < i ==> #[trigger] rates@[k] == rate_for(amounts_per_period@[k], period_seconds),
                forall|k: int| 0 <= k < i ==> #[trigger] last@[k] is None,
                forall|k: int| 0 <= k < i ==> #[trigger] totals@[k] == 0,
            decreases n - i,
        {
            let amount = amounts_per_period[i];
            if amount <= 0 {
                return Err(Error::InvalidParameters);
            }
            let rate = amount / period;
            if rate <= 0 {
                return Err(Error::InvalidParameters);
            }
            rates.push(rate);
            last.push(None);
            totals.push(0);
            i += 1;
        }
        let s = Stream {
            id,
            sender,
            recipients,
            token_contract,
            recipient_rate_per_second: rates,
            deposit,
            start_time: now,
            recipient_last_withdraw: last,
            recipient_total_withdrawn: totals,
            is_active: true,
            title,
            description,
        };
        proof {
            crate::accrual::lemma_sum_zeros(s.recipient_total_withdrawn@);
            assert forall|k: int| 0 <= k < s.count() implies #[trigger] s.last_withdraw_of(k)
                == now by {}
        }
        Ok(s)
    }

    /// Finds the position of `recipient` among the stream's recipients.
    pub fn recipient_index(&self, recipient: Account) -> (r: Option<usize>)
        requires
            self.wf(),
        ensures
            match r {
                Some(i) => i < self.count() && self.recipients@[i as int] == recipient
                    && self.index_of(recipient) == i,
                None => !self.recipients@.contains(recipient),
            },
    {
        let mut i: usize = 0;
        while i < self.recipients.len()
            invariant
                self.wf(),
                0 <= i <= self.recipients@.len(),
                forall|k: int| 0 <= k < i ==> self.recipients@[k] != recipient,
            decreases self.recipients@.len() - i,
        {
            if self.recipients[i] == recipient {
                proof {
                    assert(self.recipients@.contains(recipient));
                    let j = self.index_of(recipient);
                    assert(0 <= j < self.count() && self.recipients@[j] == recipient);
                    assert(j == i) by {
                        if j < i {
                        } else if j > i {
                            assert(self.recipients@[i as int] != self.recipients@[j]);
                        }
                    }
                }
                return Some(i);
            }
            i += 1;
        }
        None
    }

    /// The deposit not yet distributed at `now`:
    /// `deposit - (now - start_time) * Σ rate`, saturating.
    pub fn remaining_deposit(&self, now: u64) -> (r: i128)
        requires
            self.wf(),
            self.start_time <= now,
        ensures
            r == self.remaining_at(now),
    {
        let total_rate = total_outflow_rate(&self.recipient_rate_per_second);
        let elapsed = (now - self.start_time) as i128;
        proof {
            lemma_sum_non_negative(self.recipient_rate_per_second@);
        }
        let distributed = mul_capped(elapsed, total_rate);
        proof {
            lemma_cap_product(elapsed as int, self.total_rate());
        }
        self.deposit - distributed
    }

    /// Pays `recipient` what it has accrued since its last withdrawal, capped by
    /// the remaining deposit, and returns the amount. A second call at the same
    /// instant pays 0. The stream goes inactive once the payment uses up the
    /// remaining deposit.
    pub fn withdraw(&mut self, recipient: Account, now: u64) -> (r: Result<i128, Error>)
        requires
            old(self).wf(),
        ensures
            final(self).wf(),
            r == old(self).withdraw_result(recipient, now),
            match r {
                Ok(a) => if a > 0 {
                    final(self).paid(old(self), old(self).index_of(recipient), now, a as int)
                } else {
                    *final(self) == *old(self)
                },
                Err(_) => *final(self) == *old(self),
            },
            !old(self).is_active ==> !final(self).is_active,
            old(self).time_ok(now) ==> final(self).time_ok(now),
            forall|d: int|
                old(self).time_ok(now) && #[trigger] old(self).within_deposit(d)
                    ==> final(self).within_deposit(d),
    {
        if !self.is_active {
            return Err(Error::StreamInactive);
        }
        let idx = match self.recipient_index(recipient) {
            Some(i) => i,
            None => {
                return Err(Error::InvalidParameters);
            },
        };
        let ghost gi = idx as int;
        let last = match self.recipient_last_withdraw[idx] {
            Some(t) => t,
            None => self.start_time,
        };
        if now <= last {
            return Ok(0);
        }
        let rate = self.recipient_rate_per_second[idx];
        let elapsed = (now - last) as i128;
        let accrued = mul_capped(elapsed, rate);
        let remaining = self.remaining_deposit(now);
        let amount = if accrued <= remaining {
            accrued
        } else {
            remaining
        };
        if amount <= 0 {
            return Err(Error::NothingToWithdraw);
        }
        let ghost pre = *self;
        proof {
            let e = now - pre.start_time;
            let l = last - pre.start_time;
            let big_r = pre.total_rate();
            lemma_sum_ge_entry(pre.recipient_rate_per_second@, gi);
            lemma_sum_non_negative(pre.recipient_rate_per_second@);
            assert(l * rate <= e * rate) by (nonlinear_arith)
                requires
                    0 <= l <= e,
                    rate > 0,
            ;
            assert(e * rate <= e * big_r) by (nonlinear_arith)
                requires
                    0 <= e,
                    rate <= big_r,
            ;
            assert(e * big_r >= 0) by (nonlinear_arith)
                requires
                    0 <= e,
                    0 <= big_r,
            ;
            assert(pre.withdrawn_of(gi) + amount <= pre.deposit);
        }
        let new_total = self.recipient_total_withdrawn[idx] + amount;
        self.recipient_last_withdraw[idx] = Some(now);
        self.recipient_total_withdrawn[idx] = new_total;
        if remaining - amount <= 0 {
            self.is_active = false;
        }
        proof {
            let post = *self;
            let e = now - pre.start_time;
            let el = now - last;
            let l = last - pre.start_time;
            assert(amount <= el * rate);
            assert(l * rate + el * rate == e * rate) by (nonlinear_arith)
                requires
                    l + el == e,
            ;
            assert forall|j: int| 0 <= j < post.count() implies 0 <= #[trigger] post.withdrawn_of(j)
                <= (post.last_withdraw_of(j) - post.start_time) * post.rate_of(j) by {
                if j != gi {
                    assert(post.withdrawn_of(j) == pre.withdrawn_of(j));
                    assert(post.last_withdraw_of(j) == pre.last_withdraw_of(j));
                }
            }
            assert forall|j: int| 0 <= j < post.count() implies post.start_time
                <= #[trigger] post.last_withdraw_of(j) by {
                if j != gi {
                    assert(post.last_withdraw_of(j) == pre.last_withdraw_of(j));
                }
            }
            if pre.time_ok(now) {
                assert forall|j: int| 0 <= j < post.count() implies #[trigger] post.last_withdraw_of(j) <= now by {
                    if j != gi {
                        assert(post.last_withdraw_of(j) == pre.last_withdraw_of(j));
                    }
                }
                pre.lemma_withdrawn_le_produced(now);
                lemma_sum_update(pre.recipient_total_withdrawn@, gi, new_total);
            }
        }
        Ok(amount)
    }

    /// Ends the stream at `now` and returns the refund owed to the sender: the
    /// remaining deposit when positive, else 0. The deposit becomes 0 and the
    /// stream inactive for good; what each recipient was paid is kept.
    pub fn cancel(&mut self, now: u64) -> (r: Result<i128, Error>)
        requires
            old(self).wf(),
            old(self).start_time <= now,
        ensures
            final(self).wf(),
            !old(self).is_active ==> r == Err::<i128, Error>(Error::StreamInactive) && *final(self)
                == *old(self),
            old(self).is_active ==> {
                &&& r == Ok::<i128, Error>(
                    if old(self).remaining_at(now) > 0 {
                        old(self).remaining_at(now) as i128
                    } else {
                        0
                    },
                )
                &&& final(self).same_terms(old(self))
                &&& final(self).recipient_last_withdraw@ == old(self).recipient_last_withdraw@
                &&& final(self).recipient_total_withdrawn@ == old(self).recipient_total_withdrawn@
                &&& final(self).deposit == 0
                &&& !final(self).is_active
            },
            old(self).time_ok(now) ==> final(self).time_ok(now),
            forall|d: int| #[trigger] old(self).within_deposit(d) ==> final(self).within_deposit(d),
    {
        if !self.is_active {
            return Err(Error::StreamInactive);
        }
        let remaining = self.remaining_deposit(now);
        let refund = if remaining > 0 {
            remaining
        } else {
            0
        };
        let ghost pre = *self;
        self.is_active = false;
        self.deposit = 0;
        proof {
            assert forall|j: int| 0 <= j < self.count() implies #[trigger] self.last_withdraw_of(j)
                == pre.last_withdraw_of(j) && self.withdrawn_of(j) == pre.withdrawn_of(j) by {}
            assert forall|j: int| 0 <= j < self.count() implies 0 <= #[trigger] self.withdrawn_of(j)
                <= (self.last_withdraw_of(j) - self.start_time) * self.rate_of(j) by {
                assert(self.last_withdraw_of(j) == pre.last_withdraw_of(j));
                assert(0 <= pre.withdrawn_of(j) <= (pre.last_withdraw_of(j) - pre.start_time)
                    * pre.rate_of(j));
            }
        }
        Ok(refund)
    }

    /// Reports, for `recipient` at `now`: what it has been paid, what it could
    /// collect now, and when it last withdrew (`start_time` if never).
    pub fn recipient_info(&self, recipient: Account, now: u64) -> (r: Result<(i128, i128, u64), Error>)
        requires
            self.wf(),
            self.time_ok(now),
        ensures
            !self.recipients@.contains(recipient) ==> r == Err::<(i128, i128, u64), Error>(
                Error::InvalidParameters,
            ),
            self.recipients@.contains(recipient) ==> r == Ok::<(i128, i128, u64), Error>(
                self.info_at(self.index_of(recipient), now),
            ),
    {
        match self.recipient_index(recipient) {
            Some(i) => {
                let remaining = self.remaining_deposit(now);
                Ok(self.info_of(i, remaining, now))
            },
            None => Err(Error::InvalidParameters),
        }
    }

    /// The report on recipient `i` at `now`.
    pub open spec fn info_at(&self, i: int, now: u64) -> (i128, i128, u64) {
        (
            self.recipient_total_withdrawn@[i],
            self.claimable_at(i, now) as i128,
            self.last_withdraw_of(i),
        )
    }

    fn info_of(&self, i: usize, remaining: i128, now: u64) -> (r: (i128, i128, u64))
        requires
            self.wf(),
            self.time_ok(now),
            i < self.count(),
            remaining == self.remaining_at(now),
        ensures
            r == self.info_at(i as int, now),
    {
        let total_withdrawn = self.recipient_total_withdrawn[i];
        let last = match self.recipient_last_withdraw[i] {
            Some(t) => t,
            None => self.start_time,
        };
        proof {
            assert(self.last_withdraw_of(i as int) <= now);
        }
        let elapsed = (now - last) as i128;
        let accrued = mul_capped(elapsed, self.recipient_rate_per_second[i]);
        let claimable = if remaining > 0 {
            if accrued <= remaining {
                accrued
            } else {
                remaining
            }
        } else {
            0
        };
        (total_withdrawn, claimable, last)
    }

    /// Reports every recipient at `now`, in the order of `recipients`: the
    /// recipient, what it has been paid, what it could collect now, and when
    /// it last withdrew.
    pub fn all_recipients_info(&self, now: u64) -> (r: Vec<(Account, i128, i128, u64)>)
        requires
            self.wf(),
            self.time_ok(now),
        ensures
            r@.len() == self.count(),
            forall|k: int|
                0 <= k < self.count() ==> #[trigger] r@[k] == (
                    self.recipients@[k],
                    self.info_at(k, now).0,
                    self.info_at(k, now).1,
                    self.info_at(k, now).2,
                ),
    {
        let remaining = self.remaining_deposit(now);
        let mut out: Vec<(Account, i128, i128, u64)> = Vec::new();
        let mut i: usize = 0;
        while i < self.recipients.len()
            invariant
                self.wf(),
                self.time_ok(now),
                remaining == self.remaining_at(now),
                0 <= i <= self.count(),
                out@.len() == i,
                forall|k: int|
                    0 <= k < i ==> #[trigger] out@[k] == (
                        self.recipients@[k],
                        self.info_at(k, now).0,
                        self.info_at(k, now).1,
                        self.info_at(k, now).2,
                    ),
            decreases self.count() - i,
        {
            let info = self.info_of(i, remaining, now);
            out.push((self.recipients[i], info.0, info.1, info.2));
            i += 1;
        }
        out
    }
}

/// Over any sequence of withdrawals and a cancellation, what the recipients
/// have been paid plus the deposit remaining at the current time never exceeds
/// the deposit the stream was created with.
pub proof fn lemma_deposit_conservation(s: &Stream, d: int, now: u64)
    requires
        s.wf(),
        s.within_deposit(d),
        s.time_ok(now),
    ensures
        s.total_withdrawn() + s.remaining_at(now) <= d,
{
    s.lemma_withdrawn_le_produced(now);
}

/// A withdrawal that paid something and left the stream active is followed,
/// at the same instant, by one that pays exactly 0.
pub proof fn lemma_withdraw_same_instant(s1: &Stream, s2: &Stream, recipient: Account, now: u64)
    requires
        s1.wf(),
        s1.withdraw_result(recipient, now) matches Ok(a) && a > 0,
        s2.paid(s1, s1.index_of(recipient), now, s1.withdraw_result(recipient, now)->Ok_0 as int),
        s2.is_active,
    ensures
        s2.withdraw_result(recipient, now) == Ok::<i128, Error>(0),
{
    assert(s2.recipients@ == s1.recipients@);
}

/// An inactive stream refuses every withdrawal with the same state error;
/// since a withdrawal never turns `is_active` back on, this lasts for good.
pub proof fn lemma_inactive_refuses(s: &Stream, recipient: Account, now: u64)
    requires
        !s.is_active,
    ensures
        s.withdraw_result(recipient, now) == Err::<i128, Error>(Error::StreamInactive),
{
}

} // verus!
