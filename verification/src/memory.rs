//! Accounting for the memory of a query's blocking operators.
//!
//! A [`QueryMemory`] is the budget of one query. Every claim on it is a [`MemoryReservation`], and
//! each change of a claim names the budget that it is charged to.

use crate::error::{outcome, ErrorView, SparkXError};
use crate::text::{decimal, join, numeral};
use vstd::prelude::*;

verus! {

pub const DEFAULT_MEMORY_LIMIT_BYTES: u64 = 512 * 1024 * 1024;

/// A query's budget: its limit, what is claimed of it now, and the most that ever was.
pub struct MemoryView {
    pub limit: nat,
    pub reserved: nat,
    pub peak: nat,
}

impl MemoryView {
    /// What holds of every budget.
    pub open spec fn wf(self) -> bool {
        &&& self.reserved <= self.peak <= self.limit
        &&& 1 <= self.limit <= u64::MAX
    }

    /// What keeps `bytes` more from being claimed, if anything does.
    pub open spec fn check(self, bytes: u64) -> Result<(), ErrorView> {
        if self.reserved + bytes > u64::MAX {
            Err(ErrorView::ResourceExhausted("query memory reservation overflowed"@))
        } else if self.reserved + bytes > self.limit {
            Err(
                ErrorView::ResourceExhausted(
                    "query requires at least "@ + numeral(self.reserved + bytes as nat)
                        + " bytes but its limit is "@ + numeral(self.limit) + " bytes"@,
                ),
            )
        } else {
            Ok(())
        }
    }

    /// This budget with `bytes` more claimed.
    pub open spec fn claimed(self, bytes: u64) -> MemoryView {
        let reserved = self.reserved + bytes as nat;
        MemoryView {
            reserved,
            peak: if reserved > self.peak {
                reserved
            } else {
                self.peak
            },
            ..self
        }
    }

    /// This budget with `bytes` given back.
    pub open spec fn returned(self, bytes: u64) -> MemoryView {
        MemoryView { reserved: (self.reserved - bytes) as nat, ..self }
    }
}

/// The memory budget of a query.
#[derive(Debug)]
pub struct QueryMemory {
    limit_bytes: u64,
    reserved_bytes: u64,
    peak_bytes: u64,
}

impl View for QueryMemory {
    type V = MemoryView;

    closed spec fn view(&self) -> MemoryView {
        MemoryView {
            limit: self.limit_bytes as nat,
            reserved: self.reserved_bytes as nat,
            peak: self.peak_bytes as nat,
        }
    }
}

impl QueryMemory {
    pub open spec fn wf(&self) -> bool {
        self@.wf()
    }

    /// A budget of `limit_bytes`, and of one byte where that is zero.
    pub fn new(limit_bytes: u64) -> (r: Self)
        ensures
            r@ == (MemoryView {
                limit: if limit_bytes == 0 {
                    1
                } else {
                    limit_bytes as nat
                },
                reserved: 0,
                peak: 0,
            }),
            r.wf(),
    {
        let limit: u64 = if limit_bytes == 0 {
            1
        } else {
            limit_bytes
        };
        QueryMemory { limit_bytes: limit, reserved_bytes: 0, peak_bytes: 0 }
    }

    pub fn limit_bytes(&self) -> (r: u64)
        ensures
            r == self@.limit,
    {
        self.limit_bytes
    }

    pub fn reserved_bytes(&self) -> (r: u64)
        ensures
            r == self@.reserved,
    {
        self.reserved_bytes
    }

    pub fn peak_bytes(&self) -> (r: u64)
        ensures
            r == self@.peak,
    {
        self.peak_bytes
    }

    /// Claims `bytes` of this budget, where they fit.
    pub fn try_reserve(&mut self, bytes: u64) -> (r: Result<MemoryReservation, SparkXError>)
        requires
            old(self).wf(),
        ensures
            final(self).wf(),
            match r {
                Ok(reservation) => {
                    &&& old(self)@.check(bytes) is Ok
                    &&& final(self)@ == old(self)@.claimed(bytes)
                    &&& reservation@ == bytes
                },
                Err(error) => {
                    &&& old(self)@.check(bytes) == Err::<(), _>(error@)
                    &&& final(self)@ == old(self)@
                },
            },
    {
        match self.reserve(bytes) {
            Ok(()) => Ok(MemoryReservation { bytes }),
            Err(error) => Err(error),
        }
    }

    fn reserve(&mut self, bytes: u64) -> (r: Result<(), SparkXError>)
        requires
            old(self).wf(),
        ensures
            final(self).wf(),
            outcome(r) == old(self)@.check(bytes),
            final(self)@ == if r is Ok {
                old(self)@.claimed(bytes)
            } else {
                old(self)@
            },
    {
        let next: u64 = match self.reserved_bytes.checked_add(bytes) {
            Some(next) => next,
            None => {
                return Err(
                    SparkXError::resource_exhausted(
                        "query memory reservation overflowed".to_owned(),
                    ),
                );
            },
        };
        if next > self.limit_bytes {
            let mut message: String = join("query requires at least ", decimal(next).as_str());
            message.append(" bytes but its limit is ");
            message.append(decimal(self.limit_bytes).as_str());
            message.append(" bytes");
            return Err(SparkXError::resource_exhausted(message));
        }
        self.reserved_bytes = next;
        if next > self.peak_bytes {
            self.peak_bytes = next;
        }
        Ok(())
    }

    fn release(&mut self, bytes: u64)
        requires
            old(self).wf(),
            bytes <= old(self)@.reserved,
        ensures
            final(self)@ == old(self)@.returned(bytes),
            final(self).wf(),
    {
        self.reserved_bytes = self.reserved_bytes - bytes;
    }
}

/// A claim on a query's budget, by the number of its bytes.
#[derive(Debug)]
pub struct MemoryReservation {
    bytes: u64,
}

impl View for MemoryReservation {
    type V = u64;

    closed spec fn view(&self) -> u64 {
        self.bytes
    }
}

impl MemoryReservation {
    pub fn bytes(&self) -> (r: u64)
        ensures
            r == self@,
    {
        self.bytes
    }

    /// Claims `additional_bytes` more, where they fit.
    pub fn try_grow(&mut self, memory: &mut QueryMemory, additional_bytes: u64) -> (r: Result<
        (),
        SparkXError,
    >)
        requires
            old(memory).wf(),
        ensures
            final(memory).wf(),
            outcome(r) == if old(self)@ + additional_bytes > u64::MAX {
                Err(ErrorView::ResourceExhausted("memory reservation size overflowed"@))
            } else {
                old(memory)@.check(additional_bytes)
            },
            r is Ok ==> final(memory)@ == old(memory)@.claimed(additional_bytes) && final(self)@
                == old(self)@ + additional_bytes,
            r is Err ==> final(memory)@ == old(memory)@ && final(self)@ == old(self)@,
    {
        let next: u64 = match self.bytes.checked_add(additional_bytes) {
            Some(next) => next,
            None => {
                return Err(
                    SparkXError::resource_exhausted(
                        "memory reservation size overflowed".to_owned(),
                    ),
                );
            },
        };
        match memory.reserve(additional_bytes) {
            Ok(()) => {},
            Err(error) => return Err(error),
        }
        self.bytes = next;
        Ok(())
    }

    /// Gives `bytes` of the claim back, or all of it where it is smaller.
    pub fn shrink(&mut self, memory: &mut QueryMemory, bytes: u64)
        requires
            old(memory).wf(),
            old(self)@ <= old(memory)@.reserved,
        ensures
            final(memory).wf(),
            ({
                let released = if bytes < old(self)@ {
                    bytes
                } else {
                    old(self)@
                };
                &&& final(self)@ == old(self)@ - released
                &&& final(memory)@ == old(memory)@.returned(released)
            }),
    {
        let released: u64 = if bytes < self.bytes {
            bytes
        } else {
            self.bytes
        };
        self.bytes = self.bytes - released;
        memory.release(released);
    }

    /// Gives the whole claim back.
    pub fn release(self, memory: &mut QueryMemory)
        requires
            old(memory).wf(),
            self@ <= old(memory)@.reserved,
        ensures
            final(memory).wf(),
            final(memory)@ == old(memory)@.returned(self@),
    {
        memory.release(self.bytes);
    }
}

/// Giving a claim back leaves a budget as it was, but for the peak.
pub proof fn returning_undoes_claiming(memory: MemoryView, bytes: u64)
    requires
        memory.wf(),
        memory.check(bytes) is Ok,
    ensures
        memory.claimed(bytes).returned(bytes).reserved == memory.reserved,
        memory.claimed(bytes).returned(bytes).limit == memory.limit,
        memory.claimed(bytes).returned(bytes).peak == memory.claimed(bytes).peak,
        memory.claimed(bytes).wf(),
{
}

/// Claims in one go and in two parts come to the same.
pub proof fn claims_add_up(memory: MemoryView, a: u64, b: u64)
    requires
        memory.wf(),
        a + b <= u64::MAX,
    ensures
        memory.claimed(a).claimed(b) == memory.claimed((a + b) as u64),
        memory.check((a + b) as u64) is Ok ==> memory.check(a) is Ok && memory.claimed(a).check(
            b,
        ) is Ok,
{
}

// ---- over any sequence of claims

/// A call that claims or gives back; `index` tells which of the live claims it is made on.
pub ghost enum Claim {
    Reserve { bytes: u64 },
    Grow { index: int, bytes: u64 },
    Shrink { index: int, bytes: u64 },
    Release { index: int },
}

/// A budget and the claims on it that are live.
pub ghost struct Account {
    pub memory: MemoryView,
    pub live: Seq<u64>,
}

/// The sum of the first `upto` claims.
pub open spec fn total_claims(live: Seq<u64>, upto: int) -> nat
    decreases upto,
{
    if upto <= 0 {
        0
    } else {
        total_claims(live, upto - 1) + live[upto - 1] as nat
    }
}

impl Account {
    pub open spec fn wf(self) -> bool {
        &&& self.memory.wf()
        &&& self.memory.reserved == total_claims(self.live, self.live.len() as int)
    }

    /// What a call makes of this account. One that is refused changes nothing.
    pub open spec fn after(self, claim: Claim) -> Account {
        match claim {
            Claim::Reserve { bytes } => if self.memory.check(bytes) is Ok {
                Account { memory: self.memory.claimed(bytes), live: self.live.push(bytes) }
            } else {
                self
            },
            Claim::Grow { index, bytes } => if self.live[index] + bytes <= u64::MAX
                && self.memory.check(bytes) is Ok {
                Account {
                    memory: self.memory.claimed(bytes),
                    live: self.live.update(index, (self.live[index] + bytes) as u64),
                }
            } else {
                self
            },
            Claim::Shrink { index, bytes } => {
                let released = if bytes < self.live[index] {
                    bytes
                } else {
                    self.live[index]
                };
                Account {
                    memory: self.memory.returned(released),
                    live: self.live.update(index, (self.live[index] - released) as u64),
                }
            },
            Claim::Release { index } => Account {
                memory: self.memory.returned(self.live[index]),
                live: self.live.remove(index),
            },
        }
    }

    /// Whether a call is made on a claim that is live.
    pub open spec fn allows(self, claim: Claim) -> bool {
        match claim {
            Claim::Reserve { .. } => true,
            Claim::Grow { index, .. } => 0 <= index < self.live.len(),
            Claim::Shrink { index, .. } => 0 <= index < self.live.len(),
            Claim::Release { index } => 0 <= index < self.live.len(),
        }
    }

    /// This account after the first `upto` of some calls.
    pub open spec fn after_all(self, claims: Seq<Claim>, upto: int) -> Account
        decreases upto,
    {
        if upto <= 0 {
            self
        } else {
            self.after_all(claims, upto - 1).after(claims[upto - 1])
        }
    }
}

proof fn total_after_update(live: Seq<u64>, index: int, bytes: u64, upto: int)
    requires
        0 <= index < live.len(),
        0 <= upto <= live.len(),
    ensures
        total_claims(live.update(index, bytes), upto) == if index < upto {
            total_claims(live, upto) - live[index] + bytes
        } else {
            total_claims(live, upto) as int
        },
    decreases upto,
{
    if upto > 0 {
        total_after_update(live, index, bytes, upto - 1);
    }
}

proof fn total_without(live: Seq<u64>, index: int, upto: int)
    requires
        0 <= index < live.len(),
        0 <= upto < live.len(),
    ensures
        total_claims(live.remove(index), upto) == if index < upto {
            total_claims(live, upto + 1) - live[index]
        } else if index == upto {
            total_claims(live, upto + 1) - live[index]
        } else {
            total_claims(live, upto) as int
        },
    decreases upto,
{
    assert(total_claims(live, upto + 1) == total_claims(live, upto) + live[upto]);
    if upto > 0 {
        total_without(live, index, upto - 1);
        assert(live.remove(index)[upto - 1] == if index < upto {
            live[upto]
        } else {
            live[upto - 1]
        });
        assert(total_claims(live, upto) == total_claims(live, upto - 1) + live[upto - 1]);
    } else {
        assert(total_claims(live, 0) == 0);
    }
}

proof fn total_of_prefix(a: Seq<u64>, b: Seq<u64>, upto: int)
    requires
        upto <= a.len(),
        upto <= b.len(),
        forall|i: int| 0 <= i < upto ==> a[i] == b[i],
    ensures
        total_claims(a, upto) == total_claims(b, upto),
    decreases upto,
{
    if upto > 0 {
        total_of_prefix(a, b, upto - 1);
    }
}

proof fn one_claim_is_within(live: Seq<u64>, index: int, upto: int)
    requires
        0 <= index < upto <= live.len(),
    ensures
        live[index] <= total_claims(live, upto),
    decreases upto,
{
    if index < upto - 1 {
        one_claim_is_within(live, index, upto - 1);
    }
}

/// What is claimed of a budget is at all times the sum of the claims that are live, whatever was
/// claimed, grown, shrunk and given back before; and it is never more than the most that was claimed
/// at once, nor that more than the limit.
pub proof fn reserved_bytes_are_the_live_claims(account: Account, claims: Seq<Claim>, upto: int)
    requires
        account.wf(),
        0 <= upto <= claims.len(),
        forall|i: int|
            0 <= i < claims.len() ==> account.after_all(claims, i).allows(#[trigger] claims[i]),
    ensures
        ({
            let now = account.after_all(claims, upto);
            &&& now.wf()
            &&& now.memory.reserved == total_claims(now.live, now.live.len() as int)
            &&& now.memory.reserved <= now.memory.peak <= now.memory.limit
            &&& now.memory.limit == account.memory.limit
            &&& now.memory.peak >= account.memory.peak
        }),
    decreases upto,
{
    if upto > 0 {
        reserved_bytes_are_the_live_claims(account, claims, upto - 1);
        let before = account.after_all(claims, upto - 1);
        let claim = claims[upto - 1];
        let live = before.live;
        let count = live.len() as int;
        assert(before.allows(claim));
        match claim {
            Claim::Reserve { bytes } => {
                total_of_prefix(live, live.push(bytes), count);
            },
            Claim::Grow { index, bytes } => {
                total_after_update(live, index, (live[index] + bytes) as u64, count);
            },
            Claim::Shrink { index, bytes } => {
                one_claim_is_within(live, index, count);
                let released = if bytes < live[index] {
                    bytes
                } else {
                    live[index]
                };
                total_after_update(live, index, (live[index] - released) as u64, count);
            },
            Claim::Release { index } => {
                one_claim_is_within(live, index, count);
                total_without(live, index, count - 1);
            },
        }
    }
}

} // verus!
