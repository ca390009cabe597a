//! Stake-weighted selection of the participant that seals the next block.
use rand::Rng;
use vstd::prelude::*;
use vstd::set_lib::{lemma_int_range, set_int_range};

verus! {

/// Selection was asked of a ledger whose stakes sum to zero (or that has no entries).
#[derive(Debug, Clone, Copy, PartialEq, Eq)]
pub struct EmptyLedgerError;

/// Stake per participant, one entry per participant, in order of first stake.
pub struct PoS {
    stakes: Vec<(String, u64)>,
}

/// Sum of the stakes of the entries.
pub open spec fn total_of(s: Seq<(Seq<char>, u64)>) -> nat
    decreases s.len(),
{
    if s.len() == 0 {
        0
    } else {
        total_of(s.drop_last()) + s.last().1 as nat
    }
}

/// Whether some entry belongs to participant `k`.
pub open spec fn has_participant(s: Seq<(Seq<char>, u64)>, k: Seq<char>) -> bool {
    exists|j: int| 0 <= j < s.len() && #[trigger] s[j].0 == k
}

/// No participant has two entries.
pub open spec fn participants_unique(s: Seq<(Seq<char>, u64)>) -> bool {
    forall|a: int, b: int| 0 <= a < s.len() && 0 <= b < s.len() && #[trigger] s[a].0 == #[trigger] s[b].0 ==> a == b
}

/// The position of participant `k`'s entry.
pub open spec fn position_of(s: Seq<(Seq<char>, u64)>, k: Seq<char>) -> int {
    choose|j: int| 0 <= j < s.len() && #[trigger] s[j].0 == k
}

/// Entry `i` owns the draws from the sum of the stakes before it (included)
/// to that sum plus its own stake (excluded): each participant owns as many
/// of the draws below the total as it has stake.
pub open spec fn selects(s: Seq<(Seq<char>, u64)>, draw: nat, i: int) -> bool {
    &&& 0 <= i < s.len()
    &&& total_of(s.subrange(0, i)) <= draw
    &&& draw < total_of(s.subrange(0, i + 1))
}

/// The stakes sum to zero exactly when every entry has stake zero (in
/// particular when there is no entry): then selection fails.
pub proof fn lemma_total_zero(s: Seq<(Seq<char>, u64)>)
    ensures
        total_of(s) == 0 <==> forall|i: int| 0 <= i < s.len() ==> #[trigger] s[i].1 == 0,
    decreases s.len(),
{
    if s.len() > 0 {
        lemma_total_zero(s.drop_last());
        if total_of(s) == 0 {
            assert forall|i: int| 0 <= i < s.len() implies #[trigger] s[i].1 == 0 by {
                if i < s.len() - 1 {
                    assert(s.drop_last()[i] == s[i]);
                }
            }
        } else if forall|i: int| 0 <= i < s.len() ==> #[trigger] s[i].1 == 0 {
            assert forall|i: int| 0 <= i < s.drop_last().len() implies #[trigger] s.drop_last()[i].1 == 0 by {
                assert(s.drop_last()[i] == s[i]);
            }
            assert(s[s.len() - 1].1 == 0);
        }
    }
}

proof fn lemma_total_update(s: Seq<(Seq<char>, u64)>, j: int, e: (Seq<char>, u64))
    requires
        0 <= j < s.len(),
    ensures
        total_of(s.update(j, e)) == total_of(s) - s[j].1 + e.1,
    decreases s.len(),
{
    let t = s.update(j, e);
    if j == s.len() - 1 {
        assert(t.drop_last() =~= s.drop_last());
    } else {
        lemma_total_update(s.drop_last(), j, e);
        assert(t.drop_last() =~= s.drop_last().update(j, e));
    }
}

proof fn lemma_total_bound(s: Seq<(Seq<char>, u64)>)
    ensures
        total_of(s) <= s.len() * (u64::MAX as nat),
    decreases s.len(),
{
    if s.len() > 0 {
        lemma_total_bound(s.drop_last());
        let n = s.len() - 1;
        assert(n * (u64::MAX as nat) + (u64::MAX as nat) == s.len() * (u64::MAX as nat)) by (nonlinear_arith)
            requires n + 1 == s.len();
    }
}

proof fn lemma_total_prefix_step(s: Seq<(Seq<char>, u64)>, i: int)
    requires
        0 <= i < s.len(),
    ensures
        total_of(s.subrange(0, i + 1)) == total_of(s.subrange(0, i)) + s[i].1,
{
    assert(s.subrange(0, i + 1).drop_last() =~= s.subrange(0, i));
}

proof fn lemma_prefix_monotonic(s: Seq<(Seq<char>, u64)>, i: int, j: int)
    requires
        0 <= i <= j <= s.len(),
    ensures
        total_of(s.subrange(0, i)) <= total_of(s.subrange(0, j)),
    decreases j - i,
{
    if i < j {
        lemma_prefix_monotonic(s, i, j - 1);
        lemma_total_prefix_step(s, j - 1);
    }
}

proof fn lemma_some_entry_selects(s: Seq<(Seq<char>, u64)>, draw: nat, k: int)
    requires
        0 <= k <= s.len(),
        total_of(s.subrange(0, k)) <= draw,
        draw < total_of(s),
    ensures
        exists|i: int| k <= i && selects(s, draw, i),
    decreases s.len() - k,
{
    assert(s.subrange(0, s.len() as int) =~= s);
    if k == s.len() {
        assert(false);
    } else {
        lemma_total_prefix_step(s, k);
        if draw < total_of(s.subrange(0, k + 1)) {
            assert(selects(s, draw, k));
        } else {
            lemma_some_entry_selects(s, draw, k + 1);
        }
    }
}

/// The draws owned by entry `i`.
pub open spec fn draws_of(s: Seq<(Seq<char>, u64)>, i: int) -> Set<int> {
    Set::new(|d: int| 0 <= d && selects(s, d as nat, i))
}

/// Every draw below the total stake is owned by exactly one entry.
pub proof fn lemma_draw_has_one_owner(s: Seq<(Seq<char>, u64)>, draw: nat)
    requires
        draw < total_of(s),
    ensures
        exists|i: int| selects(s, draw, i),
        forall|i: int, j: int| selects(s, draw, i) && selects(s, draw, j) ==> i == j,
{
    lemma_some_entry_selects(s, draw, 0);
    assert forall|i: int, j: int| selects(s, draw, i) && selects(s, draw, j) implies i == j by {
        if i < j {
            lemma_prefix_monotonic(s, i + 1, j);
        } else if j < i {
            lemma_prefix_monotonic(s, j + 1, i);
        }
    }
}

/// Entry `i` owns exactly as many draws as it has stake, all below the
/// total stake: a draw uniform below the total picks each participant with
/// probability its stake over the total.
pub proof fn lemma_draws_match_stake(s: Seq<(Seq<char>, u64)>, i: int)
    requires
        0 <= i < s.len(),
    ensures
        draws_of(s, i).finite(),
        draws_of(s, i).len() == s[i].1,
        forall|d: int| #[trigger] draws_of(s, i).contains(d) ==> d < total_of(s),
{
    let lo = total_of(s.subrange(0, i)) as int;
    lemma_total_prefix_step(s, i);
    assert(draws_of(s, i) =~= set_int_range(lo, lo + s[i].1));
    lemma_int_range(lo, lo + s[i].1);
    lemma_prefix_monotonic(s, i + 1, s.len() as int);
    assert(s.subrange(0, s.len() as int) =~= s);
}

/// Relies on rand's `thread_rng().gen_range(0..bound)`: a number below
/// `bound`, drawn from the thread's generator (which panics on an empty range).
#[verifier::external_body]
fn random_below(bound: u128) -> (r: u128)
    requires
        bound > 0,
    ensures
        r < bound,
{
    rand::thread_rng().gen_range(0..bound)
}

impl View for PoS {
    type V = Seq<(Seq<char>, u64)>;

    closed spec fn view(&self) -> Seq<(Seq<char>, u64)> {
        self.stakes@.map_values(|e: (String, u64)| (e.0@, e.1))
    }
}

impl PoS {
    /// One entry per participant.
    pub open spec fn wf(&self) -> bool {
        participants_unique(self@)
    }

    /// A ledger with no entries.
    pub fn new() -> (r: PoS)
        ensures
            r@.len() == 0,
            r.wf(),
    {
        PoS { stakes: Vec::new() }
    }

    /// Adds `amount` to the stake of `validator`, giving it an entry with
    /// that stake if it has none.
    pub fn update_stake(&mut self, validator: String, amount: u64)
        requires
            old(self).wf(),
            has_participant(old(self)@, validator@) ==> old(self)@[position_of(old(self)@, validator@)].1 + amount <= u64::MAX,
        ensures
            final(self).wf(),
            has_participant(old(self)@, validator@) ==> final(self)@ == old(self)@.update(
                position_of(old(self)@, validator@),
                (validator@, (old(self)@[position_of(old(self)@, validator@)].1 + amount) as u64),
            ),
            !has_participant(old(self)@, validator@) ==> final(self)@ == old(self)@.push((validator@, amount)),
            total_of(final(self)@) == total_of(old(self)@) + amount,
    {
        let n = self.stakes.len();
        let mut i: usize = 0;
        while i < n
            invariant
                n == self.stakes@.len(),
                self@ == old(self)@,
                self.wf(),
                has_participant(self@, validator@) ==> self@[position_of(self@, validator@)].1 + amount <= u64::MAX,
                i <= n,
                forall|j: int| 0 <= j < i ==> #[trigger] self@[j].0 != validator@,
            decreases n - i,
        {
            assert(self@[i as int].0 == self.stakes@[i as int].0@);
            if self.stakes[i].0 == validator {
                proof {
                    assert(self@[i as int].0 == validator@);
                    assert(position_of(self@, validator@) == i) by {
                        assert(has_participant(self@, validator@));
                        let p = position_of(self@, validator@);
                        assert(0 <= p < self@.len() && self@[p].0 == validator@);
                        assert(participants_unique(self@));
                        assert(self@[p].0 == self@[i as int].0);
                    }
                }
                let stake = self.stakes[i].1 + amount;
                let name = self.stakes[i].0.clone();
                self.stakes.set(i, (name, stake));
                assert(self@ =~= old(self)@.update(i as int, (validator@, stake)));
                proof {
                    lemma_total_update(old(self)@, i as int, (validator@, stake));
                }
                return;
            }
            i = i + 1;
        }
        assert(!has_participant(old(self)@, validator@));
        self.stakes.push((validator, amount));
        assert(self@ =~= old(self)@.push((validator@, amount)));
        assert(self@.drop_last() =~= old(self)@);
    }

    /// The stake of `validator`: zero when it has no entry.
    pub fn stake_of(&self, validator: &String) -> (r: u64)
        requires
            self.wf(),
        ensures
            has_participant(self@, validator@) ==> r == self@[position_of(self@, validator@)].1,
            !has_participant(self@, validator@) ==> r == 0,
    {
        let n = self.stakes.len();
        let mut i: usize = 0;
        while i < n
            invariant
                n == self@.len(),
                i <= n,
                self.wf(),
                forall|j: int| 0 <= j < i ==> #[trigger] self@[j].0 != validator@,
            decreases n - i,
        {
            assert(self@[i as int].0 == self.stakes@[i as int].0@);
            if self.stakes[i].0 == *validator {
                proof {
                    assert(has_participant(self@, validator@));
                    let p = position_of(self@, validator@);
                    assert(self@[i as int].0 == validator@);
                    assert(0 <= p < self@.len() && self@[p].0 == validator@);
                    assert(self@[p].0 == self@[i as int].0);
                    assert(self@[i as int].1 == self.stakes@[i as int].1);
                }
                return self.stakes[i].1;
            }
            i = i + 1;
        }
        0
    }

    /// The sum of all stakes.
    pub fn total_stake(&self) -> (r: u128)
        ensures
            r == total_of(self@),
    {
        let n = self.stakes.len();
        let mut total: u128 = 0;
        let mut i: usize = 0;
        while i < n
            invariant
                n == self@.len(),
                i <= n,
                total == total_of(self@.subrange(0, i as int)),
            decreases n - i,
        {
            proof {
                lemma_total_prefix_step(self@, i as int);
                lemma_total_bound(self@.subrange(0, i + 1));
                let m = (i + 1) as nat;
                assert(m <= 0x1_0000_0000_0000_0000);
                assert(m * (u64::MAX as nat) <= 0x1_0000_0000_0000_0000 * (u64::MAX as nat)) by (nonlinear_arith)
                    requires m <= 0x1_0000_0000_0000_0000;
            }
            total = total + self.stakes[i].1 as u128;
            i = i + 1;
        }
        assert(self@.subrange(0, n as int) =~= self@);
        total
    }

    /// The participant that owns `draw` reduced modulo the total stake; each
    /// participant owns as many of the values below the total as it has stake.
    pub fn select_validator_at(&self, draw: u128) -> (r: Result<String, EmptyLedgerError>)
        ensures
            r is Err <==> total_of(self@) == 0,
            r is Ok ==> exists|i: int|
                selects(self@, (draw as nat) % total_of(self@), i) && #[trigger] self@[i].0 == r->Ok_0@,
    {
        let total = self.total_stake();
        if total == 0 {
            return Err(EmptyLedgerError);
        }
        let point = draw % total;
        let n = self.stakes.len();
        let mut before: u128 = 0;
        let mut i: usize = 0;
        while i < n
            invariant
                n == self@.len(),
                total == total_of(self@),
                i <= n,
                point < total,
                point == draw % total,
                before == total_of(self@.subrange(0, i as int)),
                before <= point,
            decreases n - i,
        {
            proof {
                lemma_total_prefix_step(self@, i as int);
            }
            let stake = self.stakes[i].1;
            if point - before < stake as u128 {
                let name = self.stakes[i].0.clone();
                assert(point as nat == (draw as nat) % total_of(self@));
                assert(selects(self@, (draw as nat) % total_of(self@), i as int));
                assert(self@[i as int].0 == name@);
                return Ok(name);
            }
            before = before + stake as u128;
            i = i + 1;
        }
        assert(self@.subrange(0, n as int) =~= self@);
        Err(EmptyLedgerError)
    }

    /// A participant drawn at random, each with probability its share of
    /// the total stake; fails when the stakes sum to zero.
    pub fn select_validator(&self) -> (r: Result<String, EmptyLedgerError>)
        ensures
            r is Err <==> total_of(self@) == 0,
            r is Ok ==> exists|i: int|
                0 <= i < self@.len() && #[trigger] self@[i].0 == r->Ok_0@ && self@[i].1 > 0,
    {
        let total = self.total_stake();
        if total == 0 {
            return Err(EmptyLedgerError);
        }
        let draw = random_below(total);
        let r = self.select_validator_at(draw);
        proof {
            if r is Ok {
                let i = choose|i: int| selects(self@, (draw as nat) % total_of(self@), i) && #[trigger] self@[i].0 == r->Ok_0@;
                lemma_total_prefix_step(self@, i);
                assert(self@[i].0 == r->Ok_0@ && self@[i].1 > 0);
            }
        }
        r
    }
}

} // verus!
