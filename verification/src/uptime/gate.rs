//! Mass-outage detection. Heartbeat checks every app from one machine, so when its own network
//! fails, every app looks down at once and each one would page someone. When at least
//! `MIN_DOWN` apps *and* `pct`% of the monitored ones are down, it sends one "mass
//! outage" notice instead and holds the individual down alerts. When the outage ends, apps
//! that are still down get their normal alert; the ones that came back never alert at all.

use vstd::prelude::*;

use crate::alerts::reminder;
use crate::alerts::MassOutage;
use crate::alerts::StatusChange;
use crate::text::distinct;
use crate::text::is_listed;
use crate::text::lemma_name_set_push;
use crate::text::lemma_name_set_remove;
use crate::text::name_set;
use crate::text::position;
use crate::uptime::Status;

verus! {

/// Fewest apps down at once that can count as a mass outage: with two apps, both failing
/// together is too likely to be a real, shared problem to hold back.
pub const MIN_DOWN: usize = 3;

/// What to do with one round's alerts.
#[derive(Debug)]
pub struct Review {
    pub outage: Option<MassOutage>,
    pub deliver: Vec<StatusChange>,
    /// Apps whose down alert was held; on `MassOutage::Ended` the caller alerts the ones that
    /// are still down.
    pub release: Vec<String>,
}

#[derive(Debug)]
pub struct OutageGate {
    active: bool,
    held: Vec<String>,
}

/// Whether `down` of `total` monitored apps make a mass outage at `pct` percent (0 = never).
pub open spec fn mass(down: nat, total: nat, pct: nat) -> bool {
    pct > 0 && down >= MIN_DOWN && down * 100 >= pct * total
}

/// What a mass outage makes of a round's changes: the apps whose down alert is then held, and
/// the changes that still go out. Reminders are dropped, downs are held, and the recovery of
/// an app whose down was held stays as quiet as the down was.
pub open spec fn held_back(held: Set<Seq<char>>, changes: Seq<StatusChange>) -> (
    Set<Seq<char>>,
    Seq<StatusChange>,
)
    decreases changes.len(),
{
    if changes.len() == 0 {
        (held, Seq::empty())
    } else {
        let (h, out) = held_back(held, changes.drop_last());
        let c = changes.last();
        if reminder(c) {
            (h, out)
        } else if c.to == Status::Down {
            (h.insert(c.slug@), out)
        } else if h.contains(c.slug@) {
            (h.remove(c.slug@), out)
        } else {
            (h, out.push(c))
        }
    }
}

/// The changes of apps that are not in `held`.
pub open spec fn unheld(held: Set<Seq<char>>, changes: Seq<StatusChange>) -> Seq<StatusChange>
    decreases changes.len(),
{
    if changes.len() == 0 {
        Seq::empty()
    } else {
        let before = unheld(held, changes.drop_last());
        if held.contains(changes.last().slug@) {
            before
        } else {
            before.push(changes.last())
        }
    }
}

impl Default for OutageGate {
    fn default() -> (r: Self)
        ensures
            r.wf(),
            !r.in_outage(),
            r.holding() == Set::<Seq<char>>::empty(),
    {
        let r = OutageGate { active: false, held: Vec::new() };
        proof {
            assert(r.holding() =~= Set::<Seq<char>>::empty());
        }
        r
    }
}

impl OutageGate {
    /// Whether a mass outage is going on.
    pub closed spec fn in_outage(&self) -> bool {
        self.active
    }

    /// The apps whose down alert is held.
    pub closed spec fn holding(&self) -> Set<Seq<char>> {
        name_set(self.held@)
    }

    /// No app is held twice, and none outside a mass outage.
    pub closed spec fn wf(&self) -> bool {
        distinct(self.held@) && (!self.active ==> self.held@.len() == 0)
    }

    /// `down` of `total` monitored apps are down after this round; `pct` is the share that
    /// counts as a mass outage (0 = never).
    #[must_use]
    pub fn is_mass(down: usize, total: usize, pct: u8) -> (r: bool)
        ensures
            r == mass(down as nat, total as nat, pct as nat),
    {
        proof {
            assert(down * 100 <= u64::MAX * 100) by (nonlinear_arith)
                requires
                    down <= u64::MAX,
            ;
            assert(pct * total <= 255 * u64::MAX) by (nonlinear_arith)
                requires
                    pct <= 255,
                    total <= u64::MAX,
            ;
        }
        pct > 0 && down >= MIN_DOWN && down as u128 * 100 >= pct as u128 * total as u128
    }

    /// Drops what is held of an app: its alert is not sent any more.
    pub fn forget(&mut self, slug: &str)
        requires
            old(self).wf(),
        ensures
            final(self).wf(),
            final(self).in_outage() == old(self).in_outage(),
            final(self).holding() == old(self).holding().remove(slug@),
    {
        match position(&self.held, slug) {
            Some(k) => {
                proof {
                    lemma_name_set_remove(self.held@, k as int);
                }
                let gone = self.held.remove(k);
            },
            None => {
                proof {
                    assert(self.holding().remove(slug@) =~= self.holding());
                }
            },
        }
    }

    /// What becomes of one round's `changes`.
    pub fn review(
        &mut self,
        changes: Vec<StatusChange>,
        down: usize,
        total: usize,
        pct: u8,
    ) -> (r: Review)
        requires
            old(self).wf(),
        ensures
            final(self).wf(),
            final(self).in_outage() == mass(down as nat, total as nat, pct as nat),
            distinct(r.release@),
            match (old(self).in_outage(), mass(down as nat, total as nat, pct as nat)) {
                (false, false) => {
                    &&& r.outage is None
                    &&& r.deliver@ == changes@
                    &&& name_set(r.release@) == Set::<Seq<char>>::empty()
                    &&& final(self).holding() == old(self).holding()
                },
                (active, true) => {
                    &&& r.outage == if active {
                        None
                    } else {
                        Some(MassOutage::Started { down, total })
                    }
                    &&& final(self).holding() == held_back(old(self).holding(), changes@).0
                    &&& r.deliver@ == held_back(old(self).holding(), changes@).1
                    &&& name_set(r.release@) == Set::<Seq<char>>::empty()
                },
                (true, false) => {
                    &&& r.outage == Some(MassOutage::Ended { total })
                    &&& r.deliver@ == unheld(old(self).holding(), changes@)
                    &&& name_set(r.release@) == old(self).holding()
                    &&& final(self).holding() == Set::<Seq<char>>::empty()
                },
            },
    {
        let mass_now = OutageGate::is_mass(down, total, pct);
        let ghost all = changes@;
        let ghost held0 = self.holding();
        let nothing: Vec<String> = Vec::new();
        proof {
            assert(name_set(nothing@) =~= Set::<Seq<char>>::empty());
        }
        if mass_now {
            let outage = if self.active {
                None
            } else {
                Some(MassOutage::Started { down, total })
            };
            self.active = true;
            let mut rest = changes;
            let mut deliver: Vec<StatusChange> = Vec::new();
            let ghost mut i: int = 0;
            proof {
                assert(all.take(0) =~= Seq::<StatusChange>::empty());
                assert(all.skip(0) =~= all);
            }
            while rest.len() > 0
                invariant
                    0 <= i <= all.len(),
                    rest@ == all.skip(i),
                    self.active,
                    distinct(self.held@),
                    (self.holding(), deliver@) == held_back(held0, all.take(i)),
                decreases rest@.len(),
            {
                proof {
                    assert(all.take(i + 1).drop_last() =~= all.take(i));
                    assert(all.take(i + 1).last() == all[i]);
                    assert(rest@[0] == all[i]);
                    assert(rest@.remove(0) =~= all.skip(i + 1));
                }
                let change = rest.remove(0);
                if !change.is_reminder() {
                    let at = position(&self.held, change.slug.as_str());
                    if change.to == Status::Down {
                        if at.is_none() {
                            proof {
                                lemma_name_set_push(self.held@, change.slug);
                            }
                            self.held.push(change.slug);
                        } else {
                            proof {
                                assert(self.holding().insert(change.slug@) =~= self.holding());
                            }
                        }
                    } else {
                        match at {
                            Some(k) => {
                                proof {
                                    lemma_name_set_remove(self.held@, k as int);
                                }
                                let gone = self.held.remove(k);
                            },
                            None => {
                                deliver.push(change);
                            },
                        }
                    }
                }
                proof {
                    i = i + 1;
                }
            }
            proof {
                assert(all.take(all.len() as int) =~= all);
            }
            Review { outage, deliver, release: nothing }
        } else if self.active {
            let mut rest = changes;
            let mut deliver: Vec<StatusChange> = Vec::new();
            let ghost mut i: int = 0;
            proof {
                assert(all.take(0) =~= Seq::<StatusChange>::empty());
                assert(all.skip(0) =~= all);
            }
            while rest.len() > 0
                invariant
                    0 <= i <= all.len(),
                    rest@ == all.skip(i),
                    self.wf(),
                    held0 == self.holding(),
                    deliver@ == unheld(held0, all.take(i)),
                decreases rest@.len(),
            {
                proof {
                    assert(all.take(i + 1).drop_last() =~= all.take(i));
                    assert(all.take(i + 1).last() == all[i]);
                    assert(rest@[0] == all[i]);
                    assert(rest@.remove(0) =~= all.skip(i + 1));
                }
                let change = rest.remove(0);
                if !is_listed(&self.held, change.slug.as_str()) {
                    deliver.push(change);
                }
                proof {
                    i = i + 1;
                }
            }
            proof {
                assert(all.take(all.len() as int) =~= all);
            }
            let mut release: Vec<String> = nothing;
            std::mem::swap(&mut release, &mut self.held);
            self.active = false;
            Review { outage: Some(MassOutage::Ended { total }), deliver, release }
        } else {
            Review { outage: None, deliver: changes, release: nothing }
        }
    }
}

// ---------------------------------------------------------------------------------------
// What holds of every round
// ---------------------------------------------------------------------------------------

/// During a mass outage no change to down goes out, and neither does any reminder.
pub proof fn lemma_no_page_during_a_mass_outage(held: Set<Seq<char>>, changes: Seq<StatusChange>)
    ensures
        forall|i: int|
            0 <= i < held_back(held, changes).1.len() ==> (#[trigger] held_back(
                held,
                changes,
            ).1[i]).to != Status::Down,
    decreases changes.len(),
{
    if changes.len() > 0 {
        lemma_no_page_during_a_mass_outage(held, changes.drop_last());
    }
}

/// Once a mass outage is over, the recovery of an app whose down was held is not announced:
/// nobody heard that it was down.
pub proof fn lemma_held_apps_come_back_quietly(held: Set<Seq<char>>, changes: Seq<StatusChange>)
    ensures
        forall|i: int|
            0 <= i < unheld(held, changes).len() ==> !held.contains(
                (#[trigger] unheld(held, changes)[i]).slug@,
            ),
    decreases changes.len(),
{
    if changes.len() > 0 {
        lemma_held_apps_come_back_quietly(held, changes.drop_last());
    }
}

/// During a mass outage, in a round with at most one change per app, nothing is announced of an
/// app whose down was held before the round: its recovery stays as quiet as the down was.
pub proof fn lemma_held_recovery_is_quiet(
    held: Set<Seq<char>>,
    changes: Seq<StatusChange>,
    slug: Seq<char>,
)
    requires
        held.contains(slug),
        forall|i: int, j: int|
            0 <= i < j < changes.len() ==> (#[trigger] changes[i]).slug@ != (#[trigger]
            changes[j]).slug@,
    ensures
        forall|i: int|
            0 <= i < held_back(held, changes).1.len() ==> (#[trigger] held_back(
                held,
                changes,
            ).1[i]).slug@ != slug,
        held_back(held, changes).0.contains(slug) || exists|i: int|
            0 <= i < changes.len() && (#[trigger] changes[i]).slug@ == slug,
    decreases changes.len(),
{
    if changes.len() > 0 {
        let front = changes.drop_last();
        assert forall|i: int, j: int| 0 <= i < j < front.len() implies (#[trigger] front[i]).slug@
            != (#[trigger] front[j]).slug@ by {
            assert(front[i] == changes[i] && front[j] == changes[j]);
        }
        lemma_held_recovery_is_quiet(held, front, slug);
        let c = changes.last();
        if c.slug@ == slug {
            assert(changes[changes.len() - 1].slug@ == slug);
            if !held_back(held, front).0.contains(slug) {
                let i = choose|i: int| 0 <= i < front.len() && (#[trigger] front[i]).slug@ == slug;
                assert(changes[i] == front[i]);
            }
        } else if !held_back(held, front).0.contains(slug) {
            let i = choose|i: int| 0 <= i < front.len() && (#[trigger] front[i]).slug@ == slug;
            assert(changes[i].slug@ == slug);
        }
    }
}

/// While a mass outage is on, a round with at most one change per app delivers exactly the
/// changes that are not to down, of apps whose down alert isn't held, in their order. After it
/// the apps are held that were announced down in it, and those held before that it says nothing
/// better of.
pub proof fn lemma_other_changes_go_through(held: Set<Seq<char>>, changes: Seq<StatusChange>)
    requires
        forall|i: int, j: int|
            0 <= i < j < changes.len() ==> (#[trigger] changes[i]).slug@ != (#[trigger]
            changes[j]).slug@,
    ensures
        held_back(held, changes).1 == changes.filter(
            |c: StatusChange| c.to != Status::Down && !held.contains(c.slug@),
        ),
        forall|i: int|
            0 <= i < changes.len() && (#[trigger] changes[i]).to != Status::Down && !held.contains(
                changes[i].slug@,
            ) ==> held_back(held, changes).1.contains(changes[i]),
        forall|slug: Seq<char>| #[trigger]
            held_back(held, changes).0.contains(slug) <==> (exists|i: int|
                0 <= i < changes.len() && (#[trigger] changes[i]).slug@ == slug && changes[i].to
                    == Status::Down && changes[i].from != Status::Down) || (held.contains(slug)
                && forall|i: int|
                0 <= i < changes.len() && (#[trigger] changes[i]).slug@ == slug ==> changes[i].to
                    == Status::Down),
    decreases changes.len(),
{
    reveal(Seq::filter);
    let keep = |c: StatusChange| c.to != Status::Down && !held.contains(c.slug@);
    if changes.len() > 0 {
        let front = changes.drop_last();
        let last = changes.last();
        assert forall|i: int, j: int| 0 <= i < j < front.len() implies (#[trigger] front[i]).slug@
            != (#[trigger] front[j]).slug@ by {
            assert(front[i] == changes[i] && front[j] == changes[j]);
        }
        lemma_other_changes_go_through(held, front);
        let (h, out) = held_back(held, front);
        assert forall|i: int| 0 <= i < front.len() implies (#[trigger] front[i]).slug@
            != last.slug@ by {
            assert(front[i] == changes[i]);
            assert(changes[i].slug@ != changes[changes.len() - 1].slug@);
        }
        assert(h.contains(last.slug@) == held.contains(last.slug@));
        assert forall|slug: Seq<char>| #[trigger]
            held_back(held, changes).0.contains(slug) <==> (exists|i: int|
                0 <= i < changes.len() && (#[trigger] changes[i]).slug@ == slug && changes[i].to
                    == Status::Down && changes[i].from != Status::Down) || (held.contains(slug)
                && forall|i: int|
                0 <= i < changes.len() && (#[trigger] changes[i]).slug@ == slug ==> changes[i].to
                    == Status::Down) by {
            assert(changes[changes.len() - 1] == last);
            if slug == last.slug@ {
                assert forall|i: int| 0 <= i < changes.len() && (#[trigger] changes[i]).slug@
                    == slug implies i == changes.len() - 1 by {
                    if i < front.len() {
                        assert(front[i] == changes[i]);
                    }
                }
            } else {
                if exists|i: int|
                    0 <= i < changes.len() && (#[trigger] changes[i]).slug@ == slug && changes[i].to
                        == Status::Down && changes[i].from != Status::Down {
                    let i = choose|i: int|
                        0 <= i < changes.len() && (#[trigger] changes[i]).slug@ == slug
                            && changes[i].to == Status::Down && changes[i].from != Status::Down;
                    assert(front[i] == changes[i]);
                }
                if exists|i: int|
                    0 <= i < front.len() && (#[trigger] front[i]).slug@ == slug && front[i].to
                        == Status::Down && front[i].from != Status::Down {
                    let i = choose|i: int|
                        0 <= i < front.len() && (#[trigger] front[i]).slug@ == slug && front[i].to
                            == Status::Down && front[i].from != Status::Down;
                    assert(front[i] == changes[i]);
                }
                assert((forall|i: int|
                    0 <= i < front.len() && (#[trigger] front[i]).slug@ == slug ==> front[i].to
                        == Status::Down) == (forall|i: int|
                    0 <= i < changes.len() && (#[trigger] changes[i]).slug@ == slug
                        ==> changes[i].to == Status::Down)) by {
                    if forall|i: int|
                        0 <= i < changes.len() && (#[trigger] changes[i]).slug@ == slug
                            ==> changes[i].to == Status::Down {
                        assert forall|i: int| 0 <= i < front.len() && (#[trigger] front[i]).slug@
                            == slug implies front[i].to == Status::Down by {
                            assert(front[i] == changes[i]);
                        }
                    }
                    if forall|i: int|
                        0 <= i < front.len() && (#[trigger] front[i]).slug@ == slug ==> front[i].to
                            == Status::Down {
                        assert forall|i: int| 0 <= i < changes.len() && (
                        #[trigger] changes[i]).slug@ == slug implies changes[i].to
                            == Status::Down by {
                            if i < front.len() {
                                assert(front[i] == changes[i]);
                            }
                        }
                    }
                }
            }
        }
    }
    assert forall|i: int| 0 <= i < changes.len() && (#[trigger] changes[i]).to != Status::Down
        && !held.contains(changes[i].slug@) implies held_back(held, changes).1.contains(
        changes[i],
    ) by {
        assert(keep(changes[i]));
        assert(held_back(held, changes).1 == changes.filter(keep));
    }
}

/// Once a mass outage is over, the round's changes go out, in their order, but those of the apps
/// that were held.
pub proof fn lemma_the_rest_goes_out_when_it_is_over(
    held: Set<Seq<char>>,
    changes: Seq<StatusChange>,
)
    ensures
        unheld(held, changes) == changes.filter(|c: StatusChange| !held.contains(c.slug@)),
    decreases changes.len(),
{
    reveal(Seq::filter);
    if changes.len() > 0 {
        lemma_the_rest_goes_out_when_it_is_over(held, changes.drop_last());
    }
}

/// A mass outage needs three apps down and the given share of all: it is one when every app is
/// down, stays one when more go down or fewer are watched, and never is with detection off.
pub proof fn lemma_mass_outages_need_the_share(down: nat, total: nat, pct: nat)
    ensures
        pct == 0 || down < 3 ==> !mass(down, total, pct),
        down >= 3 && down >= total && 0 < pct <= 100 ==> mass(down, total, pct),
        down >= 3 && pct > 0 ==> mass(down, total, pct) == (100 * down >= pct * total),
        forall|more: nat| more >= down && mass(down, total, pct) ==> #[trigger] mass(
            more,
            total,
            pct,
        ),
        forall|fewer: nat| fewer <= total && mass(down, total, pct) ==> #[trigger] mass(
            down,
            fewer,
            pct,
        ),
        down <= total && mass(down, total, 100) ==> down == total,
{
    assert(down >= total && 0 < pct <= 100 ==> down * 100 >= pct * total) by (nonlinear_arith);
    assert forall|fewer: nat| fewer <= total && mass(down, total, pct) implies #[trigger] mass(
        down,
        fewer,
        pct,
    ) by {
        assert(pct * fewer <= pct * total) by (nonlinear_arith)
            requires
                fewer <= total,
        ;
    }
}

/// What one change comes to during a mass outage: a reminder is dropped, an app that goes down is
/// held, one that comes back is let go quietly where it was held, and told of where it wasn't.
pub proof fn lemma_one_change_during_a_mass_outage(held: Set<Seq<char>>, c: StatusChange)
    ensures
        ({
            let (h, out) = held_back(held, seq![c]);
            &&& c.to == Status::Down ==> out.len() == 0
            &&& c.to == Status::Down && c.from == Status::Down ==> h == held
            &&& c.to == Status::Down && c.from != Status::Down ==> h == held.insert(c.slug@)
            &&& c.to != Status::Down && held.contains(c.slug@) ==> out.len() == 0 && h
                == held.remove(c.slug@)
            &&& c.to != Status::Down && !held.contains(c.slug@) ==> out == seq![c] && h == held
        }),
{
    let none = Seq::<StatusChange>::empty();
    assert(seq![c].drop_last() =~= none);
    assert(held_back(held, none) == (held, none));
    assert(none.push(c) =~= seq![c]);
}

/// Changes are gone through one after the other, in whatever rounds they come: those that follow
/// find held what those before them left held, and go out behind them.
pub proof fn lemma_changes_are_gone_through_in_order(
    held: Set<Seq<char>>,
    a: Seq<StatusChange>,
    b: Seq<StatusChange>,
)
    ensures
        ({
            let (h, out) = held_back(held, a);
            let (later, more) = held_back(h, b);
            &&& held_back(held, a + b).0 == later
            &&& held_back(held, a + b).1 == out + more
        }),
    decreases b.len(),
{
    if b.len() == 0 {
        assert(a + b =~= a);
        assert(held_back(held, a).1 + Seq::<StatusChange>::empty() =~= held_back(held, a).1);
    } else {
        lemma_changes_are_gone_through_in_order(held, a, b.drop_last());
        assert((a + b).drop_last() =~= a + b.drop_last());
        assert((a + b).last() == b.last());
        let (h, out) = held_back(held, a);
        assert(held_back(held, a + b).1 =~= out + held_back(h, b).1);
    }
}

} // verus!
