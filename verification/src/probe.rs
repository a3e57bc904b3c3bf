//! The probe memoizer: a per-dependency ledger of validator verdicts keyed
//! by concrete version, with the mandatory inter-probe cooldown. A verdict,
//! once recorded, is never probed again.
use vstd::prelude::*;

use crate::error::Error;
use crate::validator::{Check, CheckFailure, CheckOutcome, RepoValidator, Session};
use crate::version::{version_exec_eq, Version, VersionView};

verus! {

/// The verdict map recorded by a ledger's entries; a later entry for the
/// same version would overwrite an earlier one, but a well-formed ledger
/// never has two.
pub open spec fn entries_map(s: Seq<(Version, bool)>) -> Map<VersionView, bool>
    decreases s.len(),
{
    if s.len() == 0 {
        Map::<VersionView, bool>::empty()
    } else {
        entries_map(s.drop_last()).insert(s.last().0@, s.last().1)
    }
}

proof fn lemma_entries_map_contains(s: Seq<(Version, bool)>, v: VersionView)
    ensures
        entries_map(s).contains_key(v) <==> exists|i: int|
            0 <= i < s.len() && (#[trigger] s[i]).0@ == v,
    decreases s.len(),
{
    if s.len() > 0 {
        lemma_entries_map_contains(s.drop_last(), v);
        if entries_map(s).contains_key(v) {
            if s.last().0@ == v {
                assert(s[s.len() - 1].0@ == v);
            } else {
                let i = choose|i: int| 0 <= i < s.drop_last().len() && (#[trigger] s.drop_last()[
                    i]).0@ == v;
                assert(s[i].0@ == v);
            }
        }
        if exists|i: int| 0 <= i < s.len() && (#[trigger] s[i]).0@ == v {
            let i = choose|i: int| 0 <= i < s.len() && (#[trigger] s[i]).0@ == v;
            if i < s.len() - 1 {
                assert(s.drop_last()[i].0@ == v);
            }
        }
    }
}

proof fn lemma_entries_map_value(s: Seq<(Version, bool)>, i: int)
    requires
        0 <= i < s.len(),
        forall|a: int, b: int|
            0 <= a < b < s.len() ==> (#[trigger] s[a]).0@ != (#[trigger] s[b]).0@,
    ensures
        entries_map(s).contains_key(s[i].0@),
        entries_map(s)[s[i].0@] == s[i].1,
    decreases s.len(),
{
    if i == s.len() - 1 {
    } else {
        assert(s.drop_last()[i] == s[i]);
        lemma_entries_map_value(s.drop_last(), i);
        assert(s.last().0@ != s[i].0@);
    }
}

/// A per-dependency memo of validator verdicts, with an increment-only
/// count of the probes actually issued. The entries are private: only a
/// probe can record a verdict, so whatever a ledger holds was really
/// answered by the validator.
pub struct ProbeLedger {
    entries: Vec<(Version, bool)>,
    probe_count: usize,
}

impl View for ProbeLedger {
    type V = Map<VersionView, bool>;

    closed spec fn view(&self) -> Map<VersionView, bool> {
        entries_map(self.entries@)
    }
}

impl ProbeLedger {
    /// How many probes have actually been issued (saturating at the
    /// machine limit).
    pub closed spec fn probes(&self) -> int {
        self.probe_count as int
    }

    /// The probe count, for reporting.
    pub fn probe_count(&self) -> (r: usize)
        ensures
            r as int == self.probes(),
    {
        self.probe_count
    }

    /// No two entries record the same version.
    pub closed spec fn wf(&self) -> bool {
        forall|a: int, b: int|
            0 <= a < b < self.entries@.len() ==> (#[trigger] self.entries@[a]).0@ != (
            #[trigger] self.entries@[b]).0@
    }

    /// An empty ledger.
    pub fn new() -> (r: ProbeLedger)
        ensures
            r@ == Map::<VersionView, bool>::empty(),
            r.wf(),
            r.probes() == 0,
    {
        ProbeLedger { entries: Vec::new(), probe_count: 0 }
    }

    /// The recorded verdict for `v`, when there is one.
    pub fn find(&self, v: &Version) -> (r: Option<bool>)
        requires
            self.wf(),
        ensures
            match r {
                Some(b) => self@.contains_key(v@) && self@[v@] == b,
                None => !self@.contains_key(v@),
            },
    {
        let mut i: usize = 0;
        while i < self.entries.len()
            invariant
                i <= self.entries@.len(),
                self.wf(),
                forall|k: int| 0 <= k < i ==> (#[trigger] self.entries@[k]).0@ != v@,
            decreases self.entries@.len() - i,
        {
            if version_exec_eq(&self.entries[i].0, v) {
                proof {
                    lemma_entries_map_value(self.entries@, i as int);
                }
                return Some(self.entries[i].1);
            }
            i = i + 1;
        }
        proof {
            lemma_entries_map_contains(self.entries@, v@);
        }
        None
    }

    fn record(&mut self, v: &Version, verdict: bool)
        requires
            old(self).wf(),
            !old(self)@.contains_key(v@),
        ensures
            final(self).wf(),
            final(self)@ == old(self)@.insert(v@, verdict),
            final(self).probes() == if old(self).probes() < usize::MAX {
                old(self).probes() + 1
            } else {
                old(self).probes()
            },
    {
        proof {
            lemma_entries_map_contains(self.entries@, v@);
        }
        self.entries.push((v.duplicate(), verdict));
        if self.probe_count < usize::MAX {
            self.probe_count = self.probe_count + 1;
        }
        proof {
            assert(self.entries@.drop_last() =~= old(self).entries@);
        }
    }
}

/// The verdict on pinning `name` at `version`: the recorded one when the
/// ledger has it (the validator is then not touched at all, so it runs at
/// most once per version and per run); otherwise the pin is applied, the
/// mandatory cooldown observed, one check issued and its verdict recorded.
/// A hard validator error is surfaced and leaves the ledger unchanged.
pub fn probe<V: RepoValidator>(
    ledger: &mut ProbeLedger,
    session: &mut Session<V>,
    name: &String,
    version: &Version,
    check: &Check,
) -> (r: Result<bool, Error>)
    requires
        old(ledger).wf(),
    ensures
        final(ledger).wf(),
        old(ledger)@.contains_key(version@) ==> {
            &&& final(ledger)@ == old(ledger)@
            &&& final(ledger).probes() == old(ledger).probes()
            &&& final(session).pins@ == old(session).pins@
            &&& final(session).checks@ == old(session).checks@
            &&& final(session).written@ == old(session).written@
            &&& r == Ok::<bool, Error>(old(ledger)@[version@])
        },
        !old(ledger)@.contains_key(version@) ==> {
            &&& final(session).pins@ == old(session).pins@.insert(name@, version@)
            &&& final(session).checks@ == old(session).checks@.push(
                (
                    old(session).pins@.insert(name@, version@),
                    match r {
                        Ok(verdict) => if verdict {
                            CheckOutcome::Passed
                        } else {
                            CheckOutcome::Invalid
                        },
                        Err(_) => CheckOutcome::Fatal,
                    },
                ),
            )
            &&& final(session).written@ == old(session).written@
            &&& match r {
                Ok(verdict) => final(ledger)@ == old(ledger)@.insert(version@, verdict)
                    && final(ledger).probes() == (if old(ledger).probes() < usize::MAX {
                        old(ledger).probes() + 1
                    } else {
                        old(ledger).probes()
                    }),
                Err(_) => final(ledger)@ == old(ledger)@ && final(ledger).probes() == old(
                    ledger,
                ).probes(),
            }
        },
{
    match ledger.find(version) {
        Some(b) => Ok(b),
        None => {
            let _ = session.pin(name, version);
            session.cooldown();
            match session.run_check(check) {
                Ok(()) => {
                    ledger.record(version, true);
                    Ok(true)
                },
                Err(CheckFailure::Invalid(_)) => {
                    ledger.record(version, false);
                    Ok(false)
                },
                Err(CheckFailure::Fatal(e)) => Err(e),
            }
        },
    }
}

} // verus!
