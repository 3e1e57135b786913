//! The live status of all relay targets.

use vstd::prelude::*;

use crate::app_config::RelayTarget;
use crate::assoc_map::StringMap;
use crate::target_status::{TargetInfo, TargetStatus};

verus! {

/// The relay targets with what is known of each.
#[derive(Debug)]
pub struct TargetMonitor {
    infos: StringMap<TargetInfo>,
    targets: StringMap<RelayTarget>,
}

/// What is known of a target before its first probe.
pub open spec fn unprobed() -> TargetInfo {
    TargetInfo { status: TargetStatus::Offline, ip: None }
}

impl TargetMonitor {
    /// There is one status for each target.
    #[verifier::type_invariant]
    closed spec fn covers(self) -> bool {
        self.infos@.dom() == self.targets@.dom()
    }

    /// What is known of each target.
    pub closed spec fn infos(self) -> Map<Seq<char>, TargetInfo> {
        self.infos@
    }

    /// The targets.
    pub closed spec fn targets(self) -> Map<Seq<char>, RelayTarget> {
        self.targets@
    }

    /// The names of the targets, in the order in which they are probed.
    pub closed spec fn names(self) -> Seq<Seq<char>> {
        self.targets.keys()
    }

    /// A monitor that takes every target to be offline.
    pub fn new(targets: StringMap<RelayTarget>) -> (r: Self)
        ensures
            r.targets() == targets@,
            r.infos() == Map::new(
                |name: Seq<char>| targets@.contains_key(name),
                |name: Seq<char>| unprobed(),
            ),
    {
        let n: usize = targets.len();
        let mut infos: StringMap<TargetInfo> = StringMap::new();
        let mut i: usize = 0;
        while i < n
            invariant
                i <= n == targets.keys().len(),
                targets.keys().to_set() == targets@.dom(),
                forall|k: int| 0 <= k < i ==> infos@.contains_key(#[trigger] targets.keys()[k]),
                forall|name: Seq<char>| #[trigger]
                    infos@.contains_key(name) ==> targets@.contains_key(name) && infos@[name]
                        == unprobed(),
            decreases n - i,
        {
            let (name, _) = targets.entry(i);
            infos.insert(name.clone(), TargetInfo { status: TargetStatus::Offline, ip: None });
            i += 1;
        }
        proof {
            assert forall|name: Seq<char>| #[trigger]
                targets@.contains_key(name) implies infos@.contains_key(name) by {
                assert(targets.keys().to_set().contains(name));
                let k = choose|k: int|
                    0 <= k < targets.keys().len() && targets.keys()[k] == name;
                assert(infos@.contains_key(targets.keys()[k]));
            }
            assert(infos@ =~= Map::new(
                |name: Seq<char>| targets@.contains_key(name),
                |name: Seq<char>| unprobed(),
            ));
            assert(infos@.dom() =~= targets@.dom());
        }
        TargetMonitor { infos, targets }
    }

    /// The number of targets.
    pub fn len(&self) -> (n: usize)
        ensures
            n == self.names().len(),
            self.names().no_duplicates(),
            self.names().to_set() == self.targets().dom(),
    {
        self.targets.len()
    }

    /// The name and the configuration of a target.
    pub fn target(&self, i: usize) -> (r: (&String, &RelayTarget))
        requires
            i < self.names().len(),
        ensures
            r.0@ == self.names()[i as int],
            self.targets().contains_key(r.0@),
            *r.1 == self.targets()[r.0@],
    {
        self.targets.entry(i)
    }

    /// Takes in what a probe found out of a target.
    pub fn record(&mut self, name: String, info: TargetInfo)
        requires
            old(self).targets().contains_key(name@),
        ensures
            final(self).infos() == old(self).infos().insert(name@, info),
            final(self).targets() == old(self).targets(),
            final(self).names() == old(self).names(),
    {
        proof {
            use_type_invariant(&*self);
        }
        let mut taken = TargetMonitor { infos: StringMap::new(), targets: StringMap::new() };
        std::mem::swap(self, &mut taken);
        let TargetMonitor { mut infos, targets } = taken;
        infos.insert(name, info);
        proof {
            assert(infos@.dom() =~= targets@.dom());
        }
        *self = TargetMonitor { infos, targets };
    }

    /// What is known of every target.
    pub fn get_all(&self) -> (r: &StringMap<TargetInfo>)
        ensures
            r@ == self.infos(),
    {
        &self.infos
    }

    /// What is known of a target, or `None` if there is none of that name.
    pub fn get(&self, name: &str) -> (r: Option<TargetInfo>)
        ensures
            r == (if self.targets().contains_key(name@) {
                Some(self.infos()[name@])
            } else {
                None
            }),
    {
        proof {
            use_type_invariant(self);
            assert(self.infos@.dom().contains(name@) == self.targets@.dom().contains(name@));
        }
        match self.infos.get(&name.to_owned()) {
            Some(info) => Some(*info),
            None => None,
        }
    }
}

// ---------------------------------------------------------------------------
// Laws
// ---------------------------------------------------------------------------
/// What was found out of a target is what is known of it afterwards, and what
/// is known of the other targets stays as it is.
pub proof fn recording_changes_one_target(
    before: TargetMonitor,
    after: TargetMonitor,
    name: Seq<char>,
    info: TargetInfo,
    other: Seq<char>,
)
    requires
        after.infos() == before.infos().insert(name, info),
        other != name,
    ensures
        after.infos().contains_key(name),
        after.infos()[name] == info,
        after.infos().contains_key(other) == before.infos().contains_key(other),
        before.infos().contains_key(other) ==> after.infos()[other] == before.infos()[other],
{
}

/// A monitor knows every target from the start, as offline and without an
/// address, and nothing else.
pub proof fn targets_are_offline_until_probed(
    targets: StringMap<RelayTarget>,
    monitor: TargetMonitor,
    name: &str,
    info: Option<TargetInfo>,
)
    requires
        call_ensures(TargetMonitor::new, (targets,), monitor),
        call_ensures(TargetMonitor::get, (&monitor, name), info),
    ensures
        targets@.contains_key(name@) ==> info == Some(
            TargetInfo { status: TargetStatus::Offline, ip: None },
        ),
        !targets@.contains_key(name@) ==> info is None,
        monitor.targets() == targets@,
{
}

/// What is recorded of a target is what is told of it from then on, and what is
/// told of every other target stays as it was.
pub proof fn recorded_state_is_told(
    monitor: &mut TargetMonitor,
    name: String,
    info: TargetInfo,
    after: TargetMonitor,
    asked: &str,
    told: Option<TargetInfo>,
    before: TargetMonitor,
    told_before: Option<TargetInfo>,
)
    requires
        call_ensures(TargetMonitor::record, (monitor, name, info), ()),
        old(monitor).targets().contains_key(name@),
        before == *old(monitor),
        after == *final(monitor),
        call_ensures(TargetMonitor::get, (&before, asked), told_before),
        call_ensures(TargetMonitor::get, (&after, asked), told),
    ensures
        asked@ == name@ ==> told == Some(info),
        asked@ != name@ ==> told == told_before,
{
}

/// All that is known is told at once: the same of each target as when it is
/// asked for by name.
pub proof fn all_states_are_told(
    monitor: TargetMonitor,
    all: &StringMap<TargetInfo>,
    name: &str,
    told: Option<TargetInfo>,
)
    requires
        call_ensures(TargetMonitor::get_all, (&monitor,), all),
        call_ensures(TargetMonitor::get, (&monitor, name), told),
        told is Some,
    ensures
        told == Some(all@[name@]),
{
}

} // verus!
