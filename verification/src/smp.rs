//! Which CPUs there are, and which of them have started.
use std::collections::BTreeMap;
use vstd::prelude::*;

use crate::task::stack::VmSegment;

verus! {

/// What is known of an application processor while it boots.
#[derive(Clone, Copy, Debug)]
pub struct ApBootInfo {
    pub is_started: bool,
    pub boot_stack_frames: VmSegment,
}

/// The application processors, by the ID of their local APIC.
pub struct ApBootInfos {
    pub infos: BTreeMap<u32, ApBootInfo>,
}

impl View for ApBootInfos {
    type V = Map<u32, ApBootInfo>;

    open spec fn view(&self) -> Map<u32, ApBootInfo> {
        self.infos@
    }
}

impl ApBootInfos {
    /// No application processors.
    pub fn new() -> (r: ApBootInfos)
        ensures
            r@ == Map::<u32, ApBootInfo>::empty(),
    {
        ApBootInfos { infos: BTreeMap::new() }
    }

    /// Adds an application processor, in place of what was known of it.
    pub fn insert(&mut self, local_apic_id: u32, info: ApBootInfo)
        ensures
            final(self)@ == old(self)@.insert(local_apic_id, info),
    {
        broadcast use vstd::std_specs::btree::group_btree_axioms;
        broadcast use vstd::laws_cmp::group_laws_cmp;

        self.infos.insert(local_apic_id, info);
    }

    /// Looks an application processor up.
    pub fn get(&self, local_apic_id: u32) -> (r: Option<ApBootInfo>)
        ensures
            match r {
                Some(info) => self@.contains_key(local_apic_id) && info == self@[local_apic_id],
                None => !self@.contains_key(local_apic_id),
            },
    {
        broadcast use vstd::std_specs::btree::group_btree_axioms;
        broadcast use vstd::laws_cmp::group_laws_cmp;

        match self.infos.get(&local_apic_id) {
            Some(info) => Some(*info),
            None => None,
        }
    }
}

/// The CPUs.
pub struct Smp {
    /// How many there are.
    pub cpu_num: Option<u32>,
    /// The one that booted first.
    pub bsp: Option<u32>,
    /// The others.
    pub ap_boot_info: Option<ApBootInfos>,
}

/// The mathematical value of `Smp`.
#[verifier::ext_equal]
pub struct SmpView {
    pub cpu_num: Option<u32>,
    pub bsp: Option<u32>,
    pub ap_boot_info: Option<Map<u32, ApBootInfo>>,
}

impl View for Smp {
    type V = SmpView;

    open spec fn view(&self) -> SmpView {
        SmpView {
            cpu_num: self.cpu_num,
            bsp: self.bsp,
            ap_boot_info: match self.ap_boot_info {
                Some(m) => Some(m@),
                None => None,
            },
        }
    }
}

/// What is known of application processors that have not started: of one that is listed twice, what
/// was listed last.
pub open spec fn boot_info(aps: Seq<(u32, VmSegment)>) -> Map<u32, ApBootInfo>
    decreases aps.len(),
{
    if aps.len() == 0 {
        Map::empty()
    } else {
        boot_info(aps.drop_last()).insert(
            aps.last().0,
            ApBootInfo { is_started: false, boot_stack_frames: aps.last().1 },
        )
    }
}

/// The CPUs after application processors were listed: what was known before stays.
pub open spec fn booting(smp: SmpView, aps: Seq<(u32, VmSegment)>) -> SmpView {
    SmpView {
        ap_boot_info: if smp.ap_boot_info is Some {
            smp.ap_boot_info
        } else {
            Some(boot_info(aps))
        },
        ..smp
    }
}

/// The CPUs after they were counted and listed: what was known before stays.
pub open spec fn initialized(smp: SmpView, this_cpu: u32, aps: Seq<(u32, VmSegment)>) -> SmpView {
    booting(
        SmpView {
            cpu_num: if smp.cpu_num is Some {
                smp.cpu_num
            } else {
                Some((aps.len() + 1) as u32)
            },
            bsp: if smp.bsp is Some {
                smp.bsp
            } else {
                Some(this_cpu)
            },
            ..smp
        },
        aps,
    )
}

/// The CPUs after an application processor started.
pub open spec fn started(smp: SmpView, local_apic_id: u32) -> SmpView {
    let infos = smp.ap_boot_info->Some_0;
    SmpView {
        ap_boot_info: Some(
            infos.insert(
                local_apic_id,
                ApBootInfo { is_started: true, ..infos[local_apic_id] },
            ),
        ),
        ..smp
    }
}

impl Smp {
    /// Nothing is known yet.
    pub fn new() -> (r: Smp)
        ensures
            r@ == (SmpView { cpu_num: None, bsp: None, ap_boot_info: None }),
    {
        Smp { cpu_num: None, bsp: None, ap_boot_info: None }
    }

    /// Counts the CPUs, of which this one booted first, and lists the application processors with
    /// their boot stacks. What was known before stays.
    pub fn init(&mut self, this_cpu: u32, aps: &Vec<(u32, VmSegment)>)
        requires
            aps.len() < u32::MAX,
        ensures
            final(self)@ == initialized(old(self)@, this_cpu, aps@),
    {
        if self.cpu_num.is_none() {
            self.cpu_num = Some((aps.len() + 1) as u32);
        }
        if self.bsp.is_none() {
            self.bsp = Some(this_cpu);
        }
        self.boot_all_aps(aps);
    }

    /// Lists the application processors with their boot stacks, unless that was done before. They
    /// are to be sent their boot interrupts after that.
    pub fn boot_all_aps(&mut self, aps: &Vec<(u32, VmSegment)>)
        ensures
            final(self)@ == booting(old(self)@, aps@),
    {
        if self.ap_boot_info.is_none() {
            let mut infos = ApBootInfos::new();
            assert(aps@.take(0) =~= Seq::empty());
            for i in 0..aps.len()
                invariant
                    infos@ == boot_info(aps@.take(i as int)),
            {
                let (id, boot_stack_frames) = aps[i];
                proof {
                    let next = aps@.take(i + 1);
                    assert(next.drop_last() =~= aps@.take(i as int));
                    assert(next.last() == aps@[i as int]);
                }
                infos.insert(id, ApBootInfo { is_started: false, boot_stack_frames });
            }
            assert(aps@.take(aps.len() as int) =~= aps@);
            self.ap_boot_info = Some(infos);
        }
    }

    /// Marks an application processor that was listed as started.
    pub fn ap_started(&mut self, local_apic_id: u32)
        requires
            old(self)@.ap_boot_info matches Some(infos) && infos.contains_key(local_apic_id),
        ensures
            final(self)@ == started(old(self)@, local_apic_id),
    {
        if let Some(infos) = &mut self.ap_boot_info {
            if let Some(info) = infos.get(local_apic_id) {
                infos.insert(local_apic_id, ApBootInfo { is_started: true, ..info });
            }
        }
    }
}

/// The CPUs are counted and listed once: doing so again changes nothing, whatever is found then.
pub proof fn law_init_once(
    smp: SmpView,
    cpu: u32,
    aps: Seq<(u32, VmSegment)>,
    later_cpu: u32,
    later_aps: Seq<(u32, VmSegment)>,
)
    ensures
        initialized(initialized(smp, cpu, aps), later_cpu, later_aps) == initialized(
            smp,
            cpu,
            aps,
        ),
{
}

/// Every application processor that is listed is known, and none has started before it says so.
pub proof fn law_listed_not_started(aps: Seq<(u32, VmSegment)>, i: int)
    requires
        0 <= i < aps.len(),
    ensures
        boot_info(aps).contains_key(aps[i].0),
        !boot_info(aps)[aps[i].0].is_started,
    decreases aps.len(),
{
    if i < aps.len() - 1 {
        law_listed_not_started(aps.drop_last(), i);
    }
}

/// What is known of an application processor is its boot stack, the one that it was listed with
/// last.
pub proof fn law_last_listing_counts(aps: Seq<(u32, VmSegment)>, i: int)
    requires
        0 <= i < aps.len(),
        forall|j: int| i < j < aps.len() ==> (#[trigger] aps[j]).0 != aps[i].0,
    ensures
        boot_info(aps).contains_key(aps[i].0),
        boot_info(aps)[aps[i].0] == (ApBootInfo {
            is_started: false,
            boot_stack_frames: aps[i].1,
        }),
    decreases aps.len(),
{
    let front = aps.drop_last();
    if i < front.len() {
        assert(aps[aps.len() - 1].0 != aps[i].0);
        assert forall|j: int| i < j < front.len() implies (#[trigger] front[j]).0 != front[i].0 by {
            assert(aps[j].0 != aps[i].0);
        }
        law_last_listing_counts(front, i);
    }
}

/// Nothing is known of an application processor that was not listed.
pub proof fn law_unlisted_is_unknown(aps: Seq<(u32, VmSegment)>, id: u32)
    requires
        forall|i: int| 0 <= i < aps.len() ==> (#[trigger] aps[i]).0 != id,
    ensures
        !boot_info(aps).contains_key(id),
    decreases aps.len(),
{
    if aps.len() > 0 {
        let front = aps.drop_last();
        assert forall|i: int| 0 <= i < front.len() implies (#[trigger] front[i]).0 != id by {
            assert(aps[i].0 != id);
        }
        assert(aps[aps.len() - 1].0 != id);
        law_unlisted_is_unknown(front, id);
    }
}

/// The CPUs are those that were listed and the one that lists them, which is the one that booted
/// first.
pub proof fn law_init_counts_all(smp: SmpView, this_cpu: u32, aps: Seq<(u32, VmSegment)>)
    requires
        aps.len() < u32::MAX,
    ensures
        ({
            let after = initialized(smp, this_cpu, aps);
            &&& smp.cpu_num is None ==> (after.cpu_num matches Some(n) && n == aps.len() + 1)
            &&& smp.bsp is None ==> after.bsp == Some(this_cpu)
            &&& smp.ap_boot_info is None ==> after.ap_boot_info == Some(boot_info(aps))
            &&& smp.cpu_num is Some ==> after.cpu_num == smp.cpu_num
            &&& smp.bsp is Some ==> after.bsp == smp.bsp
            &&& smp.ap_boot_info is Some ==> after.ap_boot_info == smp.ap_boot_info
        }),
{
}

/// An application processor that started is marked so and keeps its boot stack, and nothing else
/// changes.
pub proof fn law_start_marks_one(smp: SmpView, started_id: u32, id: u32)
    requires
        smp.ap_boot_info matches Some(infos) && infos.contains_key(started_id),
    ensures
        ({
            let after = started(smp, started_id);
            let (infos, infos2) = (smp.ap_boot_info->Some_0, after.ap_boot_info->Some_0);
            &&& after.ap_boot_info is Some
            &&& infos2[started_id].is_started
            &&& infos2[started_id].boot_stack_frames == infos[started_id].boot_stack_frames
            &&& infos2.contains_key(id) == infos.contains_key(id)
            &&& id != started_id ==> infos2[id] == infos[id]
            &&& after.cpu_num == smp.cpu_num
            &&& after.bsp == smp.bsp
        }),
{
}

} // verus!
