//! The GSI routing table of a KVM guest: which interrupt controller pin or MSI
//! message each global system interrupt (GSI) is delivered through, and which GSIs
//! are in use.
use vstd::prelude::*;
use crate::bitmap::{first_zero_from, lemma_first_zero_from, rounded_size, Bitmap};
use crate::error::HypervisorError;
use crate::sys::kvm_irq_routing_limit;
use kvm_ioctls::Kvm;

verus! {

/// Routing entry type: a pin of an in-kernel interrupt controller
/// (`KVM_IRQ_ROUTING_IRQCHIP`).
pub const KVM_IRQ_ROUTING_IRQCHIP: u32 = 1;
/// Routing entry type: a message-signalled interrupt (`KVM_IRQ_ROUTING_MSI`).
pub const KVM_IRQ_ROUTING_MSI: u32 = 2;
/// Interrupt controller id of the master PIC (`KVM_IRQCHIP_PIC_MASTER`).
pub const KVM_IRQCHIP_PIC_MASTER: u32 = 0;
/// Interrupt controller id of the slave PIC (`KVM_IRQCHIP_PIC_SLAVE`).
pub const KVM_IRQCHIP_PIC_SLAVE: u32 = 1;
/// Interrupt controller id of the IOAPIC (`KVM_IRQCHIP_IOAPIC`).
pub const KVM_IRQCHIP_IOAPIC: u32 = 2;
/// Pins of the IOAPIC on x86_64.
pub const IOAPIC_NUM_PINS: u32 = 24;
/// Pins of the master PIC.
pub const PIC_MASTER_PINS: u32 = 8;
/// Pins of the slave PIC.
pub const PIC_SLAVE_PINS: u32 = 8;

/// The routing target of an entry (the union of `kvm_irq_routing_entry`).
#[derive(Debug, Clone, Copy, PartialEq, Eq, Structural)]
pub enum IrqRouteTarget {
    /// Pin `pin` of interrupt controller `irqchip`.
    IrqChip { irqchip: u32, pin: u32 },
    /// An MSI message with this address and data.
    Msi { address_lo: u32, address_hi: u32, data: u32 },
}

/// One GSI routing entry, with the fields of `kvm_irq_routing_entry`.
#[derive(Debug, Clone, Copy, PartialEq, Eq, Structural)]
pub struct IrqRouteEntry {
    pub gsi: u32,
    pub type_: u32,
    pub flags: u32,
    pub pad: u32,
    pub u: IrqRouteTarget,
}

/// The address and data of an MSI vector.
#[derive(Debug, Clone, Copy, Default)]
pub struct MsiVector {
    pub msg_addr_lo: u32,
    pub msg_addr_hi: u32,
    pub msg_data: u32,
    pub masked: bool,
}

/// The entry routing `gsi` to pin `pin` of interrupt controller `irqchip`.
pub open spec fn irqchip_entry(gsi: u32, irqchip: u32, pin: u32) -> IrqRouteEntry {
    IrqRouteEntry {
        gsi,
        type_: KVM_IRQ_ROUTING_IRQCHIP,
        flags: 0,
        pad: 0,
        u: IrqRouteTarget::IrqChip { irqchip, pin },
    }
}

/// The entry routing `gsi` to the MSI message of `msi`.
pub open spec fn msi_entry(gsi: u32, msi: MsiVector) -> IrqRouteEntry {
    IrqRouteEntry {
        gsi,
        type_: KVM_IRQ_ROUTING_MSI,
        flags: 0,
        pad: 0,
        u: IrqRouteTarget::Msi {
            address_lo: msi.msg_addr_lo,
            address_hi: msi.msg_addr_hi,
            data: msi.msg_data,
        },
    }
}

/// Whether an entry routes `gsi`.
pub open spec fn routes_gsi(gsi: u32) -> spec_fn(IrqRouteEntry) -> bool {
    |e: IrqRouteEntry| e.gsi == gsi
}

/// Whether an entry routes a GSI other than `gsi`.
pub open spec fn routes_other_gsi(gsi: u32) -> spec_fn(IrqRouteEntry) -> bool {
    |e: IrqRouteEntry| e.gsi != gsi
}

/// The entries that route `gsi`, in table order.
pub open spec fn routes_of(routes: Seq<IrqRouteEntry>, gsi: u32) -> Seq<IrqRouteEntry> {
    routes.filter(routes_gsi(gsi))
}

/// The entries that do not route `gsi`, in table order.
pub open spec fn routes_without(routes: Seq<IrqRouteEntry>, gsi: u32) -> Seq<IrqRouteEntry> {
    routes.filter(routes_other_gsi(gsi))
}

/// The legacy routes of an x86_64 guest: GSIs 0..8 to the master PIC, GSIs 8..16
/// to the slave PIC, and GSIs 0..24 to the IOAPIC, pin for pin.
pub open spec fn legacy_routes() -> Seq<IrqRouteEntry> {
    pic_master_routes() + pic_slave_routes() + ioapic_routes()
}

/// GSIs 0..8 routed to pins 0..8 of the master PIC.
pub open spec fn pic_master_routes() -> Seq<IrqRouteEntry> {
    Seq::new(8, |i: int| irqchip_entry(i as u32, KVM_IRQCHIP_PIC_MASTER, i as u32))
}

/// GSIs 8..16 routed to pins 0..8 of the slave PIC.
pub open spec fn pic_slave_routes() -> Seq<IrqRouteEntry> {
    Seq::new(8, |i: int| irqchip_entry((i + 8) as u32, KVM_IRQCHIP_PIC_SLAVE, i as u32))
}

/// GSIs 0..24 routed to pins 0..24 of the IOAPIC.
pub open spec fn ioapic_routes() -> Seq<IrqRouteEntry> {
    Seq::new(24, |i: int| irqchip_entry(i as u32, KVM_IRQCHIP_IOAPIC, i as u32))
}

/// Builds the entry routing `gsi` to pin `pin` of interrupt controller `irqchip`.
pub fn create_irq_route_entry(gsi: u32, irqchip: u32, pin: u32) -> (e: IrqRouteEntry)
    ensures
        e == irqchip_entry(gsi, irqchip, pin),
{
    IrqRouteEntry {
        gsi,
        type_: KVM_IRQ_ROUTING_IRQCHIP,
        flags: 0,
        pad: 0,
        u: IrqRouteTarget::IrqChip { irqchip, pin },
    }
}

/// The GSI count that the answer `raw` of
/// `KVM_CHECK_EXTENSION(KVM_CAP_IRQ_ROUTING)` stands for: a negative answer counts
/// as none.
pub open spec fn gsi_count_of(raw: i32) -> u32 {
    if raw < 0 { 0 } else { raw as u32 }
}

/// A table sized for the answer `raw` covers every GSI the host reports, and
/// fewer than one 64-bit word more, in whole words.
pub proof fn law_table_covers_reported_gsis(raw: i32, len: int)
    requires
        len == rounded_size(gsi_count_of(raw) as usize),
    ensures
        gsi_count_of(raw) <= len < gsi_count_of(raw) + 64,
        len % 64 == 0,
{
    let n = gsi_count_of(raw) as int;
    assert(n <= usize::MAX - 63);
    assert(n <= (n + 63) / 64 * 64 < n + 64 && ((n + 63) / 64 * 64) % 64 == 0) by (nonlinear_arith)
        requires
            0 <= n,
    ;
}

/// The GSI count from the answer of `KVM_CHECK_EXTENSION(KVM_CAP_IRQ_ROUTING)`:
/// a negative answer counts as none.
pub fn gsi_count_from_raw(raw: i32) -> (n: u32)
    ensures
        n == (if raw < 0 { 0 } else { raw as u32 }),
        n == gsi_count_of(raw),
{
    if raw < 0 { 0 } else { raw as u32 }
}

/// The number of GSIs the host can route, as KVM reports it.
pub fn get_maximum_gsi_cnt(kvmfd: &Kvm) -> (n: u32)
    ensures
        n <= i32::MAX,
{
    gsi_count_from_raw(kvm_irq_routing_limit(kvmfd))
}

/// The GSI routing table, with the set of GSIs in use.
pub struct IrqRouteTable {
    pub irq_routes: Vec<IrqRouteEntry>,
    gsi_bitmap: Bitmap,
    host_limit: Ghost<i32>,
}

impl IrqRouteTable {
    /// The answer of `KVM_CHECK_EXTENSION(KVM_CAP_IRQ_ROUTING)` that `new` sized the
    /// table by.
    pub closed spec fn host_gsi_limit(&self) -> i32 {
        self.host_limit@
    }

    /// Which GSIs are in use; GSI `g` is the `g`-th bit.
    pub closed spec fn gsis(&self) -> Seq<bool> {
        self.gsi_bitmap@
    }

    /// The routes, in table order.
    pub closed spec fn routes(&self) -> Seq<IrqRouteEntry> {
        self.irq_routes@
    }

    /// The GSI bitmap is well formed.
    pub closed spec fn wf(&self) -> bool {
        self.gsi_bitmap.wf()
    }

    /// An empty table for a host that routes `gsi_count` GSIs: no routes, and the
    /// GSIs `0..gsi_count` (rounded up to a multiple of 64) all free.
    pub fn with_gsi_count(gsi_count: u32) -> (t: Self)
        ensures
            t.wf(),
            t.routes() == Seq::<IrqRouteEntry>::empty(),
            t.gsis().len() == rounded_size(gsi_count as usize),
            forall|g: int| 0 <= g < t.gsis().len() ==> !t.gsis()[g],
    {
        IrqRouteTable { irq_routes: Vec::new(), gsi_bitmap: Bitmap::new(gsi_count as usize), host_limit: Ghost(0) }
    }

    /// An empty table sized by the GSI count that `kvmfd` reports.
    pub fn new(kvmfd: &Kvm) -> (t: Self)
        ensures
            t.wf(),
            t.routes() == Seq::<IrqRouteEntry>::empty(),
            forall|g: int| 0 <= g < t.gsis().len() ==> !t.gsis()[g],
            exists|n: u32| n <= i32::MAX && #[trigger] rounded_size(n as usize) == t.gsis().len(),
            t.gsis().len() == rounded_size(gsi_count_of(t.host_gsi_limit()) as usize),
    {
        let raw = kvm_irq_routing_limit(kvmfd);
        let mut t = Self::with_gsi_count(gsi_count_from_raw(raw));
        t.host_limit = Ghost(raw);
        t
    }

    /// Adds the legacy x86_64 routes (see `legacy_routes`) and marks GSIs 0..24 in
    /// use. The table must have room for 24 GSIs.
    pub fn init_irq_route_table(&mut self)
        requires
            old(self).wf(),
            old(self).gsis().len() >= IOAPIC_NUM_PINS,
        ensures
            final(self).wf(),
            final(self).routes() == old(self).routes() + legacy_routes(),
            final(self).gsis().len() == old(self).gsis().len(),
            forall|g: int| 0 <= g < IOAPIC_NUM_PINS ==> final(self).gsis()[g],
            forall|g: int| IOAPIC_NUM_PINS <= g < final(self).gsis().len() ==> final(self).gsis()[g] == old(self).gsis()[g],
    {
        let ghost r0 = self.irq_routes@;
        let ghost master = pic_master_routes();
        let ghost slave = pic_slave_routes();
        let ghost ioapic = ioapic_routes();
        let mut i: u32 = 0;
        while i < PIC_MASTER_PINS
            invariant
                i <= PIC_MASTER_PINS,
                self.gsi_bitmap == old(self).gsi_bitmap,
                self.irq_routes@ == r0 + master.take(i as int),
                master == pic_master_routes(),
            decreases PIC_MASTER_PINS - i,
        {
            self.irq_routes.push(create_irq_route_entry(i, KVM_IRQCHIP_PIC_MASTER, i));
            assert(master.take(i as int + 1) =~= master.take(i as int).push(master[i as int]));
            i = i + 1;
        }
        assert(master.take(8) =~= master);
        let mut i: u32 = PIC_MASTER_PINS;
        while i < PIC_MASTER_PINS + PIC_SLAVE_PINS
            invariant
                PIC_MASTER_PINS <= i <= PIC_MASTER_PINS + PIC_SLAVE_PINS,
                self.gsi_bitmap == old(self).gsi_bitmap,
                self.irq_routes@ == r0 + master + slave.take(i - PIC_MASTER_PINS),
                slave == pic_slave_routes(),
            decreases PIC_MASTER_PINS + PIC_SLAVE_PINS - i,
        {
            self.irq_routes.push(create_irq_route_entry(i, KVM_IRQCHIP_PIC_SLAVE, i - PIC_MASTER_PINS));
            assert(slave.take(i - PIC_MASTER_PINS + 1) =~= slave.take(i - PIC_MASTER_PINS).push(
                slave[i - PIC_MASTER_PINS],
            ));
            i = i + 1;
        }
        assert(slave.take(8) =~= slave);
        let mut i: u32 = 0;
        while i < IOAPIC_NUM_PINS
            invariant
                i <= IOAPIC_NUM_PINS,
                self.gsi_bitmap.wf(),
                self.gsis().len() == old(self).gsis().len(),
                old(self).gsis().len() >= IOAPIC_NUM_PINS,
                forall|g: int| 0 <= g < i ==> self.gsis()[g],
                forall|g: int| i <= g < self.gsis().len() ==> self.gsis()[g] == old(self).gsis()[g],
                self.irq_routes@ == r0 + master + slave + ioapic.take(i as int),
                ioapic == ioapic_routes(),
            decreases IOAPIC_NUM_PINS - i,
        {
            self.irq_routes.push(create_irq_route_entry(i, KVM_IRQCHIP_IOAPIC, i));
            assert(ioapic.take(i as int + 1) =~= ioapic.take(i as int).push(ioapic[i as int]));
            let _ = self.gsi_bitmap.set(i as usize);
            i = i + 1;
        }
        assert(ioapic.take(24) =~= ioapic);
        assert(self.irq_routes@ =~= r0 + legacy_routes());
    }

    /// Appends the route of `gsi` to the MSI message of `msi_vector`.
    pub fn add_msi_route(&mut self, gsi: u32, msi_vector: MsiVector) -> (r: Result<(), HypervisorError>)
        ensures
            r is Ok,
            final(self).routes() == old(self).routes().push(msi_entry(gsi, msi_vector)),
            final(self).gsis() == old(self).gsis(),
    {
        let kroute = IrqRouteEntry {
            gsi,
            type_: KVM_IRQ_ROUTING_MSI,
            flags: 0,
            pad: 0,
            u: IrqRouteTarget::Msi {
                address_lo: msi_vector.msg_addr_lo,
                address_hi: msi_vector.msg_addr_hi,
                data: msi_vector.msg_data,
            },
        };
        self.irq_routes.push(kroute);
        Ok(())
    }

    /// Drops every route of `gsi`; the other routes keep their order.
    fn remove_irq_route(&mut self, gsi: u32)
        ensures
            final(self).routes() == routes_without(old(self).routes(), gsi),
            final(self).gsis() == old(self).gsis(),
    {
        let ghost s = self.irq_routes@;
        let ghost p = routes_other_gsi(gsi);
        let mut kept: Vec<IrqRouteEntry> = Vec::new();
        let mut i: usize = 0;
        while i < self.irq_routes.len()
            invariant
                self.irq_routes@ == s,
                i <= s.len(),
                kept@ == s.take(i as int).filter(p),
                p == routes_other_gsi(gsi),
            decreases s.len() - i,
        {
            let e = self.irq_routes[i];
            proof {
                assert(s.take(i as int + 1) =~= s.take(i as int).push(e));
                s.take(i as int).lemma_filter_push(e, p);
            }
            if e.gsi != gsi {
                kept.push(e);
            }
            i = i + 1;
        }
        assert(s.take(s.len() as int) =~= s);
        self.irq_routes = kept;
    }

    /// Replaces every route of `gsi` by one route to the MSI message of `msi_vector`.
    pub fn update_msi_route(&mut self, gsi: u32, msi_vector: MsiVector) -> (r: Result<(), HypervisorError>)
        ensures
            r is Ok,
            final(self).routes() == routes_without(old(self).routes(), gsi).push(msi_entry(gsi, msi_vector)),
            final(self).gsis() == old(self).gsis(),
    {
        self.remove_irq_route(gsi);
        let r = self.add_msi_route(gsi, msi_vector);
        match r {
            Ok(()) => Ok(()),
            Err(e) => Err(e),
        }
    }

    /// Takes the lowest free GSI and marks it in use; an error, with the table
    /// unchanged, when every GSI is in use.
    pub fn allocate_gsi(&mut self) -> (r: Result<u32, HypervisorError>)
        requires
            old(self).wf(),
        ensures
            final(self).wf(),
            final(self).routes() == old(self).routes(),
            ({
                let z = first_zero_from(old(self).gsis(), 0);
                if z < old(self).gsis().len() {
                    r == Ok::<u32, HypervisorError>(z as u32) && final(self).gsis() == old(self).gsis().update(z, true)
                } else {
                    r == Err::<u32, HypervisorError>(HypervisorError::Util) && final(self).gsis() == old(self).gsis()
                }
            }),
    {
        let free_gsi = self.gsi_bitmap.find_next_zero(0);
        proof {
            lemma_first_zero_from(self.gsis(), 0);
        }
        match self.gsi_bitmap.set(free_gsi) {
            Ok(()) => Ok(free_gsi as u32),
            Err(_) => Err(HypervisorError::Util),
        }
    }

    /// Marks `gsi` free and drops its routes; an error, with the table unchanged,
    /// when `gsi` is beyond the table.
    pub fn release_gsi(&mut self, gsi: u32) -> (r: Result<(), HypervisorError>)
        requires
            old(self).wf(),
        ensures
            final(self).wf(),
            gsi < old(self).gsis().len() ==> r is Ok
                && final(self).gsis() == old(self).gsis().update(gsi as int, false)
                && final(self).routes() == routes_without(old(self).routes(), gsi),
            gsi >= old(self).gsis().len() ==> r == Err::<(), HypervisorError>(HypervisorError::Util)
                && final(self).gsis() == old(self).gsis()
                && final(self).routes() == old(self).routes(),
    {
        match self.gsi_bitmap.clear(gsi as usize) {
            Ok(()) => {},
            Err(_) => {
                return Err(HypervisorError::Util);
            },
        }
        self.remove_irq_route(gsi);
        Ok(())
    }

    /// The routes of `gsi`, in table order; empty if it has none.
    pub fn get_irq_route_entry(&self, gsi: u32) -> (entries: Vec<IrqRouteEntry>)
        ensures
            entries@ == routes_of(self.routes(), gsi),
    {
        let ghost s = self.irq_routes@;
        let ghost p = routes_gsi(gsi);
        let mut entries: Vec<IrqRouteEntry> = Vec::new();
        let mut i: usize = 0;
        while i < self.irq_routes.len()
            invariant
                self.irq_routes@ == s,
                i <= s.len(),
                entries@ == s.take(i as int).filter(p),
                p == routes_gsi(gsi),
            decreases s.len() - i,
        {
            let entry = self.irq_routes[i];
            proof {
                assert(s.take(i as int + 1) =~= s.take(i as int).push(entry));
                s.take(i as int).lemma_filter_push(entry, p);
            }
            if gsi == entry.gsi {
                entries.push(entry);
            }
            i = i + 1;
        }
        assert(s.take(s.len() as int) =~= s);
        entries
    }
}

impl Default for IrqRouteTable {
    /// A table with no routes and no GSIs.
    fn default() -> (t: Self)
        ensures
            t.wf(),
            t.routes() == Seq::<IrqRouteEntry>::empty(),
            t.gsis().len() == 0,
    {
        IrqRouteTable { irq_routes: Vec::new(), gsi_bitmap: Bitmap::new(0), host_limit: Ghost(0) }
    }
}

/// Filtering out the routes of `g` and then keeping the routes of `h` keeps nothing
/// when `g == h`, and keeps exactly the routes of `h` otherwise.
pub proof fn lemma_routes_of_without(routes: Seq<IrqRouteEntry>, g: u32, h: u32)
    ensures
        routes_of(routes_without(routes, g), h) == (if g == h {
            Seq::<IrqRouteEntry>::empty()
        } else {
            routes_of(routes, h)
        }),
    decreases routes.len(),
{
    reveal(Seq::filter);
    if routes.len() > 0 {
        let init = routes.drop_last();
        let last = routes.last();
        lemma_routes_of_without(init, g, h);
        assert(routes =~= init.push(last));
        init.lemma_filter_push(last, routes_other_gsi(g));
        init.lemma_filter_push(last, routes_gsi(h));
        routes_without(init, g).lemma_filter_push(last, routes_gsi(h));
    } else {
        assert(routes_of(routes_without(routes, g), h) =~= Seq::<IrqRouteEntry>::empty());
    }
}

/// The GSI that `allocate_gsi` hands out is free, and every lower GSI is in use.
pub proof fn law_allocated_gsi_is_least_free(gsis: Seq<bool>)
    ensures
        first_zero_from(gsis, 0) < gsis.len() ==> {
            &&& !gsis[first_zero_from(gsis, 0)]
            &&& forall|g: int| 0 <= g < first_zero_from(gsis, 0) ==> gsis[g]
        },
        first_zero_from(gsis, 0) >= gsis.len() ==> forall|g: int| 0 <= g < gsis.len() ==> gsis[g],
{
    lemma_first_zero_from(gsis, 0);
}

/// Releasing the GSI that `allocate_gsi` just handed out restores the set of GSIs
/// in use.
pub proof fn law_release_undoes_allocate(gsis: Seq<bool>)
    requires
        first_zero_from(gsis, 0) < gsis.len(),
    ensures
        gsis.update(first_zero_from(gsis, 0), true).update(first_zero_from(gsis, 0), false) == gsis,
{
    lemma_first_zero_from(gsis, 0);
    assert(gsis.update(first_zero_from(gsis, 0), true).update(first_zero_from(gsis, 0), false) =~= gsis);
}

/// After `release_gsi(g)`, the next `allocate_gsi` hands out `g` or a lower GSI.
pub proof fn law_released_gsi_is_reused(gsis: Seq<bool>, g: int)
    requires
        0 <= g < gsis.len(),
    ensures
        first_zero_from(gsis.update(g, false), 0) <= g,
{
    let s = gsis.update(g, false);
    lemma_first_zero_from(s, 0);
    if first_zero_from(s, 0) > g {
        assert(s[g]);
    }
}

/// After `release_gsi(g)`, no route of `g` is left, and every other GSI keeps its
/// routes.
pub proof fn law_release_drops_routes(routes: Seq<IrqRouteEntry>, g: u32, h: u32)
    ensures
        routes_of(routes_without(routes, g), g) == Seq::<IrqRouteEntry>::empty(),
        h != g ==> routes_of(routes_without(routes, g), h) == routes_of(routes, h),
{
    lemma_routes_of_without(routes, g, g);
    lemma_routes_of_without(routes, g, h);
}

/// After `update_msi_route(g, msi)`, `g` has exactly the one MSI route, and every
/// other GSI keeps its routes.
pub proof fn law_update_msi_route_single_route(routes: Seq<IrqRouteEntry>, g: u32, msi: MsiVector, h: u32)
    ensures
        routes_of(routes_without(routes, g).push(msi_entry(g, msi)), g) == seq![msi_entry(g, msi)],
        h != g ==> routes_of(routes_without(routes, g).push(msi_entry(g, msi)), h) == routes_of(routes, h),
{
    let w = routes_without(routes, g);
    lemma_routes_of_without(routes, g, g);
    lemma_routes_of_without(routes, g, h);
    w.lemma_filter_push(msi_entry(g, msi), routes_gsi(g));
    w.lemma_filter_push(msi_entry(g, msi), routes_gsi(h));
    assert(Seq::<IrqRouteEntry>::empty().push(msi_entry(g, msi)) =~= seq![msi_entry(g, msi)]);
}

} // verus!
