use vmm_event::error::HypervisorError;
use vmm_event::interrupt::{
    create_irq_route_entry, gsi_count_from_raw, IrqRouteEntry, IrqRouteTable, IrqRouteTarget, MsiVector,
    KVM_IRQCHIP_IOAPIC, KVM_IRQCHIP_PIC_MASTER, KVM_IRQCHIP_PIC_SLAVE, KVM_IRQ_ROUTING_IRQCHIP, KVM_IRQ_ROUTING_MSI,
};

fn msi(lo: u32, hi: u32, data: u32) -> MsiVector {
    MsiVector { msg_addr_lo: lo, msg_addr_hi: hi, msg_data: data, masked: false }
}

#[test]
fn test_alloc_and_release_gsi() {
    let mut irq_route_table = IrqRouteTable::with_gsi_count(1024);
    irq_route_table.init_irq_route_table();
    assert_eq!(irq_route_table.allocate_gsi().unwrap(), 24);
    assert_eq!(irq_route_table.allocate_gsi().unwrap(), 25);
    assert_eq!(irq_route_table.allocate_gsi().unwrap(), 26);
    assert_eq!(irq_route_table.allocate_gsi().unwrap(), 27);
    assert_eq!(irq_route_table.allocate_gsi().unwrap(), 28);
    assert!(irq_route_table.release_gsi(26).is_ok());
    assert_eq!(irq_route_table.allocate_gsi().unwrap(), 26);
}

#[test]
fn test_get_maximum_gsi_cnt_clamps() {
    assert_eq!(gsi_count_from_raw(-1), 0);
    assert_eq!(gsi_count_from_raw(0), 0);
    assert_eq!(gsi_count_from_raw(1024), 1024);
}

#[test]
fn legacy_routes_are_laid_out() {
    let mut t = IrqRouteTable::with_gsi_count(64);
    t.init_irq_route_table();
    assert_eq!(t.irq_routes.len(), 40);
    assert_eq!(t.irq_routes[0], create_irq_route_entry(0, KVM_IRQCHIP_PIC_MASTER, 0));
    assert_eq!(t.irq_routes[9], create_irq_route_entry(9, KVM_IRQCHIP_PIC_SLAVE, 1));
    assert_eq!(t.irq_routes[39], create_irq_route_entry(23, KVM_IRQCHIP_IOAPIC, 23));
    assert_eq!(t.get_irq_route_entry(3).len(), 2);
    assert_eq!(t.get_irq_route_entry(20).len(), 1);
    assert_eq!(t.get_irq_route_entry(30).len(), 0);
}

#[test]
fn msi_route_update_replaces_all_routes_of_gsi() {
    let mut t = IrqRouteTable::with_gsi_count(64);
    t.init_irq_route_table();
    assert!(t.update_msi_route(3, msi(0xfee0_0000, 0, 0x41)).is_ok());
    let routes = t.get_irq_route_entry(3);
    assert_eq!(routes.len(), 1);
    assert_eq!(routes[0].type_, KVM_IRQ_ROUTING_MSI);
    assert_eq!(routes[0].u, IrqRouteTarget::Msi { address_lo: 0xfee0_0000, address_hi: 0, data: 0x41 });
    assert_eq!(t.get_irq_route_entry(4).len(), 2);
    assert_eq!(t.irq_routes.len(), 39);
    assert!(t.add_msi_route(3, msi(1, 2, 3)).is_ok());
    assert_eq!(t.get_irq_route_entry(3).len(), 2);
}

#[test]
fn releasing_drops_routes_and_out_of_range_fails() {
    let mut t = IrqRouteTable::with_gsi_count(64);
    let g = t.allocate_gsi().unwrap();
    assert_eq!(g, 0);
    t.add_msi_route(g, msi(1, 2, 3)).unwrap();
    assert!(t.release_gsi(g).is_ok());
    assert_eq!(t.get_irq_route_entry(g).len(), 0);
    assert_eq!(t.release_gsi(64), Err(HypervisorError::Util));
    assert_eq!(t.allocate_gsi().unwrap(), 0);
}

#[test]
fn exhausted_table_refuses_allocation() {
    let mut t = IrqRouteTable::with_gsi_count(1);
    for g in 0..64 {
        assert_eq!(t.allocate_gsi().unwrap(), g);
    }
    assert_eq!(t.allocate_gsi(), Err(HypervisorError::Util));
    let mut empty = IrqRouteTable::default();
    assert_eq!(empty.allocate_gsi(), Err(HypervisorError::Util));
}

#[test]
fn entry_fields_match_kvm() {
    let e: IrqRouteEntry = create_irq_route_entry(5, KVM_IRQCHIP_IOAPIC, 5);
    assert_eq!(e.type_, KVM_IRQ_ROUTING_IRQCHIP);
    assert_eq!(e.flags, 0);
    assert_eq!(KVM_IRQ_ROUTING_IRQCHIP, kvm_bindings::KVM_IRQ_ROUTING_IRQCHIP);
    assert_eq!(KVM_IRQ_ROUTING_MSI, kvm_bindings::KVM_IRQ_ROUTING_MSI);
    assert_eq!(KVM_IRQCHIP_PIC_MASTER, kvm_bindings::KVM_IRQCHIP_PIC_MASTER);
    assert_eq!(KVM_IRQCHIP_PIC_SLAVE, kvm_bindings::KVM_IRQCHIP_PIC_SLAVE);
    assert_eq!(KVM_IRQCHIP_IOAPIC, kvm_bindings::KVM_IRQCHIP_IOAPIC);
}
