use swage::constants::{PAGE_SIZE, ROW_SIZE};
use swage::phys_addr::PhysAddr;
use swage::size::Size;

#[test]
fn size_conversions() {
    let bytes = Size::B(12);
    assert_eq!(bytes.bytes(), 12);
    let mb = Size::MB(12);
    assert_eq!(mb.bytes(), 12 * (1 << 20));
    let gb = Size::GB(12);
    assert_eq!(gb.bytes(), 12 * (1 << 30));
}

#[test]
fn size_units() {
    assert_eq!(Size::KB(8).bytes(), 8192);
    assert_eq!(Size::KB(8).checked_bytes(), Some(8192));
    assert_eq!(Size::GB(usize::MAX).checked_bytes(), None);
    assert_eq!(Size::MB(4).count(), 4);
    assert_eq!(Size::MB(4).unit(), "MB");
    assert_eq!(Size::B(1).unit(), "B");
    assert_eq!(Size::KB(1).unit(), "KB");
    assert_eq!(Size::GB(1).unit(), "GB");
}

#[test]
fn constants_agree() {
    assert_eq!(PAGE_SIZE, 1 << 12);
    assert_eq!(ROW_SIZE, 1 << 13);
}

#[test]
fn phys_addr_arithmetic() {
    let a = PhysAddr::new(0x1000);
    assert_eq!(a.as_usize(), 0x1000);
    assert_eq!(a.add(0x234).as_usize(), 0x1234);
    assert_eq!(a.sub(0x1000).as_usize(), 0);
    assert_eq!(a.checked_sub(PhysAddr::new(0x2000)), None);
    assert_eq!(a.checked_sub(PhysAddr::new(0x800)), Some(PhysAddr::new(0x800)));
    assert_eq!(PhysAddr::new(usize::MAX).checked_add(1), None);
    assert_eq!(PhysAddr::default(), PhysAddr::new(0));
}
