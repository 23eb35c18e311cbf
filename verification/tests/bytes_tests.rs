use memregion::bytes::{ByteUnit, Bytes};

#[test]
fn human_one_and_a_half_kib() {
    let h = Bytes(1536).human();
    assert_eq!(h.unit, ByteUnit::KiB);
    assert_eq!(h.whole, 1);
    assert_eq!(h.frac, 500);
}

#[test]
fn human_zero_is_plain_bytes() {
    let h = Bytes(0).human();
    assert_eq!(h.unit, ByteUnit::B);
    assert_eq!(h.whole, 0);
    assert_eq!(h.frac, 0);
}

#[test]
fn human_mib_with_small_remainder() {
    let h = Bytes(1024 * 1024 + 512).human();
    assert_eq!(h.unit, ByteUnit::MiB);
    assert_eq!(h.whole, 1);
    // 512 / 1024^2 scaled to three digits rounds to zero.
    assert_eq!(h.frac, 0);
}

#[test]
fn human_fraction_rounds_to_nearest() {
    // 513 / 1024 * 1000 = 500.97..., shown as .501
    let h = Bytes(1537).human();
    assert_eq!(h.unit, ByteUnit::KiB);
    assert_eq!(h.whole, 1);
    assert_eq!(h.frac, 501);
}

#[test]
fn human_fraction_can_round_up_to_one_thousand() {
    // one byte short of 2 MiB: the remainder rounds all the way up
    let h = Bytes(2 * 1024 * 1024 - 1).human();
    assert_eq!(h.unit, ByteUnit::MiB);
    assert_eq!(h.whole, 1);
    assert_eq!(h.frac, 1000);
}

#[test]
fn human_just_below_one_kib() {
    let h = Bytes(1023).human();
    assert_eq!(h.unit, ByteUnit::B);
    assert_eq!(h.whole, 1023);
    assert_eq!(h.frac, 0);
}

#[test]
fn human_unit_boundaries() {
    assert_eq!(Bytes(1024).human().unit, ByteUnit::KiB);
    assert_eq!(Bytes(1 << 20).human().unit, ByteUnit::MiB);
    assert_eq!(Bytes(1 << 30).human().unit, ByteUnit::GiB);
    assert_eq!(Bytes(1 << 40).human().unit, ByteUnit::TiB);
    assert_eq!(Bytes(1 << 50).human().unit, ByteUnit::PiB);
    assert_eq!(Bytes(1 << 60).human().unit, ByteUnit::EiB);
}

#[test]
fn human_quarter_gib() {
    let h = Bytes(0x4000_0000 + 0x1000_0000).human();
    assert_eq!(h.unit, ByteUnit::GiB);
    assert_eq!(h.whole, 1);
    assert_eq!(h.frac, 250);
}

#[test]
fn add_and_add_assign() {
    let a = Bytes(40).add(2);
    assert_eq!(a, Bytes(42));
    let mut b = Bytes(100);
    b.add_assign(Bytes(11));
    assert_eq!(b, Bytes(111));
}

#[test]
fn checked_add_detects_overflow() {
    assert_eq!(Bytes(u64::MAX).checked_add(1), None);
    assert_eq!(Bytes(u64::MAX - 1).checked_add(1), Some(Bytes(u64::MAX)));
}
