use bytesize::{ByteSizeIec, ByteSizeSi, EB, EIB, KIB};

#[test]
fn reinterpretation_keeps_the_count() {
    assert_eq!(ByteSizeSi(5).iec(), ByteSizeIec(5));
    assert_eq!(ByteSizeSi(5).iec().si(), ByteSizeSi(5));
    assert_eq!(ByteSizeIec(u64::MAX).si().iec(), ByteSizeIec(u64::MAX));
    assert_eq!(ByteSizeSi::from(ByteSizeIec(1024)), ByteSizeSi(1024));
    assert_eq!(ByteSizeIec::from(ByteSizeSi(1000)), ByteSizeIec(1000));
}

#[test]
fn integer_conversions() {
    assert_eq!(ByteSizeSi::from(7u64), ByteSizeSi(7));
    assert_eq!(ByteSizeIec::from(7u64), ByteSizeIec(7));
    assert_eq!(u64::from(ByteSizeSi(9)), 9);
    assert_eq!(u64::from(ByteSizeIec(9)), 9);
}

#[test]
fn constructors_scale_by_their_step() {
    assert_eq!(ByteSizeIec::kib(1), ByteSizeIec(KIB));
    assert_eq!(ByteSizeIec::eib(15), ByteSizeIec(15 * EIB));
    assert_eq!(ByteSizeSi::eb(18), ByteSizeSi(18 * EB));
    assert_eq!(ByteSizeSi::b(0), ByteSizeSi(0));
}

#[test]
fn arithmetic_keeps_the_flavor() {
    assert_eq!(ByteSizeSi(3) + ByteSizeSi(4), ByteSizeSi(7));
    assert_eq!(ByteSizeIec(9) - ByteSizeIec(4), ByteSizeIec(5));
    assert_eq!(ByteSizeSi(9) * 3, ByteSizeSi(27));
    assert_eq!(ByteSizeIec::kib(2) * 512, ByteSizeIec::mib(1));
}
