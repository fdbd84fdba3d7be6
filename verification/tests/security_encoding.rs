use zeno_fcis::encode::Encodable;
use zeno_fcis::security::{LeakageBlocker, Mitigation, SecurityPromotionBlocker};

fn encode<T: Encodable>(value: &T) -> Vec<u8> {
    let mut output = Vec::new();
    value.encode_to(&mut output);
    output
}

#[test]
fn leakage_blocker_encodings_are_tagged_big_endian() {
    assert_eq!(encode(&LeakageBlocker::PublicInputMismatch), vec![0]);
    assert_eq!(encode(&LeakageBlocker::ArithmeticOverflow), vec![18]);
    assert_eq!(encode(&LeakageBlocker::MissingMitigation(Mitigation::FixedWork)), vec![3, 3]);
    assert_eq!(
        encode(&LeakageBlocker::TraceLengthMismatch { left: 1, right: 0x0102_0304 }),
        vec![4, 0, 0, 0, 1, 1, 2, 3, 4]
    );
    assert_eq!(encode(&LeakageBlocker::UnjustifiedLeakageBits { index: 7 }), vec![17, 0, 0, 0, 7]);
    assert_eq!(
        encode(&LeakageBlocker::QuantityDeltaExceeded { index: 2, delta: 5, maximum: 3 }),
        vec![12, 0, 0, 0, 2, 0, 0, 0, 0, 0, 0, 0, 5, 0, 0, 0, 0, 0, 0, 0, 3]
    );
    assert_eq!(
        encode(&LeakageBlocker::TotalDeclassificationBitsExceeded { observed: 9, maximum: 8 }),
        vec![16, 0, 0, 0, 0, 0, 0, 0, 9, 0, 0, 0, 0, 0, 0, 0, 8]
    );
}

#[test]
fn encoding_appends_to_existing_output() {
    let mut output = vec![0xAA];
    LeakageBlocker::ValueMismatch { index: 1 }.encode_to(&mut output);
    assert_eq!(output, vec![0xAA, 10, 0, 0, 0, 1]);
}

#[test]
fn security_promotion_blocker_encodings_are_tagged_big_endian() {
    assert_eq!(encode(&SecurityPromotionBlocker::LeakageReportFailed { index: 4 }), vec![0, 0, 0, 0, 4]);
    assert_eq!(encode(&SecurityPromotionBlocker::ThreatModelMismatch), vec![11]);
    assert_eq!(encode(&SecurityPromotionBlocker::MissingLeakageReport), vec![12]);
    assert_eq!(
        encode(&SecurityPromotionBlocker::TooManyLeakageReports { observed: 300, maximum: 256 }),
        vec![13, 0, 0, 1, 44, 0, 0, 1, 0]
    );
}
