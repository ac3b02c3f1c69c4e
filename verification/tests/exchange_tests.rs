use sequence::exchange::{cboe, cme, ice, Exchange, Range};

#[test]
fn cme_payload_yields_sequence_and_one_message() {
    let payload = [0x00u8, 0x00, 0x00, 0x05, 0xaa, 0xbb];
    assert_eq!(cme::get_sequence(&payload), Range { begin: 5, count: 1 });
}

#[test]
fn cme_sequence_uses_all_four_bytes() {
    let payload = [0x01u8, 0x02, 0x03, 0x04];
    assert_eq!(cme::get_sequence(&payload), Range { begin: 0x0102_0304, count: 1 });
}

#[test]
fn cboe_payload_yields_sequence_and_count() {
    let payload = [0x11u8, 0x22, 0x03, 0x44, 0x00, 0x00, 0x00, 0x0a];
    assert_eq!(cboe::get_sequence(&payload), Range { begin: 10, count: 3 });
}

#[test]
fn cboe_zero_sequence_is_the_sentinel_whatever_the_count() {
    let payload = [0x11u8, 0x22, 0x07, 0x44, 0x00, 0x00, 0x00, 0x00];
    assert_eq!(cboe::get_sequence(&payload), Range { begin: 0, count: 0 });
    assert!(cboe::get_sequence(&payload).is_sentinel());
}

#[test]
fn cboe_short_payload_is_the_sentinel() {
    let payload = [0x11u8, 0x22, 0x03, 0x44, 0x00, 0x00, 0x01];
    assert_eq!(cboe::get_sequence(&payload), Range { begin: 0, count: 0 });
    assert_eq!(cboe::get_sequence(&[]), Range { begin: 0, count: 0 });
}

#[test]
fn cboe_count_may_be_zero_with_a_sequence() {
    let payload = [0u8, 0, 0, 0, 0x00, 0x00, 0x01, 0x00];
    assert_eq!(cboe::get_sequence(&payload), Range { begin: 256, count: 0 });
    assert!(!cboe::get_sequence(&payload).is_sentinel());
}

#[test]
fn ice_payload_yields_sequence_and_count() {
    let payload = [0xaau8, 0xbb, 0x00, 0x00, 0x00, 0x14, 0x00, 0x02];
    assert_eq!(ice::get_sequence(&payload), Range { begin: 20, count: 2 });
}

#[test]
fn ice_count_uses_both_bytes() {
    let payload = [0u8, 0, 0x80, 0x00, 0x00, 0x01, 0x01, 0x02, 0xff];
    assert_eq!(ice::get_sequence(&payload), Range { begin: 0x8000_0001, count: 0x0102 });
}

#[test]
fn dispatch_reads_each_layout() {
    let payload = [0x00u8, 0x00, 0x03, 0x05, 0x00, 0x00, 0x00, 0x0a];
    assert_eq!(Exchange::CME.get_sequence(&payload), Range { begin: 0x0305, count: 1 });
    assert_eq!(Exchange::CBOE.get_sequence(&payload), Range { begin: 10, count: 3 });
    assert_eq!(Exchange::ICE.get_sequence(&payload), Range { begin: 0x0305_0000, count: 10 });
}

#[test]
fn dispatch_yields_the_sentinel_on_short_payloads() {
    let sentinel = Range { begin: 0, count: 0 };
    assert_eq!(Exchange::CME.get_sequence(&[0, 0, 5]), sentinel);
    assert_eq!(Exchange::CBOE.get_sequence(&[0, 0, 3, 0, 0, 0, 1]), sentinel);
    assert_eq!(Exchange::ICE.get_sequence(&[0, 0, 0, 0, 0, 20, 0]), sentinel);
    assert_eq!(Exchange::CME.get_sequence(&[0, 0, 0, 5]), Range { begin: 5, count: 1 });
}

#[test]
fn only_zero_zero_is_the_sentinel() {
    assert!(Range { begin: 0, count: 0 }.is_sentinel());
    assert!(!Range { begin: 0, count: 1 }.is_sentinel());
    assert!(!Range { begin: 1, count: 0 }.is_sentinel());
}
