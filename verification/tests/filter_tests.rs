use rsnetstat::info::{filter_by, Entry, Mode};
use rsnetstat::ip::Address;

fn sample_entries() -> Vec<Entry> {
    vec![
        Entry {
            local_address: Address::V4(0x7F000001),
            remote_address: Address::V4(0x00000000),
            local_port: 80,
            mode: Mode::Tcp,
            remote_port: 90,
            connection_state: 0xA,
            uid: 1000,
        },
        Entry {
            local_address: Address::V4(0x7F000002),
            remote_address: Address::V4(0x00000003),
            local_port: 81,
            mode: Mode::Tcp,
            remote_port: 90,
            connection_state: 0xA,
            uid: 1000,
        },
        Entry {
            local_address: Address::V6(0, 0, 0, 1),
            remote_address: Address::V6(0, 0, 0, 0),
            local_port: 80,
            mode: Mode::Tcp6,
            remote_port: 90,
            connection_state: 0xA,
            uid: 1000,
        },
    ]
}

#[test]
fn conninfo_filter_by_test() {
    let entries = sample_entries();
    let result = filter_by(&entries, &Mode::Tcp, None, None, None, None);
    assert_eq!(result.len(), 2);

    let result = filter_by(&entries, &Mode::Tcp, Some(Address::V4(0x7F000001)), None, None, None);
    assert_eq!(result.len(), 1);
}

#[test]
fn info_filter_by_test() {
    let entries = sample_entries();
    let result = filter_by(&entries, &Mode::Tcp, None, None, None, None);
    assert_eq!(result.len(), 2);

    let result = filter_by(&entries, &Mode::Tcp, Some(Address::V4(0x7F000001)), None, None, None);
    assert_eq!(result.len(), 1);
}

#[test]
fn filter_by_mode_keeps_order() {
    // With every criterion but the mode unset, exactly the entries of that
    // mode come back, in their original order.
    let entries = sample_entries();
    let result = filter_by(&entries, &Mode::Tcp, None, None, None, None);
    assert_eq!(result[0], entries[0]);
    assert_eq!(result[1], entries[1]);

    let result = filter_by(&entries, &Mode::Tcp6, None, None, None, None);
    assert_eq!(result.len(), 1);
    assert_eq!(result[0], entries[2]);
}

#[test]
fn filter_by_ports() {
    let entries = sample_entries();
    let result = filter_by(&entries, &Mode::Tcp, None, None, Some(81), None);
    assert_eq!(result.len(), 1);
    assert_eq!(result[0], entries[1]);

    let result = filter_by(&entries, &Mode::Tcp, None, None, None, Some(90));
    assert_eq!(result.len(), 2);

    let result = filter_by(&entries, &Mode::Tcp, None, None, None, Some(91));
    assert_eq!(result.len(), 0);
}

#[test]
fn filter_by_remote_address() {
    let entries = sample_entries();
    let result = filter_by(&entries, &Mode::Tcp, None, Some(Address::V4(0x00000003)), None, None);
    assert_eq!(result.len(), 1);
    assert_eq!(result[0], entries[1]);
}

#[test]
fn filter_by_v4_criterion_never_matches_v6_entry() {
    let entries = sample_entries();
    // ::1 and 0.0.0.1 share the numeric value 1 but not the variant.
    let result = filter_by(&entries, &Mode::Tcp6, Some(Address::V4(0x00000001)), None, None, None);
    assert_eq!(result.len(), 0);
}

#[test]
fn filter_by_is_idempotent() {
    // Filtering the filter's own output with the same criteria changes
    // nothing.
    let entries = sample_entries();
    let once = filter_by(&entries, &Mode::Tcp, None, None, None, Some(90));
    let twice = filter_by(&once, &Mode::Tcp, None, None, None, Some(90));
    assert_eq!(once, twice);

    let once = filter_by(&entries, &Mode::Tcp, Some(Address::V4(0x7F000001)), None, None, None);
    let twice = filter_by(&once, &Mode::Tcp, Some(Address::V4(0x7F000001)), None, None, None);
    assert_eq!(once, twice);
}

#[test]
fn filter_by_empty_result_is_not_an_error() {
    let entries = sample_entries();
    let result = filter_by(&entries, &Mode::Udp, None, None, None, None);
    assert_eq!(result.len(), 0);
}
