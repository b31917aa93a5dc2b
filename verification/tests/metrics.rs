use windash::metrics::{bytes_to_mib, network_totals};

#[test]
fn memory_in_mebibytes() {
    assert_eq!(bytes_to_mib(0), 0);
    assert_eq!(bytes_to_mib(1024 * 1024 - 1), 0);
    assert_eq!(bytes_to_mib(16 * 1024 * 1024 * 1024), 16 * 1024);
    assert_eq!(bytes_to_mib(u64::MAX), u64::MAX / (1024 * 1024));
}

#[test]
fn network_totals_sum_each_direction() {
    assert_eq!(network_totals(&Vec::new()), (0, 0));
    assert_eq!(network_totals(&vec![(10, 1), (5, 2), (0, 30)]), (15, 33));
    assert_eq!(network_totals(&vec![(u64::MAX, 0)]), (u64::MAX, 0));
}
