use dldsr::metrics::{chain_model_fits_check, simulate_chain, ComparisonReport, NodeMetrics};
use dldsr::packet::ProtocolMode;

#[test]
fn chain_model_exact_totals() {
    let dsr = simulate_chain(4, ProtocolMode::Dsr, 64, 10);
    assert_eq!(dsr.total_tx_bytes, 3360);
    assert_eq!(dsr.total_rx_bytes, 3360);
    assert_eq!(dsr.data_bytes, 3360);
    assert_eq!(dsr.control_bytes, 0);
    assert_eq!(dsr.path_header_bytes, 160);
    assert_eq!(dsr.lost_packets, 0);
    assert_eq!(dsr.mode, ProtocolMode::Dsr);
    assert_eq!(dsr.hops, 4);
    assert_eq!(dsr.payload_size, 64);
    assert_eq!(dsr.packet_count, 10);

    let dldsr = simulate_chain(4, ProtocolMode::DlDsr, 64, 10);
    assert_eq!(dldsr.total_tx_bytes, 3000);
    assert_eq!(dldsr.path_header_bytes, 40);
}

#[test]
fn chain_model_savings_are_three_bytes_per_hop_and_packet() {
    let dsr = simulate_chain(32, ProtocolMode::Dsr, 512, 1000);
    let dldsr = simulate_chain(32, ProtocolMode::DlDsr, 512, 1000);
    assert_eq!(dsr.path_header_bytes - dldsr.path_header_bytes, 3 * 32 * 1000);
    assert_eq!(dsr.total_tx_bytes - dldsr.total_tx_bytes, 3 * 32 * 1000 * 31);
}

#[test]
fn short_chains_use_one_link_transmission() {
    let one = simulate_chain(1, ProtocolMode::DlDsr, 0, 2);
    assert_eq!(one.total_tx_bytes, 66);
    assert_eq!(one.path_header_bytes, 2);
    let none = simulate_chain(0, ProtocolMode::Dsr, 10, 3);
    assert_eq!(none.total_tx_bytes, 126);
    assert_eq!(none.path_header_bytes, 0);
    let empty = simulate_chain(8, ProtocolMode::Dsr, 64, 0);
    assert_eq!(empty.total_tx_bytes, 0);
    assert_eq!(empty.delivered_packets, 0);
}

#[test]
fn counters_split_sent_bytes_into_control_and_data() {
    let mut m = NodeMetrics::new();
    m.record_tx(100, true);
    m.record_tx(50, false);
    m.record_rx(70);
    assert_eq!(m.tx_packets, 2);
    assert_eq!(m.tx_bytes, 150);
    assert_eq!(m.control_bytes, 100);
    assert_eq!(m.data_bytes, 50);
    assert_eq!(m.rx_packets, 1);
    assert_eq!(m.rx_bytes, 70);
    assert_eq!(m.control_bytes + m.data_bytes, m.tx_bytes);
}

#[test]
fn counters_wrap_around() {
    let mut m = NodeMetrics::default();
    m.tx_bytes = u64::MAX;
    m.data_bytes = u64::MAX;
    m.record_tx(2, false);
    assert_eq!(m.tx_bytes, 1);
    assert_eq!(m.data_bytes, 1);
    m.rx_packets = u64::MAX;
    m.record_rx(1);
    assert_eq!(m.rx_packets, 0);
}

#[test]
fn comparison_reports_savings_of_dldsr() {
    let c = ComparisonReport::new(32, 512, 1000);
    assert_eq!(c.dsr.mode, ProtocolMode::Dsr);
    assert_eq!(c.dldsr.mode, ProtocolMode::DlDsr);
    assert_eq!(c.path_header_savings_bytes, 96_000);
    assert_eq!(c.total_tx_savings_bytes, 96_000 * 31);
    assert_eq!(c.dsr.total_tx_bytes - c.dldsr.total_tx_bytes, c.total_tx_savings_bytes);
    let none = ComparisonReport::new(0, 64, 10);
    assert_eq!(none.path_header_savings_bytes, 0);
    assert_eq!(none.total_tx_savings_bytes, 0);
}

#[test]
fn header_savings_grow_with_hops_and_packets_not_payload() {
    let savings = |hops: usize, payload: usize, packets: u64| {
        simulate_chain(hops, ProtocolMode::Dsr, payload, packets).path_header_bytes
            - simulate_chain(hops, ProtocolMode::DlDsr, payload, packets).path_header_bytes
    };
    assert_eq!(savings(4, 64, 10), 120);
    assert_eq!(savings(4, 4096, 10), 120);
    assert!(savings(8, 64, 10) > savings(4, 64, 10));
    assert!(savings(4, 64, 20) > savings(4, 64, 10));
}

#[test]
fn chain_model_fit_check() {
    assert!(chain_model_fits_check(4, ProtocolMode::Dsr, 64, 10));
    assert!(chain_model_fits_check(0, ProtocolMode::DlDsr, 0, 0));
    assert!(!chain_model_fits_check(4, ProtocolMode::Dsr, 64, u64::MAX));
    assert!(chain_model_fits_check(1, ProtocolMode::DlDsr, 0, u64::MAX / 33));
    assert!(!chain_model_fits_check(1, ProtocolMode::DlDsr, 0, u64::MAX / 33 + 1));
    assert!(!chain_model_fits_check(usize::MAX, ProtocolMode::Dsr, 0, 0));
    assert!(!chain_model_fits_check(3, ProtocolMode::DlDsr, usize::MAX, 0));
}

#[test]
fn sent_byte_savings_grow_with_hops_and_packets_not_payload() {
    let c = ComparisonReport::new(4, 64, 10);
    assert_eq!(c.path_header_savings_bytes, 120);
    assert_eq!(c.total_tx_savings_bytes, 360);
    assert_eq!(ComparisonReport::new(4, 4096, 10).total_tx_savings_bytes, 360);
    assert!(ComparisonReport::new(5, 64, 10).total_tx_savings_bytes > 360);
    assert!(ComparisonReport::new(4, 64, 11).total_tx_savings_bytes > 360);
}
