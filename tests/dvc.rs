use ironrdp_client::reassembly::CompleteData;

#[test]
fn fragmented_dvc_message() {
    let mut data = CompleteData::new();
    let mut delivered = Vec::new();
    for r in [
        data.process_data_first_pdu(10, vec![1, 2, 3, 4]),
        data.process_data_pdu(vec![5, 6, 7]),
        data.process_data_pdu(vec![8, 9, 10]),
    ] {
        if let Some(m) = r {
            delivered.push(m);
        }
    }
    assert_eq!(delivered, vec![vec![1, 2, 3, 4, 5, 6, 7, 8, 9, 10]]);
    assert_eq!(data.total_size(), 0);
    assert_eq!(data.buffered_len(), 0);
}

#[test]
fn dvc_overrun() {
    let mut data = CompleteData::new();
    assert_eq!(data.process_data_first_pdu(5, vec![1, 2, 3]), None);
    assert_eq!(data.process_data_pdu(vec![4, 5, 6]), None);
    assert_eq!(data.total_size(), 0);
    assert_eq!(data.buffered_len(), 0);
}

#[test]
fn unfragmented_data_passes_through() {
    let mut data = CompleteData::new();
    assert_eq!(data.process_data_pdu(vec![1, 2]), Some(vec![1, 2]));
    assert_eq!(data.process_data_first_pdu(3, vec![7, 8, 9]), Some(vec![7, 8, 9]));
    assert_eq!(data.total_size(), 0);
}

#[test]
fn data_first_discards_unfinished_message() {
    let mut data = CompleteData::new();
    assert_eq!(data.process_data_first_pdu(6, vec![1, 2]), None);
    assert_eq!(data.process_data_first_pdu(4, vec![3]), None);
    assert_eq!(data.process_data_pdu(vec![4, 5, 6]), Some(vec![3, 4, 5, 6]));
}

#[test]
fn reassembler_invariant_over_a_sequence() {
    let mut data = CompleteData::new();
    let check = |d: &CompleteData| {
        assert!((d.total_size() == 0 && d.buffered_len() == 0) || d.buffered_len() < d.total_size());
    };
    data.process_data_first_pdu(8, vec![1]);
    check(&data);
    data.process_data_pdu(vec![2, 3]);
    check(&data);
    data.process_data_pdu(vec![4; 10]);
    check(&data);
    data.process_data_pdu(vec![5]);
    check(&data);
    data.process_data_first_pdu(2, vec![1, 2]);
    check(&data);
    data.process_data_first_pdu(0, vec![]);
    check(&data);
}

#[test]
fn data_first_longer_than_total_is_dropped() {
    let mut data = CompleteData::new();
    assert_eq!(data.process_data_first_pdu(2, vec![1, 2, 3]), None);
    assert_eq!(data.total_size(), 0);
    assert_eq!(data.buffered_len(), 0);
    assert_eq!(data.process_data_pdu(vec![4]), Some(vec![4]));
}
