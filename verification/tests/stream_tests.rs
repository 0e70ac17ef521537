use heimdallr::stream::RatatoskrSocket;

#[test]
fn one_complete_line_yields_one_record() {
    let mut s = RatatoskrSocket::new();
    let out = s.ingest(b"{\"resource\":\"ram\",\"warning\":0.6,\"icon\":\"\"}\n");
    assert_eq!(out.len(), 1);
    assert_eq!(out[0].resource, b"ram".to_vec());
    assert_eq!(out[0].warning, 600);
    assert_eq!(s.buffered().len(), 0);
}

#[test]
fn split_input_assembles_across_polls() {
    // the same record, split arbitrarily across two reads
    let mut s = RatatoskrSocket::new();
    let out1 = s.ingest(b"{\"resource\":\"ram\"");
    assert_eq!(out1.len(), 0);
    assert!(s.buffered().len() > 0);
    let out2 = s.ingest(b",\"warning\":0.6,\"icon\":\"\"}\n");
    assert_eq!(out2.len(), 1);
    assert_eq!(out2[0].resource, b"ram".to_vec());
    assert_eq!(out2[0].warning, 600);
    assert_eq!(s.buffered().len(), 0);

    // and the result equals the one-shot delivery
    let mut w = RatatoskrSocket::new();
    let whole = w.ingest(b"{\"resource\":\"ram\",\"warning\":0.6,\"icon\":\"\"}\n");
    assert_eq!(whole.len(), 1);
    assert_eq!(whole[0].resource, out2[0].resource);
    assert_eq!(whole[0].warning, out2[0].warning);
}

#[test]
fn several_lines_in_one_read_keep_their_order() {
    let mut s = RatatoskrSocket::new();
    let out = s.ingest(
        b"{\"resource\":\"ram\",\"warning\":0.4,\"icon\":\"\"}\n{\"resource\":\"disk\",\"warning\":0.9,\"icon\":\"\"}\n",
    );
    assert_eq!(out.len(), 2);
    assert_eq!(out[0].resource, b"ram".to_vec());
    assert_eq!(out[1].resource, b"disk".to_vec());
}

#[test]
fn malformed_lines_are_dropped_and_the_stream_continues() {
    let mut s = RatatoskrSocket::new();
    let out = s.ingest(
        b"not json\n{\"resource\":\"ram\",\"warning\":0.4,\"icon\":\"\"}\n",
    );
    assert_eq!(out.len(), 1);
    assert_eq!(out[0].resource, b"ram".to_vec());
}

#[test]
fn blank_lines_are_passed_over() {
    let mut s = RatatoskrSocket::new();
    let out = s.ingest(b"\n   \n\t\n");
    assert_eq!(out.len(), 0);
    assert_eq!(s.buffered().len(), 0);
}

#[test]
fn lines_are_trimmed_before_decoding() {
    let mut s = RatatoskrSocket::new();
    let out = s.ingest(b"  {\"resource\":\"ram\",\"warning\":1,\"icon\":\"\"}  \r\n");
    assert_eq!(out.len(), 1);
    assert_eq!(out[0].warning, 1000);
}

#[test]
fn tail_without_newline_stays_buffered() {
    let mut s = RatatoskrSocket::new();
    let out = s.ingest(b"{\"resource\":\"ram\"");
    assert_eq!(out.len(), 0);
    assert_eq!(s.buffered().as_slice(), b"{\"resource\":\"ram\"");
}

#[test]
fn connectivity_records_carry_the_stream_name() {
    let up = RatatoskrSocket::connect_record();
    assert_eq!(up.resource, b"ratatoskr".to_vec());
    assert_eq!(up.warning, 0);
    let down = RatatoskrSocket::disconnect_record();
    assert_eq!(down.resource, b"ratatoskr".to_vec());
    assert_eq!(down.warning, 1000);
}
