//! The root utilities: wire codecs, address handling, buffers, the
//! command directories and the share tables.
use avss_bench::crypto::{Proof, Share};
use avss_bench::node::ShareSet;
use avss_bench::{
    extract_ip, extract_port, read_ip_vec, read_vec, read_vec_u16, trim_buf, write_bytes,
    write_vec, ByzComp, CommandCode, ErrorCode, InterfaceCode,
};

#[test]
fn trimming_strips_only_trailing_zeroes() {
    assert_eq!(trim_buf(&[1, 0, 2, 0, 0]), &[1, 0, 2]);
    assert_eq!(trim_buf(&[0, 0, 0]), &[] as &[u8]);
    assert_eq!(trim_buf(&[]), &[] as &[u8]);
    assert_eq!(trim_buf(&[7]), &[7]);
}

#[test]
fn addresses_split_into_ip_and_port() {
    assert_eq!(extract_port("127.0.0.1:18800"), 18800);
    assert_eq!(extract_ip("127.0.0.1:18800"), "127.0.0.1");
    assert_eq!(extract_ip("localhost"), "localhost");
}

#[test]
fn length_prefixed_writes_read_back() {
    let mut buf = vec![0u8; 64];
    let written = write_bytes(&mut buf, 3, &[9, 8, 7]);
    assert_eq!(written, 7);
    assert_eq!(&buf[3..7], &[3, 0, 0, 0]);
    assert_eq!(&buf[7..10], &[9, 8, 7]);
    let (consumed, data) = read_vec(&buf[3..]);
    assert_eq!(consumed, 7);
    assert_eq!(data, vec![9, 8, 7]);
}

#[test]
fn growable_writes_extend_the_buffer() {
    let mut buf: Vec<u8> = Vec::new();
    let written = write_vec(&mut buf, 0, &[1, 2, 3, 4, 5]);
    assert_eq!(written, 9);
    assert!(buf.len() >= 9);
    assert_eq!(&buf[0..4], &[5, 0, 0, 0]);
    assert_eq!(&buf[4..9], &[1, 2, 3, 4, 5]);
}

#[test]
fn u16_arrays_read_back_in_order() {
    let mut buf = vec![0u8; 32];
    buf[0] = 2;
    // Two u16 values, 0x0102 and 0xfffe, little-endian.
    buf[4] = 0x02;
    buf[5] = 0x01;
    buf[6] = 0xfe;
    buf[7] = 0xff;
    let (consumed, vals) = read_vec_u16(&buf);
    assert_eq!(consumed, 8);
    assert_eq!(vals, vec![0x0102, 0xfffe]);
}

#[test]
fn address_lists_read_back() {
    let mut buf: Vec<u8> = Vec::new();
    buf.extend_from_slice(&2u16.to_le_bytes());
    for addr in ["127.0.0.1:9000", "127.0.0.1:9001"] {
        buf.push(addr.len() as u8);
        buf.extend_from_slice(addr.as_bytes());
    }
    let (addrs, consumed) = read_ip_vec(&buf).expect("the list must parse");
    assert_eq!(consumed, buf.len());
    assert_eq!(addrs, vec!["127.0.0.1:9000", "127.0.0.1:9001"]);
    // A truncated list is refused rather than misread.
    assert!(read_ip_vec(&buf[..buf.len() - 1]).is_none());
}

#[test]
fn command_bytes_round_trip() {
    for v in 0u8..9 {
        assert_eq!(CommandCode::from_u8(v).unwrap().to_u8(), v);
    }
    assert!(CommandCode::from_u8(9).is_none());
    for v in 0u8..4 {
        assert_eq!(InterfaceCode::from_u8(v).unwrap().to_u8(), v);
    }
    for v in 0u8..5 {
        assert_eq!(ErrorCode::from_u8(v).unwrap().to_u8(), v);
    }
    assert_eq!(ByzComp::Sleeper.to_u16(), 1);
    assert_eq!(ByzComp::Honnest.to_u16(), 0);
}

#[test]
fn share_tables_store_and_overwrite_by_index() {
    let mut set = ShareSet::new();
    assert_eq!(set.len(), 0);
    assert!(!set.contains(3));
    let share = |b: u8| Share { bytes: vec![b] };
    let proof = |b: u8| Proof { bytes: vec![b] };
    set.new_share(3, share(1), proof(2));
    assert_eq!(set.len(), 1);
    assert!(set.contains(3) && !set.contains(0));
    set.new_share(0, share(5), proof(6));
    assert_eq!(set.len(), 2);
    assert_eq!(set.get(0).0.bytes, vec![5]);
    set.new_share(0, share(9), proof(9));
    assert_eq!(set.len(), 2, "overwriting adds no entry");
    assert_eq!(set.get(0).0.bytes, vec![9]);
    set.clear();
    assert_eq!(set.len(), 0);
}
