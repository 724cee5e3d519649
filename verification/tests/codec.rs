use nanolog::codec::{decode_buf, emit_record, DecodeError};
use nanolog::logger::{LogReader, Logger, RingBufferLogger};
use nanolog::registry::SiteRegistry;
use nanolog::ring_buf::Spin;

fn demo_registry() -> SiteRegistry {
    let mut reg = SiteRegistry::new();
    // site 0: no arguments; site 1: one integer and one float.
    reg.register("src/a".to_string(), 10, "[T1] hi".to_string(), 0).unwrap();
    reg.register("src/a".to_string(), 20, "a=%d b=%f".to_string(), 2).unwrap();
    reg
}

#[test]
fn single_record_no_args() {
    let reg = demo_registry();
    let mut logger: RingBufferLogger<Spin> = RingBufferLogger::new(64);
    emit_record(&mut logger, 0, 1000, &vec![]);

    let mut v = vec![0u8; 64];
    let n = logger.read(&mut v);
    assert_eq!(n, 16);
    assert_eq!(&v[..8], &0u64.to_le_bytes());
    assert_eq!(&v[8..16], &1000u64.to_le_bytes());

    let records = decode_buf(&reg, &v[..n]).unwrap();
    assert_eq!(records.len(), 1);
    assert_eq!(records[0].site_id, 0);
    assert_eq!(records[0].timestamp, 1000);
    assert!(records[0].fields.is_empty());
}

#[test]
fn two_arguments_round_trip_bit_exact() {
    let reg = demo_registry();
    let mut logger: RingBufferLogger<Spin> = RingBufferLogger::new(64);
    let a: i64 = 7;
    let b: f64 = 2.5;
    emit_record(&mut logger, 1, 2000, &vec![a as u64, b.to_bits()]);

    let mut v = vec![0u8; 64];
    let n = logger.read(&mut v);
    assert_eq!(n, 32);
    assert_eq!(&v[..8], &1u64.to_le_bytes());
    assert_eq!(&v[8..16], &2000u64.to_le_bytes());
    assert_eq!(&v[16..24], &(7i64 as u64).to_le_bytes());
    assert_eq!(&v[24..32], &2.5f64.to_bits().to_le_bytes());

    let records = decode_buf(&reg, &v[..n]).unwrap();
    assert_eq!(records.len(), 1);
    assert_eq!(records[0].site_id, 1);
    assert_eq!(records[0].timestamp, 2000);
    assert_eq!(records[0].fields[0] as i64, 7);
    assert_eq!(f64::from_bits(records[0].fields[1]), 2.5);
}

// Per ring, records come out in the exact order they were committed.
#[test]
fn three_records_decode_in_commit_order() {
    let reg = demo_registry();
    let mut logger: RingBufferLogger<Spin> = RingBufferLogger::new(256);
    emit_record(&mut logger, 0, 1, &vec![]);
    emit_record(&mut logger, 1, 2, &vec![5, 6]);
    emit_record(&mut logger, 0, 3, &vec![]);

    let mut v = vec![0u8; 256];
    let n = logger.read(&mut v);
    assert_eq!(n, 16 + 32 + 16);

    let records = decode_buf(&reg, &v[..n]).unwrap();
    assert_eq!(records.len(), 3);
    assert_eq!((records[0].site_id, records[0].timestamp), (0, 1));
    assert_eq!((records[1].site_id, records[1].timestamp), (1, 2));
    assert_eq!(records[1].fields, vec![5, 6]);
    assert_eq!((records[2].site_id, records[2].timestamp), (0, 3));
}

#[test]
fn unknown_site_id_is_fatal() {
    let reg = demo_registry();
    let mut bytes = Vec::new();
    bytes.extend_from_slice(&99u64.to_le_bytes());
    bytes.extend_from_slice(&1234u64.to_le_bytes());
    assert_eq!(decode_buf(&reg, &bytes), Err(DecodeError::UnknownSiteId { site_id: 99 }));
}

#[test]
fn truncated_stream_is_fatal() {
    let reg = demo_registry();
    // A header cut short.
    let bytes = 0u64.to_le_bytes();
    assert_eq!(decode_buf(&reg, &bytes), Err(DecodeError::Truncated));
    // A full header for site 1, but only one of its two field words.
    let mut bytes = Vec::new();
    bytes.extend_from_slice(&1u64.to_le_bytes());
    bytes.extend_from_slice(&1234u64.to_le_bytes());
    bytes.extend_from_slice(&7u64.to_le_bytes());
    assert_eq!(decode_buf(&reg, &bytes), Err(DecodeError::Truncated));
}

#[test]
fn empty_stream_decodes_to_nothing() {
    let reg = demo_registry();
    let bytes: Vec<u8> = Vec::new();
    assert!(decode_buf(&reg, &bytes).unwrap().is_empty());
}
