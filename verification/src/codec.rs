//! Record encoding and decoding.
//!
//! On the wire a record is a 16-byte header — the site identifier and the
//! timestamp, each 8 bytes little-endian — followed by one 8-byte word per
//! placeholder, in order (a float argument travels as its bit pattern).
//! The producer side stages those bytes through a `Logger` and publishes
//! them with a single commit; the consumer side walks a drained buffer,
//! dispatching on the site identifier against the registry.  The round-trip
//! law at the end ties the two directions together.

use crate::logger::Logger;
use crate::registry::{LogSite, SiteRegistry};
use vstd::bytes::{
    lemma_auto_spec_u64_to_from_le_bytes, spec_u64_from_le_bytes, spec_u64_to_le_bytes,
    u64_from_le_bytes, u64_to_le_bytes,
};
use vstd::prelude::*;
use vstd::slice::slice_subrange;

verus! {

/// The bytes of a field list: each 64-bit word in order, little-endian.
pub open spec fn fields_bytes(fields: Seq<u64>) -> Seq<u8>
    decreases fields.len(),
{
    if fields.len() == 0 {
        Seq::<u8>::empty()
    } else {
        fields_bytes(fields.drop_last()) + spec_u64_to_le_bytes(fields.last())
    }
}

/// A field list occupies exactly eight bytes per word.
pub proof fn lemma_fields_bytes_len(fields: Seq<u64>)
    ensures
        fields_bytes(fields).len() == 8 * fields.len(),
    decreases fields.len(),
{
    lemma_auto_spec_u64_to_from_le_bytes();
    if fields.len() > 0 {
        lemma_fields_bytes_len(fields.drop_last());
    }
}

/// The field list denoted by a byte sequence: consecutive 8-byte words,
/// little-endian (meaningful when the length is a multiple of eight).
pub open spec fn spec_fields(bytes: Seq<u8>) -> Seq<u64>
    decreases bytes.len(),
{
    if bytes.len() < 8 {
        Seq::<u64>::empty()
    } else {
        spec_fields(bytes.subrange(0, bytes.len() - 8)).push(
            spec_u64_from_le_bytes(bytes.subrange(bytes.len() - 8, bytes.len() as int)),
        )
    }
}

/// Field words round-trip bit-exactly through their bytes.
pub proof fn lemma_fields_round_trip(fields: Seq<u64>)
    ensures
        spec_fields(fields_bytes(fields)) == fields,
    decreases fields.len(),
{
    lemma_auto_spec_u64_to_from_le_bytes();
    if fields.len() == 0 {
        assert(spec_fields(fields_bytes(fields)) =~= fields);
    } else {
        lemma_fields_round_trip(fields.drop_last());
        lemma_fields_bytes_len(fields.drop_last());
        let b = fields_bytes(fields);
        assert(b.subrange(0, b.len() - 8) =~= fields_bytes(fields.drop_last()));
        assert(b.subrange(b.len() - 8, b.len() as int) =~= spec_u64_to_le_bytes(fields.last()));
        assert(spec_fields(b) =~= fields);
    }
}

/// The on-wire bytes of one record: site identifier and timestamp, 8 bytes
/// little-endian each, then the field words.
pub open spec fn record_bytes(site_id: u64, timestamp: u64, fields: Seq<u64>) -> Seq<u8> {
    spec_u64_to_le_bytes(site_id) + spec_u64_to_le_bytes(timestamp) + fields_bytes(fields)
}

/// Size law: every record is exactly its 16-byte header plus eight bytes
/// per field, so the size a site writes is a constant of the site alone.
pub proof fn lemma_record_bytes_len(site_id: u64, timestamp: u64, fields: Seq<u64>)
    ensures
        record_bytes(site_id, timestamp, fields).len() == 16 + 8 * fields.len(),
{
    lemma_auto_spec_u64_to_from_le_bytes();
    lemma_fields_bytes_len(fields);
}

/// A record in the model: identifier, timestamp, and field words.
pub struct SpecRecord {
    pub site_id: u64,
    pub timestamp: u64,
    pub fields: Seq<u64>,
}

/// A decoded record: the site identifier, the timestamp it was emitted
/// with, and the argument words in order (a float argument appears as its
/// bit pattern).
#[derive(PartialEq, Eq, Debug)]
pub struct DecodedRecord {
    pub site_id: u64,
    pub timestamp: u64,
    pub fields: Vec<u64>,
}

impl View for DecodedRecord {
    type V = SpecRecord;

    open spec fn view(&self) -> SpecRecord {
        SpecRecord { site_id: self.site_id, timestamp: self.timestamp, fields: self.fields@ }
    }
}

/// Why a drained byte stream failed to decode.
#[derive(Clone, Copy, PartialEq, Eq, Structural, Debug)]
pub enum DecodeError {
    /// The stream names a site the registry does not know: the build that
    /// wrote the stream does not match, or the stream is corrupt.
    UnknownSiteId { site_id: u64 },
    /// The stream ends in the middle of a record.
    Truncated,
}

/// A record is valid against a site list when its site is known and it
/// carries one field word per placeholder.
pub open spec fn record_ok(sites: Seq<LogSite>, r: SpecRecord) -> bool {
    &&& r.site_id < sites.len()
    &&& r.fields.len() == sites[r.site_id as int].placeholders@.len()
}

/// The record sequence denoted by a byte stream, against a site list;
/// `Err` mirrors the decoder's failure on the same stream.
pub open spec fn spec_decode(sites: Seq<LogSite>, bytes: Seq<u8>) -> Result<
    Seq<SpecRecord>,
    DecodeError,
>
    decreases bytes.len(),
{
    if bytes.len() == 0 {
        Ok(Seq::<SpecRecord>::empty())
    } else if bytes.len() < 16 {
        Err(DecodeError::Truncated)
    } else {
        let site_id = spec_u64_from_le_bytes(bytes.subrange(0, 8));
        if site_id >= sites.len() {
            Err(DecodeError::UnknownSiteId { site_id })
        } else {
            let timestamp = spec_u64_from_le_bytes(bytes.subrange(8, 16));
            let sz: int = 8 * sites[site_id as int].placeholders@.len() as int;
            if bytes.len() < 16 + sz {
                Err(DecodeError::Truncated)
            } else {
                match spec_decode(sites, bytes.skip(16 + sz)) {
                    Ok(rest) => Ok(
                        seq![
                            SpecRecord {
                                site_id,
                                timestamp,
                                fields: spec_fields(bytes.subrange(16, 16 + sz)),
                            },
                        ] + rest,
                    ),
                    Err(e) => Err(e),
                }
            }
        }
    }
}

/// Emit one record through a producer endpoint: the site identifier, the
/// timestamp, then each field word, all little-endian, closed by a single
/// commit — so the consumer sees the whole record or none of it.
pub fn emit_record<L: Logger>(logger: &mut L, site_id: u64, timestamp: u64, fields: &Vec<u64>)
    requires
        old(logger).wf(),
        old(logger).can_write((16 + 8 * fields@.len()) as nat),
    ensures
        final(logger).wf(),
        final(logger).committed() == old(logger).committed() + old(logger).staged()
            + record_bytes(site_id, timestamp, fields@),
        final(logger).staged() == Seq::<u8>::empty(),
{
    proof {
        let n = fields@.len();
        logger.can_write_mono(8, (16 + 8 * n) as nat);
    }
    let ghost staged0 = logger.staged();
    let ghost committed0 = logger.committed();
    let ghost n = fields@.len();
    let id_bytes = u64_to_le_bytes(site_id);
    logger.write(id_bytes.as_slice());
    proof {
        assert(logger.can_write((8 + 8 * n) as nat));
        logger.can_write_mono(8, (8 + 8 * n) as nat);
    }
    let ts_bytes = u64_to_le_bytes(timestamp);
    logger.write(ts_bytes.as_slice());
    proof {
        assert(logger.can_write((8 * n) as nat));
        assert(fields@.subrange(0, 0) =~= Seq::<u64>::empty());
        assert(logger.staged() =~= staged0 + spec_u64_to_le_bytes(site_id) + spec_u64_to_le_bytes(
            timestamp,
        ) + fields_bytes(fields@.subrange(0, 0)));
    }
    let mut k: usize = 0;
    while k < fields.len()
        invariant
            logger.wf(),
            0 <= k <= n,
            n == fields@.len(),
            logger.can_write((8 * (n - k)) as nat),
            logger.committed() == committed0,
            logger.staged() == staged0 + spec_u64_to_le_bytes(site_id) + spec_u64_to_le_bytes(
                timestamp,
            ) + fields_bytes(fields@.subrange(0, k as int)),
        decreases n - k,
    {
        proof {
            logger.can_write_mono(8, (8 * (n - k)) as nat);
        }
        let word_bytes = u64_to_le_bytes(fields[k]);
        let ghost staged_before = logger.staged();
        logger.write(word_bytes.as_slice());
        k = k + 1;
        proof {
            assert(logger.can_write((8 * (n - k)) as nat)) by {
                assert((8 + 8 * (n - k)) as nat == (8 * (n - (k - 1))) as nat);
            }
            let prefix = fields@.subrange(0, k as int);
            assert(prefix.drop_last() =~= fields@.subrange(0, k - 1));
            assert(logger.staged() =~= staged0 + spec_u64_to_le_bytes(site_id)
                + spec_u64_to_le_bytes(timestamp) + fields_bytes(prefix));
        }
    }
    proof {
        assert(fields@.subrange(0, n as int) =~= fields@);
    }
    logger.commit_write();
    proof {
        assert(logger.committed() =~= committed0 + staged0 + record_bytes(
            site_id,
            timestamp,
            fields@,
        ));
    }
}

/// Decode a drained byte stream against the registry.  Yields the records
/// in stream order, or the first failure: an identifier no site carries, or
/// a stream that ends inside a record.  Both are fatal for the consumer —
/// they mean a mismatched build or corruption — and the caller aborts.
pub fn decode_buf(registry: &SiteRegistry, buf: &[u8]) -> (r: Result<Vec<DecodedRecord>, DecodeError>)
    requires
        registry.wf(),
    ensures
        r matches Ok(v) ==> spec_decode(registry.sites@, buf@) == Ok::<
            Seq<SpecRecord>,
            DecodeError,
        >(v@.map_values(|d: DecodedRecord| d@)),
        r matches Err(e) ==> spec_decode(registry.sites@, buf@) == Result::<
            Seq<SpecRecord>,
            DecodeError,
        >::Err(e),
{
    let ghost sites = registry.sites@;
    let mut out: Vec<DecodedRecord> = Vec::new();
    let mut consumed: usize = 0;
    proof {
        assert(buf@.skip(0) =~= buf@);
        if spec_decode(sites, buf@) is Ok {
            let rest = spec_decode(sites, buf@)->Ok_0;
            assert(out@.map_values(|d: DecodedRecord| d@) + rest =~= rest);
        }
    }
    while consumed < buf.len()
        invariant
            registry.wf(),
            sites == registry.sites@,
            0 <= consumed <= buf@.len(),
            spec_decode(sites, buf@) == (match spec_decode(sites, buf@.skip(consumed as int)) {
                Ok(rest) => Ok(out@.map_values(|d: DecodedRecord| d@) + rest),
                Err(e) => Err::<Seq<SpecRecord>, DecodeError>(e),
            }),
        decreases buf@.len() - consumed,
    {
        let ghost tail0 = buf@.skip(consumed as int);
        let remaining = buf.len() - consumed;
        if remaining < 16 {
            return Err(DecodeError::Truncated);
        }
        let id_slice = slice_subrange(buf, consumed, consumed + 8);
        proof {
            assert(id_slice@ =~= tail0.subrange(0, 8));
        }
        let site_id = u64_from_le_bytes(id_slice);
        let count = match registry.placeholder_count(site_id) {
            None => {
                return Err(DecodeError::UnknownSiteId { site_id });
            },
            Some(c) => c,
        };
        proof {
            assert(sites[site_id as int].wf());
        }
        let sz = 8 * count;
        if remaining - 16 < sz {
            return Err(DecodeError::Truncated);
        }
        let ts_slice = slice_subrange(buf, consumed + 8, consumed + 16);
        proof {
            assert(ts_slice@ =~= tail0.subrange(8, 16));
        }
        let timestamp = u64_from_le_bytes(ts_slice);
        let mut fields: Vec<u64> = Vec::new();
        let mut k: usize = 0;
        proof {
            assert(buf@.subrange(consumed + 16, consumed + 16) =~= Seq::<u8>::empty());
        }
        while k < count
            invariant
                0 <= k <= count,
                consumed + 16 + 8 * count <= buf@.len(),
                buf@.len() <= usize::MAX,
                fields@.len() == k,
                fields@ == spec_fields(buf@.subrange(consumed + 16, consumed + 16 + 8 * k)),
            decreases count - k,
        {
            let f_slice = slice_subrange(buf, consumed + 16 + 8 * k, consumed + 16 + 8 * k + 8);
            let word = u64_from_le_bytes(f_slice);
            proof {
                let s1 = buf@.subrange(consumed + 16, consumed + 16 + 8 * (k + 1));
                assert(s1.subrange(0, s1.len() - 8) =~= buf@.subrange(
                    consumed + 16,
                    consumed + 16 + 8 * k,
                ));
                assert(s1.subrange(s1.len() - 8, s1.len() as int) =~= f_slice@);
            }
            fields.push(word);
            k = k + 1;
        }
        let ghost out_before = out@;
        proof {
            assert(buf@.subrange(consumed + 16, consumed + 16 + sz) =~= tail0.subrange(
                16,
                16 + sz,
            ));
            assert(tail0.skip(16 + sz) =~= buf@.skip(consumed + 16 + sz));
        }
        out.push(DecodedRecord { site_id, timestamp, fields });
        consumed = consumed + 16 + sz;
        proof {
            let f = |d: DecodedRecord| d@;
            let rec = SpecRecord {
                site_id,
                timestamp,
                fields: spec_fields(tail0.subrange(16, 16 + sz)),
            };
            assert(out@.map_values(f) =~= out_before.map_values(f).push(rec));
            if spec_decode(sites, buf@.skip(consumed as int)) is Ok {
                let rest = spec_decode(sites, buf@.skip(consumed as int))->Ok_0;
                assert(out_before.map_values(f) + (seq![rec] + rest) =~= out@.map_values(f)
                    + rest);
            }
        }
    }
    proof {
        assert(buf@.skip(consumed as int) =~= Seq::<u8>::empty());
        assert(out@.map_values(|d: DecodedRecord| d@) + Seq::<SpecRecord>::empty()
            =~= out@.map_values(|d: DecodedRecord| d@));
    }
    Ok(out)
}

/// The bytes of a record sequence, in emission order.
pub open spec fn records_bytes(records: Seq<SpecRecord>) -> Seq<u8>
    decreases records.len(),
{
    if records.len() == 0 {
        Seq::<u8>::empty()
    } else {
        record_bytes(records[0].site_id, records[0].timestamp, records[0].fields)
            + records_bytes(records.drop_first())
    }
}

/// Emission order law: records emitted one after another put their bytes on
/// the stream one after another — the byte stream of two record sequences
/// in order is the bytes of the first followed by the bytes of the second,
/// so a single producer's commits reach the consumer in issue order.
pub proof fn lemma_records_bytes_append(rs1: Seq<SpecRecord>, rs2: Seq<SpecRecord>)
    ensures
        records_bytes(rs1 + rs2) == records_bytes(rs1) + records_bytes(rs2),
    decreases rs1.len(),
{
    if rs1.len() == 0 {
        assert(rs1 + rs2 =~= rs2);
        assert(records_bytes(rs1) + records_bytes(rs2) =~= records_bytes(rs2));
    } else {
        assert((rs1 + rs2).drop_first() =~= rs1.drop_first() + rs2);
        lemma_records_bytes_append(rs1.drop_first(), rs2);
        assert((rs1 + rs2)[0] == rs1[0]);
        assert(record_bytes(rs1[0].site_id, rs1[0].timestamp, rs1[0].fields) + (records_bytes(
            rs1.drop_first(),
        ) + records_bytes(rs2)) =~= records_bytes(rs1) + records_bytes(rs2));
    }
}

/// Round-trip law: for any sequence of valid records, decoding the
/// concatenation of their bytes against the same site list yields exactly
/// that sequence, in order, every field word bit-exact.
pub proof fn lemma_round_trip(sites: Seq<LogSite>, records: Seq<SpecRecord>)
    requires
        forall|i: int| 0 <= i < records.len() ==> record_ok(sites, #[trigger] records[i]),
    ensures
        spec_decode(sites, records_bytes(records)) == Ok::<Seq<SpecRecord>, DecodeError>(records),
    decreases records.len(),
{
    lemma_auto_spec_u64_to_from_le_bytes();
    if records.len() == 0 {
        assert(Seq::<SpecRecord>::empty() =~= records);
    } else {
        let r0 = records[0];
        assert(record_ok(sites, r0));
        let rest = records.drop_first();
        assert forall|i: int| 0 <= i < rest.len() implies record_ok(sites, #[trigger] rest[i]) by {
            assert(rest[i] == records[i + 1]);
        }
        lemma_round_trip(sites, rest);
        let rb = record_bytes(r0.site_id, r0.timestamp, r0.fields);
        let tailb = records_bytes(rest);
        let b = records_bytes(records);
        lemma_record_bytes_len(r0.site_id, r0.timestamp, r0.fields);
        lemma_fields_bytes_len(r0.fields);
        let sz: int = 8 * sites[r0.site_id as int].placeholders@.len() as int;
        assert(b.subrange(0, 8) =~= spec_u64_to_le_bytes(r0.site_id));
        assert(b.subrange(8, 16) =~= spec_u64_to_le_bytes(r0.timestamp));
        assert(b.subrange(16, 16 + sz) =~= fields_bytes(r0.fields));
        lemma_fields_round_trip(r0.fields);
        assert(b.skip(16 + sz) =~= tailb);
        assert(seq![
            SpecRecord {
                site_id: r0.site_id,
                timestamp: r0.timestamp,
                fields: spec_fields(b.subrange(16, 16 + sz)),
            },
        ] + rest =~= records);
    }
}

} // verus!
