use arrow::array::Int64Array;
use arrow::buffer::Buffer;
use arrow::datatypes::{DataType, Field, Schema};
use arrow::ipc::reader::StreamDecoder;
use arrow::ipc::writer::StreamWriter;
use arrow::record_batch::RecordBatch;
use flate2::write::{GzDecoder, GzEncoder};
use flate2::Compression;
use snowflake::clock::{epoch_millis, epoch_seconds, whole_millis, whole_seconds, Elapsed};
use snowflake::decode::{ArrowDecoding, DecodeStep};
use std::io::Write;
use std::sync::Arc;

fn ipc_stream() -> Vec<u8> {
    let schema = Arc::new(Schema::new(vec![Field::new("value", DataType::Int64, false)]));
    let mut ipc = Vec::new();
    let mut writer = StreamWriter::try_new(&mut ipc, &schema).unwrap();
    for values in [vec![1, 2], vec![3, 4]] {
        let column = Arc::new(Int64Array::from(values));
        writer.write(&RecordBatch::try_new(schema.clone(), vec![column]).unwrap()).unwrap();
    }
    writer.finish().unwrap();
    drop(writer);
    ipc
}

fn values(batch: &RecordBatch) -> Vec<i64> {
    batch.column(0).as_any().downcast_ref::<Int64Array>().unwrap().values().to_vec()
}

fn decode_pieces(pieces: &[&[u8]]) -> Vec<Vec<i64>> {
    let mut decoder = StreamDecoder::new();
    let mut decoding = ArrowDecoding::new();
    let mut pieces = pieces.iter();
    let mut buffer = Buffer::from(Vec::<u8>::new());
    let mut rows = Vec::new();
    loop {
        match decoding.step() {
            DecodeStep::Read => {
                let piece = pieces.next().copied().unwrap_or_default();
                buffer = Buffer::from(piece.to_vec());
                decoding.note_read(buffer.len());
            }
            DecodeStep::Decode => {
                if let Some(batch) = decoder.decode(&mut buffer).unwrap() {
                    rows.push(values(&batch));
                }
                decoding.note_decode(buffer.len());
            }
            DecodeStep::Finish => {
                decoder.finish().unwrap();
                return rows;
            }
        }
    }
}

#[test]
fn decodes_a_stream_in_pieces_of_any_size() {
    let ipc = ipc_stream();
    for size in [1, 7, 64, ipc.len()] {
        let pieces: Vec<&[u8]> = ipc.chunks(size).collect();
        assert_eq!(decode_pieces(&pieces), [vec![1, 2], vec![3, 4]]);
    }
}

#[test]
fn decodes_batches_before_the_gzip_trailer() {
    let mut encoder = GzEncoder::new(Vec::new(), Compression::default());
    encoder.write_all(&ipc_stream()).unwrap();
    let gzip = encoder.finish().unwrap();
    let mut inflated = GzDecoder::new(Vec::new());
    inflated.write_all(&gzip[..gzip.len() - 8]).unwrap();
    inflated.flush().unwrap();
    assert_eq!(decode_pieces(&[inflated.get_ref()]), [vec![1, 2], vec![3, 4]]);
}

#[test]
fn reads_decodes_and_finishes_in_turn() {
    let mut decoding = ArrowDecoding::new();
    assert!(matches!(decoding.step(), DecodeStep::Read));
    decoding.note_read(5);
    assert!(matches!(decoding.step(), DecodeStep::Decode));
    decoding.note_decode(5);
    assert!(matches!(decoding.step(), DecodeStep::Decode));
    decoding.note_decode(0);
    assert!(matches!(decoding.step(), DecodeStep::Read));
    decoding.note_read(0);
    assert!(matches!(decoding.step(), DecodeStep::Finish));
}

#[test]
fn spans_are_counted_in_seconds_and_milliseconds() {
    let span = Some(Elapsed { seconds: 12, nanos: 345_999_999 });
    assert_eq!(whole_seconds(span), 12);
    assert_eq!(whole_millis(span), 12_345);
    assert_eq!(whole_seconds(None), 0);
    assert_eq!(whole_millis(None), 0);
    let longest = Some(Elapsed { seconds: u64::MAX, nanos: 999_999_999 });
    assert_eq!(whole_millis(longest), u64::MAX as u128 * 1000 + 999);
    assert_eq!(whole_millis(longest) / 1000, u64::MAX as u128);
}

#[test]
fn the_clock_agrees_with_the_system() {
    let now = std::time::SystemTime::now()
        .duration_since(std::time::UNIX_EPOCH)
        .unwrap();
    let seconds = epoch_seconds();
    let millis = epoch_millis();
    assert!(now.as_secs() <= seconds && seconds <= now.as_secs() + 60);
    assert!(now.as_millis() <= millis && millis <= now.as_millis() + 60_000);
}

#[test]
fn readings_are_in_order() {
    let before = epoch_seconds();
    let millis = epoch_millis();
    let after = epoch_seconds();
    assert!(before as u128 <= millis / 1000);
    assert!(millis / 1000 <= after as u128);
}

#[test]
fn a_stream_without_bytes_has_no_batches() {
    assert!(decode_pieces(&[]).is_empty());
}
