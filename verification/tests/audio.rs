use meshconf::audio::{decoder_input, ChunkAccumulator, CHUNK_SIZE};
use meshconf::audio_mixer::MixQueues;
use meshconf::jitter::plc_sentinel;
use meshconf::pool::SharedBuf;
use meshconf::protocol::MediaObject;
use meshconf::room::PeerId;

fn peer(n: u8) -> PeerId {
    PeerId::from_bytes([n; 32])
}

#[test]
fn samples_are_cut_into_chunks() {
    let samples: Vec<f32> = (0..3000).map(|i| i as f32).collect();
    let mut accum = ChunkAccumulator::new();
    let mut out: Vec<f32> = Vec::new();
    let mut count = 0;
    // In portions of 500.
    for portion in samples.chunks(500) {
        for chunk in accum.extend(portion) {
            assert_eq!(chunk.len(), CHUNK_SIZE);
            out.extend_from_slice(&chunk);
            count += 1;
        }
    }
    assert_eq!(count, 3);
    assert_eq!(&out[..], &samples[..2880]);
    // At once.
    let mut accum = ChunkAccumulator::new();
    let chunks = accum.extend(&samples);
    assert_eq!(chunks.len(), 3);
    assert_eq!(chunks[2].as_slice(), &samples[1920..2880]);
    // What is left comes first next time.
    let chunks = accum.extend(&[7.0; 840]);
    assert_eq!(chunks.len(), 1);
    assert_eq!(&chunks[0][..120], &samples[2880..]);
    assert_eq!(chunks[0][120], 7.0);
}

#[test]
fn lost_packets_are_concealed() {
    assert!(decoder_input(&plc_sentinel()).is_empty());
    let mut obj = MediaObject {
        group_id: 0,
        subgroup_id: 0,
        object_id: 0,
        capture_timestamp_us: 5,
        codec: None,
        payload: SharedBuf::from_vec(vec![1, 2, 3]),
    };
    assert_eq!(decoder_input(&obj), &[1, 2, 3]);
    obj.capture_timestamp_us = u64::MAX;
    assert!(decoder_input(&obj).is_empty());
}

#[test]
fn nothing_is_mixed_before_a_chunk_is_there() {
    let mut queues = MixQueues::new();
    assert!(queues.take_mix().is_none());
    queues.extend(peer(1), &[1i16; 900]);
    queues.extend(peer(2), &[2i16; 100]);
    assert!(queues.take_mix().is_none());
    queues.extend(peer(1), &[3i16; 100]);
    let parts = queues.take_mix().unwrap();
    assert_eq!(parts.len(), 2);
    // A whole chunk of one, what there is of the other.
    assert_eq!(parts[0].len(), 960);
    assert_eq!((parts[0][899], parts[0][900]), (1, 3));
    assert_eq!(parts[1], vec![2; 100]);
    // The rest waits.
    assert!(queues.take_mix().is_none());
    queues.extend(peer(2), &[4i16; 960]);
    let parts = queues.take_mix().unwrap();
    assert_eq!(parts[0], vec![3; 40]);
    assert_eq!(parts[1], vec![4; 960]);
}
