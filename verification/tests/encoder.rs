use drc::video::encoder::{mb_per_chunk, mb_per_frame, EncoderContext, Error};

#[test]
fn macroblock_counts_for_the_configured_frame() {
    assert_eq!(mb_per_frame(864, 480), 54 * 30);
    assert_eq!(mb_per_frame(864, 480), 1620);
    assert_eq!(mb_per_chunk(), 324);
}

#[test]
fn five_chunks_and_idr_from_last_nal() {
    let mut ctx = EncoderContext::new();
    for i in 0..5 {
        let nal_type = if i == 4 { 5 } else { 1 };
        let ref_idc = if i == 4 { 2 } else { 0 };
        ctx.process_nal_unit(nal_type, ref_idc, i * 324, vec![i as u8; 10]).unwrap();
    }
    let (chunks, is_idr) = ctx.finish().unwrap();
    assert_eq!(chunks.len(), 5);
    assert!(is_idr);
    for (i, c) in chunks.iter().enumerate() {
        assert_eq!(c, &vec![i as u8; 10]);
    }
}

#[test]
fn disposable_last_nal_is_not_idr() {
    let mut ctx = EncoderContext::new();
    for i in 0..5 {
        ctx.process_nal_unit(5, 0, i * 324, vec![0; 4]).unwrap();
    }
    let (_, is_idr) = ctx.finish().unwrap();
    assert!(!is_idr);
}

#[test]
fn sei_nals_are_skipped() {
    let mut ctx = EncoderContext::new();
    ctx.process_nal_unit(6, 3, 0, vec![1, 2, 3]).unwrap();
    assert_eq!(ctx.chunks.len(), 0);
    ctx.process_nal_unit(1, 1, 0, vec![9]).unwrap();
    assert_eq!(ctx.chunks.len(), 1);
}

#[test]
fn out_of_order_nal_is_refused() {
    let mut ctx = EncoderContext::new();
    assert_eq!(
        ctx.process_nal_unit(1, 1, 648, vec![1]),
        Err(Error::ChunkIndex { expected: 0, actual: 2 })
    );
}

#[test]
fn wrong_chunk_count_is_refused() {
    let mut ctx = EncoderContext::new();
    for i in 0..4 {
        ctx.process_nal_unit(1, 1, i * 324, vec![0; 4]).unwrap();
    }
    assert_eq!(ctx.finish(), Err(Error::ChunkCount { length: 4 }));
}
