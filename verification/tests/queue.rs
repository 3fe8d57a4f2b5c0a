use rapidlog::config::MAX_BLOCK_CAPACITY;
use rapidlog::queue::{create_queue, parse_frame, PushError};

#[test]
fn push_and_pop_single_message() {
    let (mut prod, mut cons) = create_queue(1024);
    let payload = b"hello world";
    assert!(prod.push(payload).is_ok());
    assert!(!cons.is_empty());
    let msg = cons.pop().unwrap();
    assert_eq!(msg, payload);
    assert!(cons.is_empty());
}

#[test]
fn push_and_pop_multiple_messages() {
    let (mut prod, mut cons) = create_queue(1024);
    for i in 0..10 {
        let payload = format!("msg{}", i);
        assert!(prod.push(payload.as_bytes()).is_ok());
    }
    let msgs = cons.pop_all();
    assert_eq!(msgs.len(), 10);
    for (i, msg) in msgs.iter().enumerate() {
        assert_eq!(msg, format!("msg{}", i).as_bytes());
    }
}

#[test]
fn push_full_queue() {
    let (mut prod, mut cons) = create_queue(64);
    let payload = vec![0u8; 100];
    assert_eq!(prod.push(&payload), Err(PushError::Full));
    assert!(cons.is_empty());
}

#[test]
fn pop_empty_queue() {
    let (_prod, mut cons) = create_queue(1024);
    assert!(cons.pop().is_none());
    assert!(cons.is_empty());
}

#[test]
fn pop_all_on_empty_queue() {
    let (_prod, mut cons) = create_queue(1024);
    let msgs = cons.pop_all();
    assert!(msgs.is_empty());
}

#[test]
fn mixed_small_and_large_messages() {
    let (mut prod, mut cons) = create_queue(8192);
    let small = b"x";
    let large = vec![42u8; 1000];
    assert!(prod.push(small).is_ok());
    assert!(prod.push(&large).is_ok());
    assert!(prod.push(small).is_ok());
    let msgs = cons.pop_all();
    assert_eq!(msgs.len(), 3);
    assert_eq!(msgs[0], small);
    assert_eq!(msgs[1], large);
    assert_eq!(msgs[2], small);
}

#[test]
fn empty_message_roundtrip() {
    let (mut prod, mut cons) = create_queue(1024);
    let empty: &[u8] = &[];
    assert!(prod.push(empty).is_ok());
    let msg = cons.pop().unwrap();
    assert!(msg.is_empty());
}

#[test]
fn abandoned_detection() {
    let (prod, mut cons) = create_queue(1024);
    assert!(!cons.is_abandoned());
    drop(prod);
    assert!(cons.is_abandoned());
}

#[test]
fn capacity_returns_correct_value() {
    let (prod, _cons) = create_queue(256);
    assert_eq!(prod.capacity(), 256);
    let (prod, _cons) = create_queue(1024);
    assert_eq!(prod.capacity(), 1024);
}

#[test]
fn grow_doubles_capacity() {
    let (mut prod, _cons) = create_queue(256);
    assert_eq!(prod.capacity(), 256);
    let mut new_cons = prod.grow().unwrap();
    assert_eq!(prod.capacity(), 512);
    assert!(!new_cons.is_abandoned());
}

#[test]
fn grow_respects_max_and_returns_none() {
    let max = MAX_BLOCK_CAPACITY;
    let (mut prod, _cons) = create_queue(max);
    assert!(prod.grow().is_none());
    assert_eq!(prod.capacity(), max);
}

#[test]
fn frame_is_padded_to_cache_lines() {
    let (mut prod, mut cons) = create_queue(128);
    // 8 + 56 = 64 bytes: exactly one line; two such frames fill the block.
    assert!(prod.push(&[1u8; 56]).is_ok());
    assert!(prod.push(&[2u8; 56]).is_ok());
    assert_eq!(prod.push(&[3u8; 1]), Err(PushError::Full));
    assert_eq!(cons.pop().unwrap(), vec![1u8; 56]);
    assert!(prod.push(&[3u8; 1]).is_ok());
    assert_eq!(cons.pop_all(), vec![vec![2u8; 56], vec![3u8; 1]]);
}

#[test]
fn grow_from_zero_capacity_is_refused() {
    let (mut prod, _cons) = create_queue(0);
    assert!(prod.grow().is_none());
    assert_eq!(prod.push(&[]), Err(PushError::Full));
}

#[test]
fn push_encoded_writes_the_payload() {
    let (mut prod, mut cons) = create_queue(256);
    let mut encode = |buf: &mut [u8]| {
        for (i, b) in buf.iter_mut().enumerate() {
            *b = i as u8;
        }
        buf.len()
    };
    assert_eq!(prod.push_encoded(5, &mut encode), Ok(5));
    assert_eq!(cons.pop().unwrap(), vec![0u8, 1, 2, 3, 4]);
    let mut calls = 0;
    let mut never = |_: &mut [u8]| {
        calls += 1;
    };
    assert_eq!(prod.push_encoded(300, &mut never), Err(PushError::Full));
    assert_eq!(calls, 0);
}

#[test]
fn parse_frame_reads_split_frames() {
    let mut frame = vec![3u8, 0, 0, 0, 0, 0, 0, 0, 7, 8, 9];
    frame.resize(64, 0);
    assert_eq!(parse_frame(&frame[..10], &frame[10..]), Some((vec![7u8, 8, 9], 64)));
    assert_eq!(parse_frame(&frame[..5], &frame[5..]), None);
    assert_eq!(parse_frame(&frame[..40], &[]), None);
}

#[test]
fn old_block_is_abandoned_after_grow() {
    let (mut prod, mut old_cons) = create_queue(256);
    assert!(prod.push(b"before").is_ok());
    let mut new_cons = prod.grow().unwrap();
    assert!(old_cons.is_abandoned());
    assert!(old_cons.is_abandoned());
    assert_eq!(old_cons.pop().unwrap(), b"before");
    assert!(old_cons.is_empty());
    assert!(prod.push(b"after").is_ok());
    assert!(!new_cons.is_abandoned());
    assert_eq!(new_cons.pop().unwrap(), b"after");
}

#[test]
fn pops_return_pushes_in_order_when_interleaved() {
    let (mut prod, mut cons) = create_queue(256);
    let msgs: Vec<Vec<u8>> = (0..20u8).map(|i| vec![i; (i as usize) * 7]).collect();
    let mut popped: Vec<Vec<u8>> = Vec::new();
    for m in &msgs {
        while prod.push(m).is_err() {
            popped.push(cons.pop().unwrap());
        }
        if m.len() % 3 == 0 {
            popped.extend(cons.pop_all());
        }
    }
    popped.extend(cons.pop_all());
    assert_eq!(popped, msgs);
    assert!(cons.is_empty());
}

#[test]
fn successful_push_takes_only_its_frame() {
    let (mut prod, _cons) = create_queue(192);
    assert!(prod.push(&[1u8; 50]).is_ok());
    assert!(prod.push(&[2u8; 56]).is_ok());
    assert!(prod.push(&[3u8; 1]).is_ok());
    assert_eq!(prod.push(&[]), Err(PushError::Full));
}
