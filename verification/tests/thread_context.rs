use rapidlog::config::QueueMode;
use rapidlog::queue::{create_queue, PushError, SpscConsumer};
use rapidlog::thread_context::{has_pending_messages, poll_all_registered_queues, ThreadContext};

#[test]
fn push_and_poll_single_thread() {
    let mut registry: Vec<SpscConsumer> = Vec::new();
    let mut ctx = ThreadContext::new(&mut registry);
    ctx.push(b"hello", &mut registry).unwrap();
    ctx.push(b"world", &mut registry).unwrap();
    let msgs = poll_all_registered_queues(&mut registry);
    assert_eq!(msgs.len(), 2);
    assert_eq!(msgs[0], b"hello");
    assert_eq!(msgs[1], b"world");
}

#[test]
fn poll_empty_returns_empty() {
    let mut registry: Vec<SpscConsumer> = Vec::new();
    let _ctx = ThreadContext::new(&mut registry);
    let msgs = poll_all_registered_queues(&mut registry);
    assert!(msgs.is_empty());
}

#[test]
fn has_pending_messages_detects_data() {
    let mut registry: Vec<SpscConsumer> = Vec::new();
    let mut ctx = ThreadContext::new(&mut registry);
    assert!(!has_pending_messages(&mut registry));
    ctx.push(b"data", &mut registry).unwrap();
    assert!(has_pending_messages(&mut registry));
    let _ = poll_all_registered_queues(&mut registry);
    assert!(!has_pending_messages(&mut registry));
}

#[test]
fn abandoned_queue_cleanup() {
    let mut registry: Vec<SpscConsumer> = Vec::new();
    let _ctx = ThreadContext::new(&mut registry);
    let (_, cons) = create_queue(1024);
    registry.push(cons);
    let _msgs = poll_all_registered_queues(&mut registry);
    assert!(registry.iter_mut().all(|c| !c.is_abandoned()));
}

#[test]
fn unbounded_push_past_capacity() {
    let mut registry: Vec<SpscConsumer> = Vec::new();
    let mut ctx = ThreadContext::with_mode(QueueMode::UnboundedBlocking, 64, &mut registry);
    let payload = vec![42u8; 100];
    for i in 0..20 {
        assert!(ctx.push(&payload, &mut registry).is_ok(), "push {i} should succeed in unbounded mode");
    }
    let msgs = poll_all_registered_queues(&mut registry);
    assert_eq!(msgs.len(), 20);
    for msg in &msgs {
        assert_eq!(msg, &payload);
    }
}

#[test]
fn unbounded_multi_block_pop_fifo() {
    let mut registry: Vec<SpscConsumer> = Vec::new();
    let mut ctx = ThreadContext::with_mode(QueueMode::UnboundedBlocking, 64, &mut registry);
    for i in 0u8..5 {
        let payload = vec![i; 100];
        ctx.push(&payload, &mut registry).unwrap();
    }
    let msgs = poll_all_registered_queues(&mut registry);
    assert_eq!(msgs.len(), 5);
    for (i, msg) in msgs.iter().enumerate() {
        assert_eq!(msg, &vec![i as u8; 100]);
    }
}

#[test]
fn bounded_drops_on_full() {
    let mut registry: Vec<SpscConsumer> = Vec::new();
    let mut ctx = ThreadContext::with_mode(QueueMode::BoundedDropping, 64, &mut registry);
    let payload = vec![0u8; 100];
    assert_eq!(ctx.push(&payload, &mut registry), Err(PushError::Full));
}

#[test]
fn mode_persistence() {
    let mut registry: Vec<SpscConsumer> = Vec::new();
    let mut ctx = ThreadContext::with_mode(QueueMode::UnboundedBlocking, 64, &mut registry);
    for i in 0..10 {
        assert!(ctx.push(&[i as u8; 80], &mut registry).is_ok());
    }
    assert_eq!(ctx.mode(), QueueMode::UnboundedBlocking);
}

#[test]
fn grow_pushes_consumer_to_registry() {
    let mut registry: Vec<SpscConsumer> = Vec::new();
    let mut ctx = ThreadContext::with_mode(QueueMode::UnboundedBlocking, 64, &mut registry);
    let _ = poll_all_registered_queues(&mut registry);
    assert_eq!(registry.len(), 1);
    for _ in 0..10 {
        ctx.push(&[0u8; 80], &mut registry).unwrap();
    }
    assert!(registry.len() > 1);
}

#[test]
fn abandoned_cleanup_with_blocks() {
    let mut registry: Vec<SpscConsumer> = Vec::new();
    let mut ctx = ThreadContext::with_mode(QueueMode::UnboundedBlocking, 64, &mut registry);
    for _ in 0..10 {
        ctx.push(&[0u8; 80], &mut registry).unwrap();
    }
    let consumer_count_before = registry.len();
    assert!(consumer_count_before > 1);
    let _msgs = poll_all_registered_queues(&mut registry);
    assert!(!registry.is_empty(), "active consumer must remain");
    assert_eq!(registry.len(), 1);
}

#[test]
fn push_encoded_grows_like_push() {
    let mut registry: Vec<SpscConsumer> = Vec::new();
    let mut ctx = ThreadContext::with_mode(QueueMode::UnboundedBlocking, 64, &mut registry);
    let mut fill = |buf: &mut [u8]| {
        buf.fill(9);
        buf.len()
    };
    assert_eq!(ctx.push_encoded(100, &mut fill, &mut registry), Ok(100));
    assert!(ctx.capacity() >= 128);
    let msgs = poll_all_registered_queues(&mut registry);
    assert_eq!(msgs, vec![vec![9u8; 100]]);
}

#[test]
fn set_or_create_keeps_a_context_of_the_same_capacity() {
    let mut registry: Vec<SpscConsumer> = Vec::new();
    let mut slot: Option<ThreadContext> = None;
    rapidlog::thread_context::set_or_create_with_mode(&mut slot, QueueMode::BoundedDropping, 64, &mut registry);
    assert_eq!(registry.len(), 1);
    rapidlog::thread_context::set_or_create_with_mode(&mut slot, QueueMode::UnboundedBlocking, 64, &mut registry);
    assert_eq!(registry.len(), 1);
    assert_eq!(slot.as_ref().unwrap().mode(), QueueMode::UnboundedBlocking);
    rapidlog::thread_context::set_or_create_with_mode(&mut slot, QueueMode::UnboundedBlocking, 128, &mut registry);
    assert_eq!(registry.len(), 2);
    assert_eq!(slot.as_ref().unwrap().capacity(), 128);
}

#[test]
fn poll_keeps_live_blocks_in_order_and_drops_abandoned_empty_ones() {
    let (p1, c1) = rapidlog::queue::create_queue(128);
    let (mut p2, c2) = rapidlog::queue::create_queue(256);
    let (p3, c3) = rapidlog::queue::create_queue(512);
    let mut registry = vec![c1, c2, c3];
    drop(p1);
    p2.push(b"kept").unwrap();
    let msgs = poll_all_registered_queues(&mut registry);
    assert_eq!(msgs, vec![b"kept".to_vec()]);
    assert_eq!(registry.len(), 2);
    drop(p2);
    let msgs = poll_all_registered_queues(&mut registry);
    assert!(msgs.is_empty());
    assert_eq!(registry.len(), 1);
    assert!(!registry[0].is_abandoned());
    drop(p3);
}
