use rug::spall::{
    begin_record_bytes, end_record_bytes, BeginEvent, BufferState, Ctx, EndEvent, EventType,
    PadSkipEvent, Reservation, DEFAULT_BUFFER_SIZE,
};

#[test]
fn event_codes() {
    assert_eq!(EventType::Invalid.code(), 0);
    assert_eq!(EventType::CustomData.code(), 1);
    assert_eq!(EventType::StreamOver.code(), 2);
    assert_eq!(EventType::Begin.code(), 3);
    assert_eq!(EventType::End.code(), 4);
    assert_eq!(EventType::Instant.code(), 5);
    assert_eq!(EventType::OverwriteTimestamp.code(), 6);
    assert_eq!(EventType::PadSkip.code(), 7);
}

#[test]
fn ctx_defaults() {
    let c = Ctx::new();
    assert_eq!(c.default_buffer_size, 2 * 1024 * 1024);
    assert_eq!(DEFAULT_BUFFER_SIZE, 2097152);
    assert!(!c.truncated);
    assert!(!c.dropped);
}

#[test]
fn begin_event_layout() {
    assert_eq!(BeginEvent::size(3, 4), 27);
    let e = BeginEvent {
        ty: 3,
        category: 0,
        pid: 0x0403_0201,
        tid: 0x0807_0605,
        when: 1.5f64.to_bits(),
        name_length: 2,
        args_length: 0,
    };
    let b = e.to_bytes();
    assert_eq!(b.len(), 20);
    assert_eq!(&b[0..10], &[3, 0, 1, 2, 3, 4, 5, 6, 7, 8]);
    assert_eq!(&b[10..18], &1.5f64.to_le_bytes());
    assert_eq!(&b[18..20], &[2, 0]);
}

#[test]
fn end_and_pad_layout() {
    let e = EndEvent { ty: 4, pid: 1, tid: 2, when: 3 };
    assert_eq!(e.to_bytes(), vec![4, 1, 0, 0, 0, 2, 0, 0, 0, 3, 0, 0, 0, 0, 0, 0, 0]);
    assert_eq!(end_record_bytes(1, 2, 3), e.to_bytes());
    let p = PadSkipEvent { ty: 7, size: 0x0102 };
    assert_eq!(p.to_bytes(), vec![7, 2, 1, 0, 0]);
}

#[test]
fn begin_record_carries_name_and_args() {
    let (b, truncated) = begin_record_bytes(9, 8, 0, b"abc", b"xy");
    assert!(!truncated);
    assert_eq!(b.len(), 25);
    assert_eq!(b[0], 3);
    assert_eq!(b[18], 3);
    assert_eq!(b[19], 2);
    assert_eq!(&b[20..], b"abcxy");
}

#[test]
fn begin_record_truncates_long_names() {
    let name = vec![b'n'; 300];
    let (b, truncated) = begin_record_bytes(1, 1, 0, &name, b"");
    assert!(truncated);
    assert_eq!(b[18], 255);
    assert_eq!(b[19], 0);
    assert_eq!(b.len(), 20 + 255);
    let args = vec![b'a'; 256];
    let (b, truncated) = begin_record_bytes(1, 1, 0, b"n", &args);
    assert!(truncated);
    assert_eq!(b[19], 255);
    assert_eq!(b.len(), 20 + 1 + 255);
}

#[test]
fn buffer_fills_swaps_and_drops() {
    let mut s = BufferState::new(100);
    assert_eq!(s.half_len, 50);
    assert_eq!(s.write(20, false), Reservation::Granted { offset: 0 });
    assert_eq!(s.write(20, true), Reservation::Granted { offset: 20 });
    assert_eq!(s.remaining, 10);
    assert_eq!(s.write(20, true), Reservation::Dropped);
    assert_eq!(s.head, 40);
    assert_eq!(
        s.write(20, false),
        Reservation::Swapped { flush_offset: 0, flush_len: 40, offset: 50 }
    );
    assert!(s.top_half);
    assert_eq!(s.head, 70);
    assert_eq!(s.write(30, false), Reservation::Granted { offset: 70 });
    assert_eq!(
        s.write(1, false),
        Reservation::Swapped { flush_offset: 50, flush_len: 50, offset: 0 }
    );
    assert!(!s.top_half);
}
