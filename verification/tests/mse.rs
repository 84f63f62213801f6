use conclave::mse::{MediaSource, ReadyState, SourceBuffer};

#[test]
fn append_then_step_drains_queue() {
    let mut ms = MediaSource::<f64>::default();
    ms.open();
    let i = ms.add_source_buffer("video/mp4".into());
    let sb = &mut ms.source_buffers[i];
    sb.append_buffer(vec![0u8; 16]);
    assert!(sb.updating);
    assert!(sb.step());
    assert!(!sb.updating);
    assert_eq!(sb.appended_bytes, 16);
}

#[test]
fn steps_take_the_queue_in_order() {
    let mut sb = SourceBuffer::<f64>::new("audio/mp4".to_string());
    assert!(!sb.step());
    sb.append_buffer(vec![1, 2, 3]);
    sb.append_buffer(vec![4]);
    assert!(sb.step());
    assert_eq!(sb.appended_bytes, 3);
    assert!(sb.updating);
    assert!(sb.step());
    assert_eq!(sb.appended_bytes, 4);
    assert!(!sb.updating);
    assert!(!sb.step());
}

#[test]
fn sources_open_and_end() {
    let mut ms = MediaSource::<f64>::default();
    assert_eq!(ms.ready_state, ReadyState::Closed);
    ms.open();
    assert_eq!(ms.ready_state, ReadyState::Open);
    assert_eq!(ms.add_source_buffer("video/mp4".to_string()), 0);
    assert_eq!(ms.add_source_buffer("audio/mp4".to_string()), 1);
    assert_eq!(ms.source_buffers[1].mime_type, "audio/mp4");
    ms.end_of_stream();
    assert_eq!(ms.ready_state, ReadyState::Ended);
}
