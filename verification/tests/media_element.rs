use conclave::media_element::{MediaElement, MediaEvent, NetworkState, ReadyState};

fn element() -> MediaElement<f64, f32> {
    MediaElement::new(0.0, f64::NAN, 1.0)
}

/// Moves the clock on by some seconds, up to a known duration.
fn tick(e: &mut MediaElement<f64, f32>, delta_s: f64) {
    let ahead = e.current_time_s + delta_s * e.playback_rate as f64;
    let at_end = !e.duration_s.is_nan() && ahead >= e.duration_s;
    let now = if at_end { e.duration_s } else { ahead };
    e.tick(now, at_end, 0.0);
}

/// Moves the clock to a time, kept within the media.
fn seek(e: &mut MediaElement<f64, f32>, t: f64) {
    let to = if e.duration_s.is_nan() { t.max(0.0) } else { t.max(0.0).min(e.duration_s) };
    e.seek(to);
}

#[test]
fn fresh_element_is_paused_havenothing() {
    let e = element();
    assert!(e.paused);
    assert_eq!(e.ready_state, ReadyState::HaveNothing);
    assert_eq!(e.network_state, NetworkState::Empty);
}

#[test]
fn load_then_metadata_then_first_frame_progresses_ready_state() {
    let mut e = element();
    e.load(0.0);
    e.on_metadata(10.0);
    e.on_first_frame();
    assert_eq!(e.ready_state, ReadyState::HaveCurrentData);
    let events = e.drain_events();
    assert!(events.contains(&MediaEvent::LoadStart));
    assert!(events.contains(&MediaEvent::LoadedMetadata));
    assert!(events.contains(&MediaEvent::LoadedData));
}

#[test]
fn play_fires_play_event_and_unpauses() {
    let mut e = element();
    e.play();
    assert!(!e.paused);
    let events = e.drain_events();
    assert!(events.contains(&MediaEvent::Play));
}

#[test]
fn tick_advances_current_time_and_fires_timeupdate() {
    let mut e = element();
    e.on_metadata(5.0);
    e.play();
    e.drain_events();
    tick(&mut e, 1.5);
    assert!((e.current_time_s - 1.5).abs() < 1e-9);
    let events = e.drain_events();
    assert!(events.contains(&MediaEvent::TimeUpdate));
}

#[test]
fn tick_past_duration_fires_ended_and_pauses() {
    let mut e = element();
    e.on_metadata(2.0);
    e.play();
    e.drain_events();
    tick(&mut e, 3.0);
    assert!(e.ended);
    assert!(e.paused);
    let events = e.drain_events();
    assert!(events.contains(&MediaEvent::Ended));
}

#[test]
fn loop_resets_current_time_instead_of_ending() {
    let mut e = element();
    e.on_metadata(2.0);
    e.loop_ = true;
    e.play();
    e.drain_events();
    tick(&mut e, 3.0);
    assert!(!e.ended);
    assert_eq!(e.current_time_s, 0.0);
}

#[test]
fn seek_clamps_to_duration() {
    let mut e = element();
    e.on_metadata(5.0);
    seek(&mut e, 10.0);
    assert_eq!(e.current_time_s, 5.0);
}

#[test]
fn error_transitions_network_state_to_nosource() {
    let mut e = element();
    e.raise_error("decode failed");
    assert_eq!(e.network_state, NetworkState::NoSource);
    assert_eq!(e.error.as_deref(), Some("decode failed"));
}

#[test]
fn loading_fires_its_events_in_order() {
    let mut e = element();
    e.load(0.0);
    e.on_metadata(10.0);
    e.on_first_frame();
    e.on_can_play_through();
    assert_eq!(e.ready_state, ReadyState::HaveEnoughData);
    assert_eq!(
        e.drain_events(),
        vec![
            MediaEvent::LoadStart,
            MediaEvent::LoadedMetadata,
            MediaEvent::LoadedData,
            MediaEvent::CanPlay,
            MediaEvent::CanPlayThrough,
        ]
    );
    assert!(e.drain_events().is_empty());
}

#[test]
fn playing_twice_fires_once() {
    let mut e = element();
    e.play();
    let first = e.drain_events();
    e.play();
    assert!(e.drain_events().is_empty());
    assert!(first.contains(&MediaEvent::Play));
    e.pause();
    assert_eq!(e.drain_events(), vec![MediaEvent::Pause]);
    e.pause();
    assert!(e.drain_events().is_empty());
}

#[test]
fn paused_elements_do_not_tick() {
    let mut e = element();
    e.on_metadata(5.0);
    e.drain_events();
    tick(&mut e, 1.0);
    assert_eq!(e.current_time_s, 0.0);
    assert!(e.drain_events().is_empty());
}

#[test]
fn ready_states_are_levels() {
    assert_eq!(ReadyState::HaveNothing.level(), 0);
    assert_eq!(ReadyState::HaveEnoughData.level(), 4);
}
