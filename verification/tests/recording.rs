use solar_system_sim::recording::{
    downsample_2x, frame_delay_ms, frame_images, quantizing_text, recording_path, saved_text,
    written_text, writing_text, RecorderRequest, RecordingState, Toggled,
};

fn picture(width: u32, height: u32) -> Vec<u8> {
    (0..width * height * 4).map(|i| (i % 251) as u8).collect()
}

#[test]
fn every_second_pixel_of_every_second_row() {
    let data = picture(5, 3);
    let (small, w, h) = downsample_2x(&data, 5, 3);
    assert_eq!((w, h), (2, 1));
    assert_eq!(small, [&data[0..4], &data[8..12]].concat());
    let data = picture(4, 4);
    let (small, w, h) = downsample_2x(&data, 4, 4);
    assert_eq!((w, h), (2, 2));
    assert_eq!(small, [&data[0..4], &data[8..12], &data[32..36], &data[40..44]].concat());
    assert_eq!(downsample_2x(&picture(1, 9), 1, 9), (vec![], 0, 4));
}

#[test]
fn only_frames_with_enough_bytes_make_images() {
    let r = frame_images(vec![vec![1; 24], vec![2; 23], vec![], vec![3; 30]], 3, 2);
    assert_eq!(r, vec![Some(vec![1; 24]), None, None, Some(vec![3; 30])]);
    assert_eq!(frame_images(vec![vec![]], 0, 7), vec![Some(Vec::<u8>::new())]);
    assert_eq!(frame_images(vec![vec![0; 8]], u32::MAX, u32::MAX), vec![None]);
    assert!(frame_images(vec![], 3, 2).is_empty());
}

#[test]
fn a_recording_takes_every_sixth_frame() {
    let mut r = RecordingState::new();
    assert!(matches!(r.rendered(), RecorderRequest::Nothing));
    assert_eq!(r.frame_counter, 0);
    assert!(matches!(r.toggle(), Toggled::Started));
    let taken: Vec<usize> =
        (1..=18).filter(|_| matches!(r.rendered(), RecorderRequest::Capture)).collect();
    assert_eq!(taken, vec![6, 12, 18]);
}

#[test]
fn a_stopped_recording_hands_over_its_frames() {
    let mut r = RecordingState::new();
    r.toggle();
    r.collect(&picture(4, 2), 4, 2);
    r.collect(&picture(4, 2), 4, 2);
    match r.toggle() {
        Toggled::Stopped(Some(job)) => {
            assert_eq!((job.frames.len(), job.width, job.height, job.frame_skip), (2, 2, 1, 6));
            assert_eq!(job.status, "Encoding 2 frames...");
            let data = picture(4, 2);
            assert_eq!(job.frames[0], [&data[0..4], &data[8..12]].concat());
        }
        _ => panic!("expected frames"),
    }
    assert!(!r.recording && r.frames.is_empty());
}

#[test]
fn an_empty_recording_hands_over_nothing() {
    let mut r = RecordingState::new();
    r.toggle();
    assert!(matches!(r.toggle(), Toggled::Stopped(None)));
}

#[test]
fn pictures_are_collected_only_while_recording() {
    let mut r = RecordingState::new();
    r.collect(&picture(4, 2), 4, 2);
    assert!(r.frames.is_empty());
    r.toggle();
    r.collect(&picture(4, 1), 4, 2);
    assert_eq!(r.frames.len(), 1);
}

#[test]
fn a_picture_is_taken_as_far_as_its_bytes_go() {
    let mut r = RecordingState::new();
    r.toggle();
    r.collect(&vec![1, 2, 3], 2, 3);
    assert_eq!(r.frames, vec![vec![]]);
    assert_eq!((r.gif_width, r.gif_height), (1, 1));
    r.collect(&vec![1, 2, 3, 4], 2, 3);
    assert_eq!(r.frames[1], vec![1, 2, 3, 4]);
    let data = picture(5, 5);
    r.collect(&data[..51].to_vec(), 5, 5);
    assert_eq!((r.gif_width, r.gif_height), (2, 2));
    assert_eq!(r.frames[2], [&data[0..4], &data[8..12], &data[40..44]].concat());
    r.collect(&data[..52].to_vec(), 5, 5);
    assert_eq!(
        r.frames[3],
        [&data[0..4], &data[8..12], &data[40..44], &data[48..52]].concat()
    );
    r.collect(&vec![], 1, 1000);
    assert_eq!(r.frames[4], Vec::<u8>::new());
    assert_eq!((r.gif_width, r.gif_height), (0, 500));
    r.collect(&vec![7; 13], u32::MAX, u32::MAX);
    assert_eq!(r.frames[5], vec![7; 8]);
    assert_eq!((r.gif_width, r.gif_height), (u32::MAX / 2, u32::MAX / 2));
    assert_eq!(r.frames.len(), 6);
    assert!(r.recording);
}

#[test]
fn a_frame_that_lacks_pixels_counts_and_makes_no_image() {
    let mut r = RecordingState::new();
    r.max_frames = 2;
    r.toggle();
    r.collect(&picture(4, 4), 4, 4);
    r.collect(&picture(4, 2), 4, 4);
    assert!(!r.recording);
    match r.rendered() {
        RecorderRequest::Encode(job) => {
            let images = frame_images(job.frames, job.width, job.height);
            assert_eq!(images.len(), 2);
            assert!(images[0].is_some() && images[1].is_none());
        }
        _ => panic!("expected frames"),
    }
}

#[test]
fn a_full_recording_is_handed_over_whole() {
    let mut r = RecordingState::new();
    r.toggle();
    for _ in 0..2999 {
        r.collect(&picture(2, 2), 2, 2);
    }
    assert!(r.recording);
    r.collect(&picture(2, 2), 2, 2);
    assert!(!r.recording);
    r.collect(&picture(2, 2), 2, 2);
    match r.rendered() {
        RecorderRequest::Encode(job) => {
            assert_eq!(job.frames.len(), 3000);
            assert_eq!(job.status, "Encoding 3000 frames (limit reached)...");
        }
        _ => panic!("expected frames"),
    }
    assert!(matches!(r.rendered(), RecorderRequest::Nothing));
}

#[test]
fn screenshots_are_numbered() {
    let mut r = RecordingState::new();
    assert_eq!(r.next_screenshot(), "screenshot_0.png");
    assert_eq!(r.next_screenshot(), "screenshot_1.png");
}

#[test]
fn frames_are_shown_as_long_as_they_took() {
    assert_eq!(frame_delay_ms(6), 100);
    assert_eq!(frame_delay_ms(1), 16);
    assert_eq!(frame_delay_ms(0), 10);
}

#[test]
fn recordings_are_named_by_their_time() {
    assert_eq!(recording_path(0), "recording-19700101T000000.gif");
    assert_eq!(recording_path(1_750_507_200 + 3 * 60 + 4), "recording-20250621T120304.gif");
    assert_eq!(recording_path(951_782_399), "recording-20000228T235959.gif");
    assert_eq!(recording_path(951_782_400), "recording-20000229T000000.gif");
}

#[test]
fn names_of_recordings_differ() {
    let mut names: Vec<String> = (0..500).map(|i| recording_path(i * 86_399)).collect();
    names.sort();
    names.dedup();
    assert_eq!(names.len(), 500);
}

#[test]
fn what_is_said_while_saving() {
    assert_eq!(quantizing_text(7), "Quantizing 7 frames...");
    assert_eq!(writing_text(7), "Writing 7 frames...");
    assert_eq!(written_text(49, 200), None);
    assert_eq!(written_text(50, 200), Some("Writing 50/200...".to_string()));
    assert_eq!(saved_text("x.gif"), "Saved x.gif");
}
