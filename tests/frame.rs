use gridsim::fps_counter::{FpsCounter, FpsReport, Mode};
use gridsim::graphics_window::{Color, PixelBuffer, WindowConfig};

#[test]
fn color_packs_channels() {
    assert_eq!(Color::new(0x12, 0x34, 0x56).value(), 0x0012_3456);
    assert_eq!(Color::black().value(), 0);
    assert_eq!(Color::white().value(), 0x00ff_ffff);
    assert_eq!(Color::new(255, 0, 0).value(), 0x00ff_0000);
}

#[test]
fn pixel_buffer_clear_and_draw() {
    let mut buffer = PixelBuffer::new(3, 2);
    assert_eq!((buffer.width(), buffer.height()), (3, 2));
    assert_eq!(buffer.pixels(), &[0, 0, 0, 0, 0, 0]);
    buffer.clear(Color::new(0, 0, 7));
    assert_eq!(buffer.pixels(), &[7, 7, 7, 7, 7, 7]);
    buffer.draw_pixel(2, 1, Color::new(0, 1, 0));
    buffer.draw_pixel(0, 1, Color::new(1, 0, 0));
    assert_eq!(buffer.pixels(), &[7, 7, 7, 0x01_0000, 7, 0x100]);
}

#[test]
fn window_config_holds_settings() {
    let config = WindowConfig { title: String::from("Test"), resizable: false, width: 1800, height: 900 };
    assert_eq!((config.title.as_str(), config.resizable, config.width, config.height), ("Test", false, 1800, 900));
}

#[test]
fn reports_every_four_frames() {
    let mut counter = FpsCounter::every_4_frames();
    assert_eq!(counter.record_frame(1), None);
    assert_eq!(counter.record_frame(2), None);
    assert_eq!(counter.record_frame(3), None);
    assert_eq!(counter.record_frame(4), Some(FpsReport { fps: 500, frame_time_millis: 2 }));
    for _ in 0..3 {
        assert_eq!(counter.record_frame(10), None);
    }
    assert_eq!(counter.record_frame(10), Some(FpsReport { fps: 100, frame_time_millis: 10 }));
}

#[test]
fn report_of_zero_frame_time_has_zero_fps() {
    let mut counter = FpsCounter::every_8_frames();
    for _ in 0..7 {
        assert_eq!(counter.record_frame(0), None);
    }
    assert_eq!(counter.record_frame(0), Some(FpsReport { fps: 0, frame_time_millis: 0 }));
}

#[test]
fn long_frames_slow_the_rate() {
    let mut counter = FpsCounter::every_16_frames();
    for _ in 0..15 {
        assert_eq!(counter.record_frame(3000), None);
    }
    assert_eq!(counter.record_frame(3000), Some(FpsReport { fps: 0, frame_time_millis: 3000 }));
}

#[test]
fn every_32_frames_averages_the_whole_ring() {
    let mut counter = FpsCounter::every_32_frames();
    let mut last = None;
    for i in 0..32u64 {
        last = counter.record_frame(i);
    }
    assert_eq!(last, Some(FpsReport { fps: 66, frame_time_millis: 15 }));
}

#[test]
fn off_counter_never_reports() {
    let mut counter = FpsCounter::new();
    for _ in 0..64 {
        assert_eq!(counter.record_frame(5), None);
    }
    counter.set_mode(Mode::Every4Frames);
    assert_eq!(counter.fps_report(), Some(FpsReport { fps: 200, frame_time_millis: 5 }));
}

#[test]
fn tick_reports_on_schedule() {
    let mut counter = FpsCounter::with_mode(Mode::Every4Frames);
    assert_eq!(counter.tick(), None);
    assert_eq!(counter.tick(), None);
    assert_eq!(counter.tick(), None);
    assert!(counter.tick().is_some());
}
