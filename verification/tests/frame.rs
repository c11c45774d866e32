use ray_tracing_weekend::frame::{Cursor, Frame, Task};
use ray_tracing_weekend::ppm::{header, pixel_line};

fn tasks(frame: Frame) -> Vec<Task> {
    let mut cursor = Cursor::start();
    let mut all = Vec::new();
    loop {
        let task = frame.next(&mut cursor);
        if task == Task::Finished {
            return all;
        }
        all.push(task);
    }
}

fn expected(frame: Frame) -> Vec<Task> {
    let mut all = Vec::new();
    for j in (0..frame.height).rev() {
        for i in 0..frame.width {
            for _ in 0..frame.samples {
                all.push(Task::Sample { i, j });
            }
            all.push(Task::Emit { i, j });
        }
        all.push(Task::RowDone);
    }
    all
}

#[test]
fn cursor_starts_at_the_origin() {
    assert_eq!(Cursor::start(), Cursor { row: 0, column: 0, sample: 0 });
}

#[test]
fn small_frame_in_full() {
    let frame = Frame { width: 2, height: 2, samples: 1 };
    assert_eq!(
        tasks(frame),
        vec![
            Task::Sample { i: 0, j: 1 },
            Task::Emit { i: 0, j: 1 },
            Task::Sample { i: 1, j: 1 },
            Task::Emit { i: 1, j: 1 },
            Task::RowDone,
            Task::Sample { i: 0, j: 0 },
            Task::Emit { i: 0, j: 0 },
            Task::Sample { i: 1, j: 0 },
            Task::Emit { i: 1, j: 0 },
            Task::RowDone,
        ]
    );
}

#[test]
fn frames_come_in_raster_order() {
    for width in 0..5 {
        for height in 0..5 {
            for samples in 0..4 {
                let frame = Frame { width, height, samples };
                assert_eq!(tasks(frame), expected(frame));
            }
        }
    }
}

#[test]
fn number_of_tasks_of_a_frame() {
    let frame = Frame { width: 7, height: 5, samples: 3 };
    assert_eq!(tasks(frame).len(), 5 * (7 * (3 + 1) + 1));
}

#[test]
fn finished_frame_stays_finished() {
    let frame = Frame { width: 1, height: 1, samples: 1 };
    let mut cursor = Cursor::start();
    assert_eq!(frame.next(&mut cursor), Task::Sample { i: 0, j: 0 });
    assert_eq!(cursor, Cursor { row: 0, column: 0, sample: 1 });
    assert_eq!(frame.next(&mut cursor), Task::Emit { i: 0, j: 0 });
    assert_eq!(cursor, Cursor { row: 0, column: 1, sample: 0 });
    assert_eq!(frame.next(&mut cursor), Task::RowDone);
    assert_eq!(cursor, Cursor { row: 1, column: 0, sample: 0 });
    assert_eq!(frame.next(&mut cursor), Task::Finished);
    assert_eq!(frame.next(&mut cursor), Task::Finished);
    assert_eq!(cursor, Cursor { row: 1, column: 0, sample: 0 });
}

#[test]
fn frame_without_rows_is_finished_at_once() {
    let frame = Frame { width: 4, height: 0, samples: 2 };
    let mut cursor = Cursor::start();
    assert_eq!(frame.next(&mut cursor), Task::Finished);
}

#[test]
fn pixel_without_samples_is_still_written() {
    let frame = Frame { width: 1, height: 1, samples: 0 };
    assert_eq!(tasks(frame), vec![Task::Emit { i: 0, j: 0 }, Task::RowDone]);
}

#[test]
fn largest_frame_does_not_overflow() {
    let frame = Frame { width: u32::MAX, height: u32::MAX, samples: u32::MAX };
    let mut cursor = Cursor { row: u32::MAX - 1, column: u32::MAX - 1, sample: u32::MAX - 1 };
    assert_eq!(frame.next(&mut cursor), Task::Sample { i: u32::MAX - 1, j: 0 });
    assert_eq!(frame.next(&mut cursor), Task::Emit { i: u32::MAX - 1, j: 0 });
    assert_eq!(frame.next(&mut cursor), Task::RowDone);
    assert_eq!(frame.next(&mut cursor), Task::Finished);
}

#[test]
fn header_of_an_image() {
    assert_eq!(header(384, 216), format!("P3\n{} {}\n255\n", 384, 216).into_bytes());
    assert_eq!(header(0, 0), b"P3\n0 0\n255\n".to_vec());
    assert_eq!(
        header(u32::MAX, 10),
        format!("P3\n{} {}\n255\n", u32::MAX, 10).into_bytes()
    );
}

#[test]
fn line_of_a_pixel() {
    assert_eq!(pixel_line(255, 0, 127), b"255 0 127\n".to_vec());
    assert_eq!(pixel_line(0, 0, 0), b"0 0 0\n".to_vec());
    assert_eq!(pixel_line(9, 10, 100), b"9 10 100\n".to_vec());
}

#[test]
fn line_of_a_pixel_out_of_range() {
    assert_eq!(pixel_line(-1, 256, 1000), b"-1 256 1000\n".to_vec());
    assert_eq!(
        pixel_line(i32::MIN, i32::MAX, -10),
        format!("{} {} {}\n", i32::MIN, i32::MAX, -10).into_bytes()
    );
}

#[test]
fn lines_agree_with_the_standard_formatting() {
    for r in [0, 1, 9, 10, 11, 99, 100, 101, 254, 255, 256, 1000, 65535, 1234567890] {
        for g in [0, -1, -9, -10, 12345] {
            assert_eq!(pixel_line(r, g, 7), format!("{} {} {}\n", r, g, 7).into_bytes());
        }
    }
}
