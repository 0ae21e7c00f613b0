use futures_channel::oneshot::{Canceled, Receiver};
use raytrace::raycaster::{Outcome, Raycaster, RenderError, RenderResult, Rgb, CHUNK, OPAQUE};
use raytrace::scalar::Scalar;
use raytrace::vector::Vector3;

fn begin(width: u32, height: u32) -> (RenderResult, Receiver<Outcome>) {
    match Raycaster::new(width, height).unwrap().render(16, 2) {
        Ok(started) => started,
        Err(e) => panic!("the render did not start: {:?}", e),
    }
}

fn start(width: u32, height: u32) -> RenderResult {
    begin(width, height).0
}

fn shade(i: usize) -> Rgb {
    Rgb { r: (7 * i + 1) as u8, g: (11 * i + 2) as u8, b: (13 * i + 3) as u8 }
}

fn picture(pixels: usize) -> Vec<u8> {
    let mut bytes = Vec::new();
    for i in 0..pixels {
        let px = shade(i);
        bytes.extend_from_slice(&[px.r, px.g, px.b, 255]);
    }
    bytes
}

#[test]
fn new_keeps_the_size() {
    let caster = Raycaster::new(640, 480).unwrap();
    assert_eq!(caster.width, 640);
    assert_eq!(caster.height, 480);
    assert_eq!(caster.pixel_count(), Some(307_200));
}

#[test]
fn render_without_workers_fails() {
    let caster = Raycaster::new(4, 4).unwrap();
    assert_eq!(caster.render(16, 0).err(), Some(RenderError::NoWorkers));
    let caster = Raycaster::new(u32::MAX, u32::MAX).unwrap();
    assert_eq!(caster.render(16, 0).err(), Some(RenderError::NoWorkers));
    let caster = Raycaster::new(4, 4).unwrap();
    assert_eq!(
        caster.render_in(16, 0, Some((Vec::new(), Vec::new()))).err(),
        Some(RenderError::NoWorkers)
    );
    let caster = Raycaster::new(4, 4).unwrap();
    assert_eq!(caster.render_in(16, 0, None).err(), Some(RenderError::NoWorkers));
}

#[test]
fn render_beyond_the_address_space_fails() {
    let caster = Raycaster::new(u32::MAX, u32::MAX).unwrap();
    assert_eq!(caster.pixel_count(), None);
    assert_eq!(caster.render(16, 8).err(), Some(RenderError::Allocation));
}

#[test]
fn render_without_room_fails() {
    let caster = Raycaster::new(4, 4).unwrap();
    assert_eq!(caster.render_in(16, 1, None).err(), Some(RenderError::Allocation));
}

#[test]
fn render_in_discards_what_the_buffers_held() {
    let caster = Raycaster::new(2, 1).unwrap();
    let job = match caster.render_in(16, 1, Some((vec![9, 9, 9], vec![true]))) {
        Ok(started) => started.0,
        Err(e) => panic!("the render did not start: {:?}", e),
    };
    assert_eq!(job.image_so_far(), vec![0u8; 8]);
    assert_eq!(job.pending(), 2);
}

#[test]
fn a_fresh_render_is_blank() {
    let job = start(3, 2);
    assert_eq!(job.width(), 3);
    assert_eq!(job.height(), 2);
    assert_eq!(job.samples(), 16);
    assert_eq!(job.pending(), 6);
    assert_eq!(job.image_so_far(), vec![0u8; 24]);
    assert_eq!(job.promise(), None);
}

#[test]
fn chunks_run_along_the_rows() {
    let job = start(3, 2);
    assert_eq!(job.pixel_at(0), Some((0, 0)));
    assert_eq!(job.pixel_at(2), Some((2, 0)));
    assert_eq!(job.pixel_at(3), Some((0, 1)));
    assert_eq!(job.pixel_at(4), Some((1, 1)));
    assert_eq!(job.pixel_at(5), Some((2, 1)));
    assert_eq!(job.pixel_at(6), None);
    assert_eq!(job.pixel_at(usize::MAX), None);
    let wide = start(640, 480);
    assert_eq!(wide.pixel_at(307_199), Some((639, 479)));
    assert_eq!(wide.pixel_at(1000), Some((360, 1)));
}

#[test]
fn distinct_chunks_are_distinct_pixels() {
    let job = start(7, 5);
    let mut seen = Vec::new();
    for i in 0..35 {
        let (x, y) = job.pixel_at(i).unwrap();
        assert!(x < 7 && y < 5);
        assert_eq!(y as usize * 7 + x as usize, i);
        assert!(!seen.contains(&(x, y)));
        seen.push((x, y));
    }
}

#[test]
fn store_writes_four_bytes_and_no_others() {
    let mut job = start(3, 2);
    assert_eq!(CHUNK, 4);
    assert_eq!(OPAQUE, 255);
    assert_eq!(job.store(4, Rgb { r: 10, g: 20, b: 30 }), Ok(false));
    let mut expected = vec![0u8; 24];
    expected[16] = 10;
    expected[17] = 20;
    expected[18] = 30;
    expected[19] = 255;
    assert_eq!(job.image_so_far(), expected);
    assert_eq!(job.pending(), 5);
}

#[test]
fn a_pixel_is_written_once() {
    let mut job = start(3, 2);
    assert_eq!(job.store(1, shade(1)), Ok(false));
    let before = job.image_so_far();
    assert_eq!(job.store(1, Rgb { r: 0, g: 0, b: 0 }), Err(RenderError::Repeated));
    assert_eq!(job.image_so_far(), before);
    assert_eq!(job.pending(), 5);
}

#[test]
fn a_pixel_outside_the_image_is_turned_away() {
    let mut job = start(3, 2);
    assert_eq!(job.store(6, shade(0)), Err(RenderError::OutOfRange));
    assert_eq!(job.store(usize::MAX, shade(0)), Err(RenderError::OutOfRange));
    assert_eq!(job.image_so_far(), vec![0u8; 24]);
    assert_eq!(job.pending(), 6);
}

#[test]
fn completion_is_signalled_once_by_the_last_write() {
    let mut job = start(3, 2);
    let mut signals = 0;
    for i in [3usize, 0, 5, 1, 4, 2] {
        assert_eq!(job.promise(), None);
        if job.store(i, shade(i)).unwrap() {
            signals += 1;
            assert_eq!(i, 2);
        }
    }
    assert_eq!(signals, 1);
    assert_eq!(job.pending(), 0);
    for i in 0..7 {
        assert!(job.store(i, shade(i)).is_err());
    }
    assert!(!job.abort());
    assert_eq!(job.promise(), Some(Ok(picture(6))));
}

#[test]
fn any_schedule_leaves_the_same_image() {
    let orders: [[usize; 6]; 4] =
        [[0, 1, 2, 3, 4, 5], [5, 4, 3, 2, 1, 0], [0, 2, 4, 1, 3, 5], [3, 5, 0, 4, 2, 1]];
    for order in orders {
        let mut job = start(3, 2);
        for i in order {
            job.store(i, shade(i)).unwrap();
        }
        assert_eq!(job.image_so_far(), picture(6));
        assert_eq!(job.promise(), Some(Ok(picture(6))));
    }
}

#[test]
fn the_schedule_does_not_depend_on_the_number_of_workers() {
    let pixels = 12usize;
    for workers in [1usize, 2, 3, 5, 12] {
        let mut job = match Raycaster::new(4, 3).unwrap().render(16, workers) {
            Ok(started) => started.0,
            Err(e) => panic!("the render did not start: {:?}", e),
        };
        let mut turn = 0;
        let mut done = 0;
        while done < pixels {
            let worker = turn % workers;
            let next = worker + workers * (turn / workers);
            if next < pixels {
                job.store(next, shade(next)).unwrap();
                done += 1;
            }
            turn += 1;
        }
        assert_eq!(job.promise(), Some(Ok(picture(pixels))));
    }
}

#[test]
fn the_finished_image_is_opaque_and_of_full_size() {
    let mut job = start(5, 4);
    for i in 0..20 {
        job.store(19 - i, Rgb { r: 0, g: 0, b: 0 }).unwrap();
    }
    let image = job.promise().unwrap().unwrap();
    assert_eq!(image.len(), 4 * 5 * 4);
    for i in 0..20 {
        assert_eq!(image[4 * i + 3], 255);
    }
}

#[test]
fn a_snapshot_before_completion_has_full_size() {
    let mut job = start(5, 4);
    assert_eq!(job.image_so_far().len(), 80);
    for i in 0..10 {
        job.store(2 * i, shade(i)).unwrap();
        let seen = job.image_so_far();
        assert_eq!(seen.len(), 80);
        for k in 0..20 {
            let expected = if k % 2 == 0 && k / 2 <= i { 255 } else { 0 };
            assert_eq!(seen[4 * k + 3], expected);
        }
    }
    assert_eq!(job.promise(), None);
}

#[test]
fn a_failed_worker_settles_the_render() {
    let mut job = start(3, 2);
    job.store(0, shade(0)).unwrap();
    assert!(job.abort());
    assert_eq!(job.promise(), Some(Err(RenderError::WorkerFailed)));
    assert!(!job.abort());
    let before = job.image_so_far();
    assert_eq!(job.store(1, shade(1)), Err(RenderError::WorkerFailed));
    assert_eq!(job.store(0, shade(0)), Err(RenderError::WorkerFailed));
    assert_eq!(job.store(99, shade(0)), Err(RenderError::WorkerFailed));
    assert_eq!(job.image_so_far(), before);
    assert_eq!(before.len(), 24);
    assert_eq!(job.promise(), Some(Err(RenderError::WorkerFailed)));
}

#[test]
fn the_finished_image_is_sent_by_the_last_write() {
    let (mut job, mut rx) = begin(3, 2);
    for i in [5usize, 1, 2, 0, 4] {
        assert_eq!(job.store(i, shade(i)), Ok(false));
        assert_eq!(rx.try_recv(), Ok(None));
    }
    assert_eq!(job.store(3, shade(3)), Ok(true));
    assert_eq!(rx.try_recv(), Ok(Some(Ok(picture(6)))));
    assert!(!job.abort());
    assert_eq!(job.store(3, shade(0)), Err(RenderError::Repeated));
    assert_eq!(job.image_so_far(), picture(6));
}

#[test]
fn a_failure_is_sent_to_the_waiter() {
    let (mut job, mut rx) = begin(3, 2);
    job.store(0, shade(0)).unwrap();
    assert_eq!(rx.try_recv(), Ok(None));
    assert!(job.abort());
    assert_eq!(rx.try_recv(), Ok(Some(Err(RenderError::WorkerFailed))));
    assert!(!job.abort());
}

#[test]
fn an_image_without_pixels_is_sent_at_once() {
    let (job, mut rx) = begin(0, 5);
    assert_eq!(rx.try_recv(), Ok(Some(Ok(Vec::new()))));
    assert_eq!(job.promise(), Some(Ok(Vec::new())));
}

#[test]
fn an_abandoned_render_cancels_the_wait() {
    let (mut job, mut rx) = begin(3, 2);
    job.store(0, shade(0)).unwrap();
    assert_eq!(rx.try_recv(), Ok(None));
    drop(job);
    assert_eq!(rx.try_recv(), Err(Canceled));
}

#[test]
fn a_render_goes_on_without_a_waiter() {
    let (mut job, rx) = begin(2, 1);
    drop(rx);
    assert_eq!(job.store(0, shade(0)), Ok(false));
    assert_eq!(job.store(1, shade(1)), Ok(true));
    assert_eq!(job.promise(), Some(Ok(picture(2))));
}

#[test]
fn an_image_without_pixels_is_complete_at_once() {
    for (w, h) in [(0, 0), (0, 7), (7, 0)] {
        let mut job = start(w, h);
        assert_eq!(job.pending(), 0);
        assert_eq!(job.promise(), Some(Ok(Vec::new())));
        assert_eq!(job.image_so_far(), Vec::<u8>::new());
        assert_eq!(job.pixel_at(0), None);
        assert_eq!(job.store(0, shade(0)), Err(RenderError::OutOfRange));
        assert!(!job.abort());
    }
}

#[test]
fn quantize_cuts_each_channel_down_to_a_byte() {
    let col = Vector3::new(
        Scalar::from_bits(254.7f32.to_bits()),
        Scalar::from_bits(300.0f32.to_bits()),
        Scalar::from_bits((-4.0f32).to_bits()),
    );
    assert_eq!(Rgb::quantize(col), Rgb { r: 254, g: 255, b: 0 });
    let grey = (0.5f32.powf(1.0 / 2.2) * 255.0).to_bits();
    let col = Vector3::from_bits(grey, grey, f32::NAN.to_bits());
    assert_eq!(Rgb::quantize(col), Rgb { r: 186, g: 186, b: 0 });
}
