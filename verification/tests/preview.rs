use omabeam::frame::{demo_frame, PixelMode};
use omabeam::pixels::AlphaMode;
use omabeam::preview::{
    capture_options, demo_number, encode, pick_thumbnail, preview_due, preview_work, same_key,
    thumbnail_key, thumbnail_options, Attempt, Encoded, Handed, Offer, PreviewKey, PreviewWork, Worker,
    MAX_THUMBNAILS, THUMBNAIL_PACE,
};
use omabeam::previews::{Previews, ThumbnailResult, Tick};
use omabeam::rect::CaptureTarget;

const MILLIS: u64 = 1_000;

fn window_key(id: &str, max_width: u32) -> PreviewKey {
    PreviewKey {
        target: CaptureTarget::Toplevel(id.into()),
        cursor: false,
        quality: 55,
        max_width: Some(max_width),
        pixel_mode: PixelMode::Logical,
        screenshot: false,
    }
}

fn attempt(id: &str, at: u64) -> Attempt {
    Attempt { id: id.into(), at }
}

#[test]
fn thumbnails_take_turns_at_their_old_pace_without_the_preview() {
    let windows = ["a", "b", "c"].map(String::from);
    let start = 1_000_000_000;
    let at = |ms: u64| start + ms * MILLIS;
    let mut turn = 0;
    let mut attempts = Vec::new();
    let mut pick = |attempts: &Vec<Attempt>, now: u64| {
        pick_thumbnail(|| windows.to_vec(), &mut turn, attempts, now)
    };
    assert_eq!(pick(&attempts, at(0)).as_deref(), Some("a"));
    attempts.push(attempt("a", at(0)));
    // One request per 750 ms, as when thumbnails rode along with the preview.
    assert_eq!(pick(&attempts, at(700)), None);
    assert_eq!(pick(&attempts, at(750)).as_deref(), Some("b"));
    attempts.push(attempt("b", at(750)));
    assert_eq!(pick(&attempts, at(1500)).as_deref(), Some("c"));
    attempts.push(attempt("c", at(1500)));
    // Each window waits 10 seconds after its last attempt; only "a" has.
    assert_eq!(pick(&attempts, at(9000)), None);
    let due: Vec<_> = (0..3).filter_map(|_| pick(&attempts, at(10_001))).collect();
    assert_eq!(due, ["a"]);
    assert_eq!(pick_thumbnail(Vec::new, &mut 0, &Vec::new(), start), None);
}

#[test]
fn thumbnail_ticks_within_the_pace_list_no_windows() {
    let start = 1_000_000_000;
    let attempts = vec![attempt("a", start)];
    let listed = std::cell::Cell::new(0);
    let list = || {
        listed.set(listed.get() + 1);
        vec!["a".to_string(), "b".to_string()]
    };
    let mut turn = 1;
    let soon = start + 100 * MILLIS;
    assert_eq!(pick_thumbnail(list, &mut turn, &attempts, soon), None);
    assert_eq!(listed.get(), 0, "the pace is checked first");
    let later = start + THUMBNAIL_PACE;
    let next = pick_thumbnail(list, &mut turn, &attempts, later);
    assert_eq!((next.as_deref(), listed.get()), (Some("b"), 1));
}

#[test]
fn a_released_preview_is_sent_none_only_once() {
    let mut previews: Worker<Option<PreviewKey>> = Worker::new();
    let interval = 750 * MILLIS;
    let due = |previews: &Worker<Option<PreviewKey>>, key: &Option<PreviewKey>, waited: u64| {
        preview_due(previews, key, waited * MILLIS, interval)
    };
    // With nothing selected, a new worker is told to release once...
    assert!(due(&previews, &None, 1000));
    assert_eq!(previews.offer(None, Handed::Taken), Offer::Taken);
    assert!(!due(&previews, &None, 1000), "one job at a time");
    previews.drain(1, false);
    // ...and not every interval after that, which would redraw the picker.
    assert!(!due(&previews, &None, 1000));
    // A source is captured every interval.
    let key = Some(window_key("first", 320));
    assert!(!due(&previews, &key, 700));
    assert!(due(&previews, &key, 750));
    assert_eq!(previews.offer(key.clone(), Handed::Taken), Offer::Taken);
    previews.drain(1, false);
    assert!(due(&previews, &key, 750));
    // Deselecting it releases the session again.
    assert!(due(&previews, &None, 1000));
}

#[test]
fn a_worker_that_panics_mid_job_is_no_longer_pending_and_restarts() {
    let mut worker: Worker<u32> = Worker::new();
    assert_eq!(worker.offer(1, Handed::Taken), Offer::Taken);
    assert!(worker.pending());
    assert_eq!(worker.offer(2, Handed::Full), Offer::Busy);
    // What it sent before it stopped still counts.
    worker.drain(0, true);
    assert!(!worker.pending());
    assert_eq!(worker.offer(2, Handed::Taken), Offer::Taken);
    assert!(worker.pending());
    worker.drain(1, false);
    assert!(!worker.pending());
    assert_eq!(worker.offer(3, Handed::Disconnected), Offer::Stopped);
    assert_eq!(
        worker.offer(3, Handed::Failed("no thread".into())),
        Offer::Failed("no thread".into())
    );
}

/// What the demonstration's preview thread answers to a job.
fn answer(
    current: &mut Option<PreviewKey>,
    job: Option<PreviewKey>,
) -> (Option<PreviewKey>, Option<Encoded>) {
    let work = preview_work(current, &job, true);
    *current = job.clone();
    let frame = match (work, &job) {
        (PreviewWork::Release, _) => None,
        (PreviewWork::Demo, Some(key)) => Some(encode(&demo_frame(0), key).unwrap()),
        (work, _) => panic!("a demonstration does not capture: {work:?}"),
    };
    (job, frame)
}

fn thumbnail(id: &str) -> Encoded {
    let frame = demo_frame(demo_number(id));
    encode(&frame, &thumbnail_key(id.into())).unwrap()
}

#[test]
fn workers_tag_frames_with_the_requested_source_and_settings() {
    let mut previews: Worker<Option<PreviewKey>> = Worker::new();
    let mut thumbnails: Worker<String> = Worker::new();
    let mut current = None;
    let first = window_key("first", 320);
    assert_eq!(
        previews.offer(Some(first.clone()), Handed::Taken),
        Offer::Taken
    );
    assert_eq!(
        thumbnails.offer("second".into(), Handed::Taken),
        Offer::Taken
    );
    let (key, frame) = answer(&mut current, Some(first.clone()));
    previews.drain(1, false);
    assert_eq!(key.as_ref(), Some(&first));
    let frame = frame.unwrap();
    assert_eq!((frame.width, frame.height), (320, 180));
    assert_eq!(thumbnail("second").width, 256);
    thumbnails.drain(1, false);

    let second = window_key("second", 160);
    assert_eq!(
        previews.offer(Some(second.clone()), Handed::Taken),
        Offer::Taken
    );
    let (key, frame) = answer(&mut current, Some(second.clone()));
    previews.drain(1, false);
    assert_eq!(key, Some(second));
    assert_eq!(frame.unwrap().width, 160);
    assert_eq!(previews.offer(None, Handed::Taken), Offer::Taken);
    assert!(answer(&mut current, None).1.is_none());
    previews.drain(1, false);
    assert!(!previews.pending() && !thumbnails.pending());
}

#[test]
fn a_stalled_thumbnail_does_not_delay_the_preview() {
    let mut previews: Worker<Option<PreviewKey>> = Worker::new();
    let mut thumbnails: Worker<String> = Worker::new();
    let mut current = None;
    assert_eq!(
        thumbnails.offer("unresponsive".into(), Handed::Taken),
        Offer::Taken
    );
    // The preview keeps refreshing while the thumbnail capture is stuck.
    for width in [320, 160, 320] {
        assert!(!previews.pending());
        let key = window_key("first", width);
        assert_eq!(
            previews.offer(Some(key.clone()), Handed::Taken),
            Offer::Taken
        );
        let (answered, frame) = answer(&mut current, Some(key.clone()));
        previews.drain(1, false);
        assert_eq!(answered, Some(key));
        assert_eq!(frame.unwrap().width, width);
    }
    thumbnails.drain(0, false);
    assert!(thumbnails.pending());
    assert_eq!(thumbnail("unresponsive").width, 256);
    thumbnails.drain(1, false);
    assert!(!thumbnails.pending());
}

#[test]
fn stream_previews_take_opaque_frames_and_screenshots_keep_alpha() {
    let mut key = window_key("first", 320);
    key.cursor = true;
    let stream = capture_options(&key);
    assert_eq!((stream.cursor, stream.alpha), (true, AlphaMode::Opaque));
    // Screenshot previews are PNG, whose transparency needs straight alpha.
    key.screenshot = true;
    assert_eq!(capture_options(&key).alpha, AlphaMode::Straight);
    // Thumbnails are JPEG previews too.
    let thumbnail = capture_options(&thumbnail_key("window".into()));
    assert_eq!(thumbnail_options(), thumbnail);
    assert_eq!(thumbnail_options().alpha, AlphaMode::Opaque);
}

#[test]
fn preview_uses_stream_encoding_and_screenshot_uses_capture_pixels() {
    let mut key = PreviewKey {
        target: CaptureTarget::Toplevel("stable-window".into()),
        cursor: true,
        quality: 72,
        max_width: Some(320),
        pixel_mode: PixelMode::Logical,
        screenshot: false,
    };
    let stream = encode(&demo_frame(0), &key).unwrap();
    assert_eq!((stream.width, stream.height), (320, 180));
    key.screenshot = true;
    let shot = encode(&demo_frame(0), &key).unwrap();
    assert_eq!((shot.width, shot.height), (640, 360));
    assert!(shot.png && !stream.png);
    let decoded = image::load_from_memory(&shot.bytes).unwrap();
    assert_eq!((decoded.width(), decoded.height()), (640, 360));

    let hidpi = || {
        let mut frame = demo_frame(0);
        frame.logical_width = 320;
        frame.logical_height = 180;
        frame
    };
    key.screenshot = false;
    key.max_width = None;
    let logical = encode(&hidpi(), &key).unwrap();
    assert_eq!((logical.width, logical.height), (320, 180));
    key.pixel_mode = PixelMode::Native;
    let native = encode(&hidpi(), &key).unwrap();
    assert_eq!((native.width, native.height), (640, 360));
}

#[test]
fn stale_source_and_setting_results_have_different_keys() {
    let original = PreviewKey {
        target: CaptureTarget::Toplevel("first".into()),
        cursor: false,
        quality: 55,
        max_width: None,
        pixel_mode: PixelMode::Logical,
        screenshot: false,
    };
    let differ = |next: &PreviewKey| {
        assert_ne!(original, *next);
        assert!(!original.same(next));
    };
    let mut next = original.clone();
    next.target = CaptureTarget::Toplevel("second".into());
    differ(&next);
    next = original.clone();
    next.cursor = true;
    differ(&next);
    next = original.clone();
    next.quality = 90;
    differ(&next);
    next = original.clone();
    next.max_width = Some(1280);
    differ(&next);
    next = original.clone();
    next.pixel_mode = PixelMode::Native;
    differ(&next);
    assert!(original.same(&original.clone()));
    assert!(same_key(&None, &None));
    assert!(!same_key(&None, &Some(original)));
}

#[test]
fn a_session_is_reused_while_its_source_and_options_stay() {
    let first = Some(window_key("first", 320));
    let wider = Some(window_key("first", 640));
    let second = Some(window_key("second", 320));
    assert_eq!(preview_work(&None, &first, false), PreviewWork::Open);
    assert_eq!(preview_work(&first, &first, false), PreviewWork::Next);
    assert_eq!(preview_work(&first, &second, false), PreviewWork::Open);
    assert_eq!(preview_work(&first, &None, false), PreviewWork::Release);
    assert_eq!(preview_work(&None, &first, true), PreviewWork::Demo);
    assert_ne!(preview_work(&first, &wider, false), PreviewWork::Release);
    assert_eq!(demo_number("demo-2"), demo_number("demo-2"));
}

#[test]
fn thumbnails_of_closed_windows_go_and_few_are_kept() {
    let mut previews = Previews::new();
    let tick = |thumbnails: Vec<ThumbnailResult>, alive: Vec<String>| Tick {
        desired: None,
        refusal: None,
        previews: Vec::new(),
        stopped: false,
        thumbnails,
        thumbnails_stopped: false,
        alive,
    };
    let ids: Vec<String> = (0..MAX_THUMBNAILS + 5).map(|i| format!("w{i}")).collect();
    for (i, id) in ids.iter().enumerate() {
        let image = Some(i as u64);
        let result = ThumbnailResult {
            id: id.clone(),
            image,
        };
        previews.update_previews(&tick(vec![result], ids.clone()));
    }
    assert!(previews.thumbs.len() <= MAX_THUMBNAILS);
    let last = ids.last().unwrap();
    assert!(previews.thumbnail_of(last).is_some());
    previews.update_previews(&tick(Vec::new(), vec![last.clone()]));
    assert!(previews.thumbs.len() <= MAX_THUMBNAILS);
    assert!(previews.thumbnail_of(last).is_some());
}
