use playlist_audio::status::Status;
use playlist_audio::worker::{
    after_output_line, next_dispatch, DispatchAction, classify_line, dispatch, item_step, job_args, output_template, progress_status, run_result, CommandArg,
    Dispatch, ItemAction, ItemEvent, ItemPhase, JobFlags, JobRegistry, OutputLine, RunResult,
};

#[test]
fn controls_pause_resume_and_cancel_a_running_job() {
    let mut r = JobRegistry::new();
    assert_eq!(r.flags(1), None);
    r.pause(1);
    assert_eq!(r.flags(1), None);
    r.register(1);
    r.register(2);
    assert_eq!(r.flags(1), Some(JobFlags { paused: false, cancelled: false }));
    r.pause(1);
    assert_eq!(r.flags(1), Some(JobFlags { paused: true, cancelled: false }));
    assert_eq!(r.flags(2), Some(JobFlags { paused: false, cancelled: false }));
    r.resume(1);
    assert_eq!(r.flags(1), Some(JobFlags { paused: false, cancelled: false }));
    r.cancel(2);
    r.pause(2);
    r.resume(2);
    assert_eq!(r.flags(2), Some(JobFlags { paused: false, cancelled: true }));
    r.register(2);
    assert_eq!(r.flags(2), Some(JobFlags { paused: false, cancelled: false }));
    r.remove(1);
    assert_eq!(r.flags(1), None);
    assert!(r.flags(2).is_some());
    r.cancel(1);
    assert_eq!(r.flags(1), None);
}

#[test]
fn dispatch_waits_while_paused_and_stops_when_cancelled() {
    assert_eq!(dispatch(JobFlags { paused: false, cancelled: false }), Dispatch::Start);
    assert_eq!(dispatch(JobFlags { paused: true, cancelled: false }), Dispatch::Wait);
    assert_eq!(dispatch(JobFlags { paused: true, cancelled: true }), Dispatch::Stop);
    assert_eq!(dispatch(JobFlags { paused: false, cancelled: true }), Dispatch::Stop);
}

#[test]
fn an_item_that_completes() {
    let (p, a) = item_step(ItemPhase::Checking, ItemEvent::Checked { cancelled: false });
    assert!(matches!(p, ItemPhase::Downloading));
    assert_eq!(a.len(), 3);
    assert!(matches!(a[0], ItemAction::SetStatus(Status::Downloading)));
    assert!(matches!(a[1], ItemAction::Emit { status: Status::Downloading, percent: Some(0), error: None }));
    assert!(matches!(a[2], ItemAction::RunDownload));
    let (p, a) = item_step(
        p,
        ItemEvent::Ran(RunResult::Completed { file_path: "C:/m/1 - x.mp3".to_string(), file_size: 42 }),
    );
    assert!(matches!(p, ItemPhase::Finished));
    match &a[0] {
        ItemAction::MarkCompleted { file_path, file_size } => {
            assert_eq!(file_path, "C:/m/1 - x.mp3");
            assert_eq!(*file_size, 42);
        }
        _ => panic!("expected MarkCompleted"),
    }
    assert!(matches!(a[1], ItemAction::Emit { status: Status::Completed, percent: Some(100), error: None }));
}

#[test]
fn a_cancelled_item() {
    let (p, a) = item_step(ItemPhase::Checking, ItemEvent::Checked { cancelled: true });
    assert!(matches!(p, ItemPhase::Finished));
    assert_eq!(a.len(), 1);
    assert!(matches!(a[0], ItemAction::SetStatus(Status::Cancelled)));
    let (p, a) = item_step(ItemPhase::Downloading, ItemEvent::Ran(RunResult::Cancelled));
    assert!(matches!(p, ItemPhase::Finished));
    assert!(matches!(a[0], ItemAction::SetStatus(Status::Cancelled)));
    assert!(matches!(a[1], ItemAction::Emit { status: Status::Cancelled, percent: None, error: None }));
}

#[test]
fn a_failing_item_retries_then_fails() {
    let (p, a) = item_step(ItemPhase::Downloading, ItemEvent::Ran(RunResult::Failed { error: "boom".to_string() }));
    match (&p, &a[0]) {
        (ItemPhase::RecordingFailure { error }, ItemAction::RecordFailure { message }) => {
            assert_eq!(error, "boom");
            assert_eq!(message, "boom");
        }
        _ => panic!("expected a failure record"),
    }
    let (p2, a2) = item_step(p, ItemEvent::Recorded(Some(("RETRYING".to_string(), 2))));
    assert!(matches!(p2, ItemPhase::Checking));
    match &a2[0] {
        ItemAction::Emit { status: Status::Retrying, percent: None, error: Some(e) } => assert_eq!(e, "boom"),
        _ => panic!("expected a retry report"),
    }
    assert!(matches!(a2[1], ItemAction::Sleep { seconds: 120 }));
    let (p3, a3) = item_step(
        ItemPhase::RecordingFailure { error: "boom".to_string() },
        ItemEvent::Recorded(Some(("FAILED".to_string(), 3))),
    );
    assert!(matches!(p3, ItemPhase::Finished));
    assert_eq!(a3.len(), 1);
    assert!(matches!(&a3[0], ItemAction::Emit { status: Status::Failed, percent: None, error: Some(_) }));
    let (p4, _) = item_step(ItemPhase::RecordingFailure { error: "x".to_string() }, ItemEvent::Recorded(None));
    assert!(matches!(p4, ItemPhase::Finished));
}

#[test]
fn unexpected_events_change_nothing() {
    let (p, a) = item_step(ItemPhase::Finished, ItemEvent::Checked { cancelled: false });
    assert!(matches!(p, ItemPhase::Finished));
    assert!(a.is_empty());
    let (p, a) = item_step(ItemPhase::Checking, ItemEvent::Ran(RunResult::Cancelled));
    assert!(matches!(p, ItemPhase::Checking));
    assert!(a.is_empty());
}

#[test]
fn progress_lines_are_told_from_the_final_path() {
    match classify_line("download:{\"downloaded_bytes\": 5}") {
        OutputLine::Progress { postprocess, json } => {
            assert!(!postprocess);
            assert_eq!(json, "{\"downloaded_bytes\": 5}");
        }
        OutputLine::Other => panic!("expected progress"),
    }
    match classify_line("postprocess:{}") {
        OutputLine::Progress { postprocess, json } => {
            assert!(postprocess);
            assert_eq!(json, "{}");
        }
        OutputLine::Other => panic!("expected progress"),
    }
    assert!(matches!(classify_line("C:\\Music\\1 - song.mp3"), OutputLine::Other));
    assert!(matches!(classify_line("downloads:{}"), OutputLine::Other));
    assert!(matches!(classify_line("download"), OutputLine::Other));
    assert_eq!(progress_status(true), Status::Processing);
    assert_eq!(progress_status(false), Status::Downloading);
}

#[test]
fn run_results() {
    assert_eq!(run_result(true, Some("a.mp3".to_string()), "warn".to_string()), Ok("a.mp3".to_string()));
    assert_eq!(
        run_result(true, None, String::new()),
        Err("yt-dlp succeeded but produced no output path".to_string())
    );
    assert_eq!(
        run_result(false, Some("a.mp3".to_string()), " \n\t".to_string()),
        Err("yt-dlp exited with a non-zero status".to_string())
    );
    assert_eq!(
        run_result(false, None, "ERROR: video unavailable\n".to_string()),
        Err("ERROR: video unavailable\n".to_string())
    );
}

#[test]
fn output_templates_number_the_file() {
    assert_eq!(output_template(7), "7 - %(title)s.%(ext)s");
    assert_eq!(output_template(1234), "1234 - %(title)s.%(ext)s");
    assert_eq!(output_template(-3), "-3 - %(title)s.%(ext)s");
}

#[test]
fn pooled_download_command_line() {
    let args: Vec<String> = job_args()
        .into_iter()
        .map(|a| match a {
            CommandArg::Text(t) => t.to_string(),
            CommandArg::FfmpegDir => "<bin>".to_string(),
            CommandArg::OutputTemplate => "<out>".to_string(),
            CommandArg::Url => "<url>".to_string(),
        })
        .collect();
    assert_eq!(
        args.join(" "),
        "-x --audio-format mp3 --audio-quality 0 --ffmpeg-location <bin> --newline --quiet --no-warnings \
         --progress-template download:%(progress)j --progress-template postprocess:%(progress)j \
         --print after_move:%(filepath)s --no-playlist -o <out> <url>"
    );
}

#[test]
fn a_cancelled_job_cancels_every_task_not_yet_started() {
    let run = JobFlags { paused: false, cancelled: false };
    let paused = JobFlags { paused: true, cancelled: false };
    let cancelled = JobFlags { paused: true, cancelled: true };
    assert_eq!(next_dispatch(0, 3, run), DispatchAction::Start { task: 0 });
    assert_eq!(next_dispatch(1, 3, paused), DispatchAction::Wait);
    assert_eq!(next_dispatch(1, 3, cancelled), DispatchAction::Cancel { from: 1, to: 3 });
    assert_eq!(next_dispatch(3, 3, cancelled), DispatchAction::Finish);
    assert_eq!(next_dispatch(3, 3, run), DispatchAction::Finish);
}

#[test]
fn the_last_plain_line_is_the_final_path() {
    let (p, k) = after_output_line(None, "download:{}".to_string());
    assert_eq!(p, None);
    assert!(matches!(k, OutputLine::Progress { postprocess: false, .. }));
    let (p, k) = after_output_line(p, "C:/a.mp3".to_string());
    assert_eq!(p.as_deref(), Some("C:/a.mp3"));
    assert!(matches!(k, OutputLine::Other));
    let (p, _) = after_output_line(p, "postprocess:{\"x\": 1}".to_string());
    assert_eq!(p.as_deref(), Some("C:/a.mp3"));
    let (p, _) = after_output_line(p, "C:/b.mp3".to_string());
    assert_eq!(p.as_deref(), Some("C:/b.mp3"));
}

#[test]
fn pooled_downloads_go_into_the_playlist_folder() {
    let loc = playlist_audio::worker::output_location("Songs / Mixes: 2024?", 12);
    assert_eq!(loc.folder, "Songs _ Mixes_ 2024_");
    assert_eq!(loc.file_template, "12 - %(title)s.%(ext)s");
    let loc = playlist_audio::worker::output_location("CON", 1);
    assert_eq!(loc.folder, "_CON");
}
