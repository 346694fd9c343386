//! The one-at-a-time download flow: what it reports for each item.
use vstd::prelude::*;
use crate::worker::{ArgView, CommandArg, args_view};

verus! {

/// Progress states reported to the UI by the sequential downloader.
#[derive(Clone, Copy, Debug, PartialEq, Eq, Structural)]
pub enum DownloadStatus {
    Downloading,
    Processing,
    Done,
    Failed,
}

/// The state a progress line reports.
pub fn progress_download_status(postprocess: bool) -> (r: DownloadStatus)
    ensures
        r == (if postprocess {
            DownloadStatus::Processing
        } else {
            DownloadStatus::Downloading
        }),
{
    if postprocess {
        DownloadStatus::Processing
    } else {
        DownloadStatus::Downloading
    }
}

/// A progress report: state, percent (0 or 100 where fixed) and error text.
pub struct ItemReport {
    pub status: DownloadStatus,
    pub percent: Option<u32>,
    pub error: Option<String>,
}

/// What is reported once yt-dlp has exited: `done` at 100% on success,
/// otherwise `failed` with its standard error as it stands.
pub fn exit_report(success: bool, stderr_text: String) -> (r: ItemReport)
    ensures
        success ==> r.status == DownloadStatus::Done && r.percent == Some(100u32) && r.error is None,
        !success ==> r.status == DownloadStatus::Failed && r.percent is None && r.error == Some(
            stderr_text,
        ),
{
    if success {
        ItemReport { status: DownloadStatus::Done, percent: Some(100), error: None }
    } else {
        ItemReport { status: DownloadStatus::Failed, percent: None, error: Some(stderr_text) }
    }
}

/// Like the pooled download, without `--quiet`, `--no-warnings` or the final
/// path print.
pub open spec fn sequential_args_spec() -> Seq<ArgView> {
    seq![
        ArgView::Text("-x"@),
        ArgView::Text("--audio-format"@),
        ArgView::Text("mp3"@),
        ArgView::Text("--audio-quality"@),
        ArgView::Text("0"@),
        ArgView::Text("--ffmpeg-location"@),
        ArgView::FfmpegDir,
        ArgView::Text("--newline"@),
        ArgView::Text("--progress-template"@),
        ArgView::Text("download:%(progress)j"@),
        ArgView::Text("--progress-template"@),
        ArgView::Text("postprocess:%(progress)j"@),
        ArgView::Text("--no-playlist"@),
        ArgView::Text("-o"@),
        ArgView::OutputTemplate,
        ArgView::Url,
    ]
}

/// The yt-dlp command line of a sequential download.
pub fn sequential_args() -> (r: Vec<CommandArg>)
    ensures
        args_view(r@) == sequential_args_spec(),
{
    let r = vec![
        CommandArg::Text("-x"),
        CommandArg::Text("--audio-format"),
        CommandArg::Text("mp3"),
        CommandArg::Text("--audio-quality"),
        CommandArg::Text("0"),
        CommandArg::Text("--ffmpeg-location"),
        CommandArg::FfmpegDir,
        CommandArg::Text("--newline"),
        CommandArg::Text("--progress-template"),
        CommandArg::Text("download:%(progress)j"),
        CommandArg::Text("--progress-template"),
        CommandArg::Text("postprocess:%(progress)j"),
        CommandArg::Text("--no-playlist"),
        CommandArg::Text("-o"),
        CommandArg::OutputTemplate,
        CommandArg::Url,
    ];
    assert(args_view(r@) =~= sequential_args_spec());
    r
}

} // verus!
