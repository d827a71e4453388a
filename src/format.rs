use vstd::prelude::*;

verus! {

/// How much of a video or audio stream the download tool is asked to fetch.
#[derive(Debug, Clone, Copy, PartialEq, Eq, Structural)]
pub enum DownloadFormat {
    UpTo1440p,
    UpTo1080p,
    UpTo720p,
    UpTo480p,
    WorstVideo,
    AudioOnly,
}

/// The command-line arguments that select `format`, as character sequences.
pub open spec fn format_args(format: DownloadFormat) -> Seq<Seq<char>> {
    match format {
        DownloadFormat::UpTo1440p => seq![
            "-f"@,
            "bestvideo[height<=1440]+bestaudio/best[height<=1440]"@,
        ],
        DownloadFormat::UpTo1080p => seq![
            "-f"@,
            "bestvideo[height<=1080]+bestaudio/best[height<=1080]"@,
        ],
        DownloadFormat::UpTo720p => seq![
            "-f"@,
            "bestvideo[height<=720]+bestaudio/best[height<=720]"@,
        ],
        DownloadFormat::UpTo480p => seq![
            "-f"@,
            "bestvideo[height<=480]+bestaudio/best[height<=480]"@,
        ],
        DownloadFormat::WorstVideo => seq!["-S"@, "+size,+br,+res,+fps"@],
        DownloadFormat::AudioOnly => seq!["-x"@, "--audio-format"@, "mp3"@],
    }
}

/// The arguments to hand the download tool for `format`.
pub fn get_download_format_specifier(format: DownloadFormat) -> (r: &'static [&'static str])
    ensures
        r@.len() == format_args(format).len(),
        forall|i: int| 0 <= i < r@.len() ==> #[trigger] r@[i]@ == format_args(format)[i],
{
    match format {
        DownloadFormat::UpTo1440p => &[
            "-f",
            "bestvideo[height<=1440]+bestaudio/best[height<=1440]",
        ],
        DownloadFormat::UpTo1080p => &[
            "-f",
            "bestvideo[height<=1080]+bestaudio/best[height<=1080]",
        ],
        DownloadFormat::UpTo720p => &["-f", "bestvideo[height<=720]+bestaudio/best[height<=720]"],
        DownloadFormat::UpTo480p => &["-f", "bestvideo[height<=480]+bestaudio/best[height<=480]"],
        DownloadFormat::WorstVideo => &["-S", "+size,+br,+res,+fps"],
        DownloadFormat::AudioOnly => &["-x", "--audio-format", "mp3"],
    }
}

} // verus!
