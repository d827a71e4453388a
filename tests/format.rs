use rg_launcher::format::{get_download_format_specifier, DownloadFormat};

#[test]
fn video_ceilings() {
    assert_eq!(
        get_download_format_specifier(DownloadFormat::UpTo1440p),
        vec!["-f", "bestvideo[height<=1440]+bestaudio/best[height<=1440]"]
    );
    assert_eq!(
        get_download_format_specifier(DownloadFormat::UpTo1080p),
        vec!["-f", "bestvideo[height<=1080]+bestaudio/best[height<=1080]"]
    );
    assert_eq!(
        get_download_format_specifier(DownloadFormat::UpTo720p),
        vec!["-f", "bestvideo[height<=720]+bestaudio/best[height<=720]"]
    );
    assert_eq!(
        get_download_format_specifier(DownloadFormat::UpTo480p),
        vec!["-f", "bestvideo[height<=480]+bestaudio/best[height<=480]"]
    );
}

#[test]
fn worst_video_and_audio() {
    assert_eq!(get_download_format_specifier(DownloadFormat::WorstVideo), vec!["-S", "+size,+br,+res,+fps"]);
    assert_eq!(get_download_format_specifier(DownloadFormat::AudioOnly), vec!["-x", "--audio-format", "mp3"]);
}
