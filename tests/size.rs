use podcatcher::plan::{progress_label, progress_total};
use podcatcher::to_human_size;
use podcatcher::EpisodeDownload;

#[test]
fn human_size_thresholds() {
    assert_eq!(to_human_size(0), (0, 'B'));
    assert_eq!(to_human_size(999), (999, 'B'));
    assert_eq!(to_human_size(1000), (1, 'K'));
    assert_eq!(to_human_size(1_999), (1, 'K'));
    assert_eq!(to_human_size(1_999_999), (1, 'M'));
    assert_eq!(to_human_size(1_000_000_000), (1, 'G'));
    assert_eq!(to_human_size(999_999_999), (999, 'M'));
    assert_eq!(to_human_size(25_500_000_000), (25, 'G'));
}

fn download(size: Option<usize>) -> EpisodeDownload {
    EpisodeDownload {
        guid: String::from("g"),
        url: String::from("https://example.com/a.mp3"),
        file_size: size,
        file_path: String::from("/d/Show/a.mp3"),
    }
}

#[test]
fn human_file_size_text() {
    assert_eq!(download(Some(1_500_000)).human_file_size(), "1M");
    assert_eq!(download(Some(42)).human_file_size(), "42B");
    assert_eq!(download(Some(12_345)).human_file_size(), "12K");
    assert_eq!(download(None).human_file_size(), "unknown size");
}

#[test]
fn file_name_of_download() {
    assert_eq!(download(None).file_name(), "a.mp3");
}

#[test]
fn progress_labels() {
    assert_eq!(progress_label(0, 3, "show.mp3"), "(1/3) show.mp3");
    assert_eq!(progress_label(11, 12, "https://example.com/feed"), "(12/12) https://example.com/feed");
}

#[test]
fn progress_totals() {
    assert_eq!(progress_total(Some(2048)), 2048);
    assert_eq!(progress_total(Some(0)), 1);
    assert_eq!(progress_total(None), 1);
}
