use podcatcher::feed::{declared_size, parse_feed, Channel, Enclosure, FeedItem, FetchError};
use podcatcher::plan::{drop_existing, plan_batch, plan_feed, total_download_size};
use podcatcher::schedule::JobSlots;
use podcatcher::{Config, EpisodeDownload, PodcastConfig};

fn item(url: &str, length: &str, guid: Option<&str>) -> FeedItem {
    FeedItem {
        guid: guid.map(String::from),
        enclosure: Some(Enclosure { url: String::from(url), length: String::from(length) }),
    }
}

fn podcast(title: Option<&str>) -> PodcastConfig {
    PodcastConfig { feed_url: String::from("https://example.com/feed.xml"), title: title.map(String::from) }
}

const FEED: &str = r#"<?xml version="1.0"?>
<rss version="2.0"><channel><title>Feed Title</title><link>https://example.com</link><description>d</description>
<item><title>new</title><guid>id-2</guid><enclosure url="https://example.com/ep/2/two.mp3" length="2000" type="audio/mpeg"/></item>
<item><title>old</title><enclosure url="https://example.com/ep/1/one.mp3" length="0" type="audio/mpeg"/></item>
</channel></rss>"#;

#[test]
fn path_resolution_under_title() {
    let ch = Channel { title: String::from("Channel"), items: vec![item("https://example.com/ep/42/show.mp3", "100", None)] };
    let r = plan_feed("/downloads", &podcast(Some("My Show")), &ch, 1);
    assert_eq!(r.len(), 1);
    assert_eq!(r[0].file_path, "/downloads/My Show/show.mp3");
    assert_eq!(r[0].url, "https://example.com/ep/42/show.mp3");
    assert_eq!(r[0].guid, "https://example.com/ep/42/show.mp3");
    assert_eq!(r[0].file_size, Some(100));
}

#[test]
fn path_resolution_fallback_name() {
    let ch = Channel { title: String::from("Channel"), items: vec![item("https://example.com", "", Some("g1"))] };
    let r = plan_feed("/downloads", &podcast(None), &ch, 1);
    assert_eq!(r.len(), 1);
    assert_eq!(r[0].file_path, "/downloads/Channel/episode.mp3");
    assert_eq!(r[0].guid, "g1");
    assert_eq!(r[0].file_size, None);
}

#[test]
fn newest_usable_episode_only() {
    let ch = Channel {
        title: String::from("C"),
        items: vec![
            FeedItem { guid: None, enclosure: None },
            item("not a url", "5", None),
            item("https://example.com/b.mp3", "5", None),
            item("https://example.com/a.mp3", "5", None),
        ],
    };
    let r = plan_feed("/d", &podcast(None), &ch, 1);
    assert_eq!(r.len(), 1);
    assert_eq!(r[0].file_path, "/d/C/b.mp3");
    let r2 = plan_feed("/d", &podcast(None), &ch, 5);
    assert_eq!(r2.len(), 2);
    assert_eq!(r2[1].file_path, "/d/C/a.mp3");
    assert_eq!(plan_feed("/d", &podcast(None), &ch, 0).len(), 0);
}

#[test]
fn declared_sizes() {
    assert_eq!(declared_size("2000"), Some(2000));
    assert_eq!(declared_size("+7"), Some(7));
    assert_eq!(declared_size("0"), None);
    assert_eq!(declared_size(""), None);
    assert_eq!(declared_size("12a"), None);
    assert_eq!(declared_size("-3"), None);
    assert_eq!(declared_size("99999999999999999999999"), None);
    assert_eq!(declared_size("18446744073709551615"), Some(usize::MAX));
}

#[test]
fn feed_parsing() {
    let ch = parse_feed(FEED.as_bytes()).ok().unwrap();
    assert_eq!(ch.title, "Feed Title");
    assert_eq!(ch.items.len(), 2);
    assert_eq!(ch.items[0].guid, Some(String::from("id-2")));
    assert!(matches!(parse_feed(b"not xml at all"), Err(FetchError::Parse)));
}

#[test]
fn url_parsing() {
    let ch = Channel {
        title: String::from("C"),
        items: vec![item("no scheme", "1", None), item("HTTPS://Example.com/ep/42/Show.MP3", "1", None)],
    };
    let r = plan_feed("/d", &podcast(None), &ch, 1);
    assert_eq!(r.len(), 1);
    assert_eq!(r[0].url, "https://example.com/ep/42/Show.MP3");
    assert_eq!(r[0].file_path, "/d/C/Show.MP3");
}

#[test]
fn isolation_of_failed_feeds() {
    let podcasts = vec![podcast(Some("A")), podcast(Some("B")), podcast(Some("C"))];
    let fetched = vec![Some(b"<rss broken".to_vec()), None, Some(FEED.as_bytes().to_vec())];
    let plan = plan_batch("/d", &podcasts, &fetched, 1);
    assert_eq!(plan.tasks.len(), 1);
    assert_eq!(plan.tasks[0].file_path, "/d/C/two.mp3");
    assert_eq!(plan.tasks[0].guid, "id-2");
    assert_eq!(plan.tasks[0].file_size, Some(2000));
    assert_eq!(plan.failed, vec![(0, FetchError::Parse), (1, FetchError::Transport)]);
}

#[test]
fn second_sync_plans_nothing() {
    let podcasts = vec![podcast(None)];
    let fetched = vec![Some(FEED.as_bytes().to_vec())];
    let first = plan_batch("/d", &podcasts, &fetched, 2);
    assert_eq!(first.tasks.len(), 2);
    let planned = drop_existing(first.tasks, &vec![false, true]);
    assert_eq!(planned.len(), 1);
    assert_eq!(planned[0].file_path, "/d/Feed Title/two.mp3");
    let second = plan_batch("/d", &podcasts, &fetched, 2);
    let again = drop_existing(second.tasks, &vec![true, true]);
    assert!(again.is_empty());
}

fn sized(size: Option<usize>) -> EpisodeDownload {
    EpisodeDownload { guid: String::new(), url: String::new(), file_size: size, file_path: String::new() }
}

#[test]
fn partial_size_flag() {
    assert_eq!(total_download_size(&vec![sized(Some(10)), sized(Some(32))]), (42, false));
    assert_eq!(total_download_size(&vec![sized(Some(10)), sized(None)]), (10, true));
    assert_eq!(total_download_size(&vec![]), (0, false));
    assert_eq!(total_download_size(&vec![sized(Some(usize::MAX)), sized(Some(1))]), (usize::MAX, false));
}

#[test]
fn job_limit_is_respected() {
    let mut slots = JobSlots::new(5, 2);
    assert_eq!(slots.start_next(), Some(0));
    assert_eq!(slots.start_next(), Some(1));
    assert_eq!(slots.start_next(), None);
    assert_eq!(slots.active(), 2);
    slots.finish();
    assert_eq!(slots.start_next(), Some(2));
    let mut peak = slots.active();
    while !slots.is_done() {
        match slots.start_next() {
            Some(_) => {}
            None => slots.finish(),
        }
        peak = peak.max(slots.active());
    }
    assert_eq!(peak, 2);
}

#[test]
fn job_limit_defaults() {
    let mut c = Config { download_dir: String::from("/d"), podcast: vec![], max_parallel_downloads: None };
    assert_eq!(c.max_jobs(), 5);
    c.max_parallel_downloads = Some(3);
    assert_eq!(c.max_jobs(), 3);
    c.max_parallel_downloads = Some(0);
    assert_eq!(c.max_jobs(), 1);
}
