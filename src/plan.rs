//! Download planning: which episodes of which feeds become downloads, where
//! each file goes, which are already on disk, and how much is left to fetch.

use crate::config::PodcastConfig;
use crate::feed::{
    channel_of, declared_size, declared_size_spec, opt_text, parse_feed, parse_url, parsed_url,
    Channel, ChannelView, FeedItem, FetchError, ItemView,
};
use crate::paths::{file_name_or_default, file_name_or_fallback, join_path, join_spec};
use crate::size::{human_size_spec, to_human_size};
use vstd::prelude::*;

verus! {

/// One planned file download.
pub struct EpisodeDownload {
    /// The episode's guid, else its enclosure URL as given.
    pub guid: String,
    /// The enclosure URL, normalised.
    pub url: String,
    /// The declared size in bytes, where it is known.
    pub file_size: Option<usize>,
    /// Where the file is written.
    pub file_path: String,
}

pub struct TaskView {
    pub guid: Seq<char>,
    pub url: Seq<char>,
    pub file_size: Option<nat>,
    pub file_path: Seq<char>,
}

impl View for EpisodeDownload {
    type V = TaskView;

    open spec fn view(&self) -> TaskView {
        TaskView {
            guid: self.guid@,
            url: self.url@,
            file_size: match self.file_size {
                Some(n) => Some(n as nat),
                None => None,
            },
            file_path: self.file_path@,
        }
    }
}

/// The decimal digit `d`.
pub open spec fn digit_char(d: nat) -> char {
    seq!['0', '1', '2', '3', '4', '5', '6', '7', '8', '9'][d as int]
}

/// The decimal text of `n`, without sign or leading zeros.
pub open spec fn decimal(n: nat) -> Seq<char>
    decreases n,
{
    if n < 10 {
        seq![digit_char(n)]
    } else {
        decimal(n / 10).push(digit_char(n % 10))
    }
}

/// Relies on usize's Display, through to_string: the decimal digits of the
/// number, with no sign or padding.
#[verifier::external_body]
fn decimal_text(n: usize) -> (r: String)
    ensures
        r@ == decimal(n as nat),
{
    n.to_string()
}

/// The number of units that a progress indicator counts to: the size where
/// it is known and positive, else one unit, so that an indicator always has
/// something to reach.
pub open spec fn progress_total_spec(size: Option<usize>) -> usize {
    match size {
        Some(n) => if n >= 1 {
            n
        } else {
            1
        },
        None => 1,
    }
}

/// The units of a progress indicator for a transfer of `size` bytes.
pub fn progress_total(size: Option<usize>) -> (r: usize)
    ensures
        r == progress_total_spec(size),
        r >= 1,
{
    match size {
        Some(n) => if n >= 1 {
            n
        } else {
            1
        },
        None => 1,
    }
}

/// The label of a progress indicator: the job's ordinal and the batch size,
/// then the job's name.
pub open spec fn progress_label_spec(ordinal: nat, total: nat, name: Seq<char>) -> Seq<char> {
    "("@ + decimal(ordinal) + "/"@ + decimal(total) + ") "@ + name
}

/// The progress label of job `index` (counted from zero) of `total`.
pub fn progress_label(index: usize, total: usize, name: &str) -> (r: String)
    requires
        index < total,
    ensures
        r@ == progress_label_spec(index as nat + 1, total as nat, name@),
{
    let ordinal = decimal_text(index + 1);
    let count = decimal_text(total);
    String::from_str("(").concat(ordinal.as_str()).concat("/").concat(count.as_str()).concat(") ").concat(name)
}

/// A declared size as text: the scaled value and its unit, else
/// `unknown size`.
pub open spec fn human_file_size_spec(size: Option<usize>) -> Seq<char> {
    match size {
        Some(n) => decimal(human_size_spec(n as nat).0) + seq![human_size_spec(n as nat).1],
        None => "unknown size"@,
    }
}

impl EpisodeDownload {
    /// The name of the file that the download writes.
    pub fn file_name(&self) -> (r: String)
        ensures
            r@ == file_name_or_fallback(self.file_path@),
    {
        file_name_or_default(self.file_path.as_str())
    }

    /// The declared size as human-readable text.
    pub fn human_file_size(&self) -> (r: String)
        ensures
            r@ == human_file_size_spec(self.file_size),
    {
        match self.file_size {
            None => "unknown size".to_owned(),
            Some(size) => {
                let (value, unit) = to_human_size(size);
                let digits = decimal_text(value);
                let unit_text: &str = if unit == 'G' {
                    "G"
                } else if unit == 'M' {
                    "M"
                } else if unit == 'K' {
                    "K"
                } else {
                    "B"
                };
                proof {
                    reveal_strlit("G");
                    reveal_strlit("M");
                    reveal_strlit("K");
                    reveal_strlit("B");
                }
                digits.concat(unit_text)
            },
        }
    }
}

pub open spec fn task_views(v: Seq<EpisodeDownload>) -> Seq<TaskView> {
    v.map_values(|t: EpisodeDownload| t@)
}

/// The download that a feed entry stands for, with its file under `dir`:
/// entries without an enclosure, or whose enclosure URL does not parse, have
/// none.
pub open spec fn item_task(dir: Seq<char>, item: ItemView) -> Option<TaskView> {
    match item.enclosure {
        None => None,
        Some((u, len)) => match parsed_url(u) {
            None => None,
            Some((href, path)) => Some(
                TaskView {
                    guid: match item.guid {
                        Some(g) => g,
                        None => u,
                    },
                    url: href,
                    file_size: declared_size_spec(len),
                    file_path: join_spec(dir, file_name_or_fallback(path)),
                },
            ),
        },
    }
}

/// The downloads of the first `limit` entries, in feed order, that stand for
/// one.
pub open spec fn select_tasks(dir: Seq<char>, items: Seq<ItemView>, limit: nat) -> Seq<TaskView>
    decreases items.len(),
{
    if items.len() == 0 || limit == 0 {
        seq![]
    } else {
        match item_task(dir, items[0]) {
            Some(t) => seq![t] + select_tasks(dir, items.drop_first(), (limit - 1) as nat),
            None => select_tasks(dir, items.drop_first(), limit),
        }
    }
}

/// A podcast's directory under the download root: named by the configured
/// title, else by the channel's own.
pub open spec fn podcast_dir(root: Seq<char>, title: Option<Seq<char>>, channel_title: Seq<char>) -> Seq<char> {
    join_spec(
        root,
        match title {
            Some(t) => t,
            None => channel_title,
        },
    )
}

fn plan_item(dir: &str, item: &FeedItem) -> (r: Option<EpisodeDownload>)
    ensures
        match r {
            Some(t) => item_task(dir@, item@) == Some(t@),
            None => item_task(dir@, item@) is None,
        },
{
    match &item.enclosure {
        None => None,
        Some(enc) => match parse_url(enc.url.as_str()) {
            None => None,
            Some((href, path)) => {
                let guid = match &item.guid {
                    Some(g) => g.clone(),
                    None => enc.url.clone(),
                };
                let name = file_name_or_default(path.as_str());
                let file_path = join_path(dir, name.as_str());
                let file_size = declared_size(enc.length.as_str());
                Some(EpisodeDownload { guid, url: href, file_size, file_path })
            },
        },
    }
}

/// The downloads that one podcast's channel contributes: at most `per_feed`
/// of its newest episodes with a usable enclosure, each under the podcast's
/// directory.
pub fn plan_feed(download_dir: &str, podcast: &PodcastConfig, channel: &Channel, per_feed: usize) -> (r: Vec<EpisodeDownload>)
    ensures
        task_views(r@) == select_tasks(
            podcast_dir(download_dir@, opt_text(podcast.title), channel.title@),
            channel@.items,
            per_feed as nat,
        ),
{
    let title: &str = match &podcast.title {
        Some(t) => t.as_str(),
        None => channel.title.as_str(),
    };
    let dir = join_path(download_dir, title);
    let ghost items = channel@.items;
    let n = channel.items.len();
    let mut res: Vec<EpisodeDownload> = Vec::new();
    let mut i: usize = 0;
    assert(items.subrange(0, n as int) =~= items);
    assert(task_views(res@) + select_tasks(dir@, items, per_feed as nat) =~= select_tasks(dir@, items, per_feed as nat));
    while i < n && res.len() < per_feed
        invariant
            n == channel.items@.len(),
            items == channel@.items,
            items.len() == n,
            i <= n,
            res.len() <= per_feed,
            select_tasks(dir@, items, per_feed as nat) == task_views(res@) + select_tasks(
                dir@,
                items.subrange(i as int, n as int),
                (per_feed - res.len()) as nat,
            ),
        decreases n - i,
    {
        let ghost rest = items.subrange(i as int, n as int);
        let ghost before = task_views(res@);
        assert(rest.drop_first() =~= items.subrange(i + 1, n as int));
        assert(rest[0] == channel.items@[i as int]@);
        match plan_item(dir.as_str(), &channel.items[i]) {
            Some(t) => {
                res.push(t);
                assert(task_views(res@) =~= before.push(t@));
                assert(before + (seq![t@] + select_tasks(dir@, rest.drop_first(), (per_feed - res.len()) as nat))
                    =~= task_views(res@) + select_tasks(dir@, rest.drop_first(), (per_feed - res.len()) as nat));
            },
            None => {},
        }
        i = i + 1;
    }
    assert(task_views(res@) + seq![] =~= task_views(res@));
    res
}

/// The channel that a feed's retrieved bytes hold; none where retrieval
/// failed or the bytes do not parse.
pub open spec fn fetched_channel(f: Option<Vec<u8>>) -> Option<ChannelView> {
    match f {
        Some(b) => channel_of(b@),
        None => None,
    }
}

/// The downloads that one podcast contributes, given what its feed retrieval
/// returned.
pub open spec fn feed_tasks(root: Seq<char>, p: PodcastConfig, f: Option<Vec<u8>>, limit: nat) -> Seq<TaskView> {
    match fetched_channel(f) {
        Some(c) => select_tasks(podcast_dir(root, opt_text(p.title), c.title), c.items, limit),
        None => seq![],
    }
}

/// The downloads of the first `n` podcasts, in configuration order.
pub open spec fn batch_tasks(
    root: Seq<char>,
    ps: Seq<PodcastConfig>,
    fs: Seq<Option<Vec<u8>>>,
    limit: nat,
    n: nat,
) -> Seq<TaskView>
    decreases n,
{
    if n == 0 {
        seq![]
    } else {
        batch_tasks(root, ps, fs, limit, (n - 1) as nat) + feed_tasks(
            root,
            ps[n - 1],
            fs[n - 1],
            limit,
        )
    }
}

/// The failed feeds among the first `n`, with why each failed.
pub open spec fn batch_failures(fs: Seq<Option<Vec<u8>>>, n: nat) -> Seq<(usize, FetchError)>
    decreases n,
{
    if n == 0 {
        seq![]
    } else {
        let prev = batch_failures(fs, (n - 1) as nat);
        match fs[n - 1] {
            None => prev.push(((n - 1) as usize, FetchError::Transport)),
            Some(b) => if channel_of(b@) is None {
                prev.push(((n - 1) as usize, FetchError::Parse))
            } else {
                prev
            },
        }
    }
}

/// The outcome of planning a batch of feeds.
pub struct BatchPlan {
    /// The candidate downloads, podcast by podcast.
    pub tasks: Vec<EpisodeDownload>,
    /// The podcasts whose feed yielded no channel, by index, with the reason.
    pub failed: Vec<(usize, FetchError)>,
}

/// Plans the candidate downloads of a batch of podcasts from what each
/// feed's retrieval returned (`None` where it failed). A feed that fails
/// is recorded and contributes nothing; the others are planned as usual.
pub fn plan_batch(
    download_dir: &str,
    podcasts: &Vec<PodcastConfig>,
    fetched: &Vec<Option<Vec<u8>>>,
    per_feed: usize,
) -> (r: BatchPlan)
    requires
        podcasts.len() == fetched.len(),
    ensures
        task_views(r.tasks@) == batch_tasks(
            download_dir@,
            podcasts@,
            fetched@,
            per_feed as nat,
            podcasts.len() as nat,
        ),
        r.failed@ == batch_failures(fetched@, podcasts.len() as nat),
{
    let mut tasks: Vec<EpisodeDownload> = Vec::new();
    let mut failed: Vec<(usize, FetchError)> = Vec::new();
    let mut i: usize = 0;
    while i < podcasts.len()
        invariant
            podcasts.len() == fetched.len(),
            i <= podcasts.len(),
            task_views(tasks@) == batch_tasks(download_dir@, podcasts@, fetched@, per_feed as nat, i as nat),
            failed@ == batch_failures(fetched@, i as nat),
        decreases podcasts.len() - i,
    {
        let ghost before = task_views(tasks@);
        match &fetched[i] {
            None => {
                failed.push((i, FetchError::Transport));
            },
            Some(bytes) => match parse_feed(bytes.as_slice()) {
                Err(e) => {
                    failed.push((i, e));
                },
                Ok(channel) => {
                    let mut more = plan_feed(download_dir, &podcasts[i], &channel, per_feed);
                    let ghost added = task_views(more@);
                    tasks.append(&mut more);
                    assert(task_views(tasks@) =~= before + added);
                },
            },
        }
        proof {
            assert(task_views(tasks@) =~= batch_tasks(download_dir@, podcasts@, fetched@, per_feed as nat, (i + 1) as nat));
        }
        i = i + 1;
    }
    BatchPlan { tasks, failed }
}

/// The tasks whose flag in `on_disk` is not set: flags pair with tasks by
/// position, and a task without a flag is kept.
pub open spec fn keep_missing(ts: Seq<TaskView>, on_disk: Seq<bool>) -> Seq<TaskView>
    decreases ts.len(),
{
    if ts.len() == 0 {
        seq![]
    } else {
        let flags_rest = if on_disk.len() > 0 {
            on_disk.drop_first()
        } else {
            on_disk
        };
        let rest = keep_missing(ts.drop_first(), flags_rest);
        if on_disk.len() > 0 && on_disk[0] {
            rest
        } else {
            seq![ts[0]] + rest
        }
    }
}

/// Drops each task whose target file is already on disk (`on_disk[i]` for
/// `tasks[i]`), keeping the others in order.
pub fn drop_existing(tasks: Vec<EpisodeDownload>, on_disk: &Vec<bool>) -> (r: Vec<EpisodeDownload>)
    requires
        tasks.len() == on_disk.len(),
    ensures
        task_views(r@) == keep_missing(task_views(tasks@), on_disk@),
{
    let ghost all = task_views(tasks@);
    let n = on_disk.len();
    let mut rest = tasks;
    let mut res: Vec<EpisodeDownload> = Vec::new();
    let mut k: usize = 0;
    assert(on_disk@.subrange(0, n as int) =~= on_disk@);
    assert(task_views(res@) + all =~= all);
    while rest.len() > 0
        invariant
            n == on_disk.len(),
            k + rest.len() == n,
            keep_missing(all, on_disk@) == task_views(res@) + keep_missing(
                task_views(rest@),
                on_disk@.subrange(k as int, n as int),
            ),
        decreases rest.len(),
    {
        let ghost rv = task_views(rest@);
        let ghost flags = on_disk@.subrange(k as int, n as int);
        let ghost before = task_views(res@);
        let t = rest.remove(0);
        assert(task_views(rest@) =~= rv.drop_first());
        assert(flags.drop_first() =~= on_disk@.subrange(k + 1, n as int));
        assert(rv[0] == t@);
        if !on_disk[k] {
            res.push(t);
            assert(task_views(res@) =~= before.push(rv[0]));
            assert(before + (seq![rv[0]] + keep_missing(rv.drop_first(), flags.drop_first()))
                =~= task_views(res@) + keep_missing(rv.drop_first(), flags.drop_first()));
        }
        k = k + 1;
    }
    assert(task_views(res@) + seq![] =~= task_views(res@));
    res
}

/// Sum of the known declared sizes.
pub open spec fn known_total(ts: Seq<TaskView>) -> nat
    decreases ts.len(),
{
    if ts.len() == 0 {
        0
    } else {
        known_total(ts.drop_last()) + match ts.last().file_size {
            Some(n) => n,
            None => 0,
        }
    }
}

/// Whether some task's size is unknown.
pub open spec fn any_unknown(ts: Seq<TaskView>) -> bool {
    exists|i: int| 0 <= i < ts.len() && (#[trigger] ts[i]).file_size is None
}

/// The aggregate size of the planned downloads and whether it is partial:
/// the sum of the known sizes (capped at `usize::MAX`), and whether any
/// task's size is unknown.
pub fn total_download_size(tasks: &Vec<EpisodeDownload>) -> (r: (usize, bool))
    ensures
        r.1 == any_unknown(task_views(tasks@)),
        known_total(task_views(tasks@)) <= usize::MAX ==> r.0 == known_total(task_views(tasks@)),
        known_total(task_views(tasks@)) > usize::MAX ==> r.0 == usize::MAX,
{
    let ghost all = task_views(tasks@);
    let mut total: usize = 0;
    let mut partial = false;
    let mut i: usize = 0;
    while i < tasks.len()
        invariant
            i <= tasks.len(),
            all == task_views(tasks@),
            partial == any_unknown(all.subrange(0, i as int)),
            known_total(all.subrange(0, i as int)) <= usize::MAX ==> total == known_total(all.subrange(0, i as int)),
            known_total(all.subrange(0, i as int)) > usize::MAX ==> total == usize::MAX,
        decreases tasks.len() - i,
    {
        let ghost pre = all.subrange(0, i as int);
        let ghost next = all.subrange(0, i + 1);
        assert(next.drop_last() =~= pre);
        assert(next.last() == tasks@[i as int]@);
        match tasks[i].file_size {
            Some(size) => {
                if total > usize::MAX - size {
                    total = usize::MAX;
                } else {
                    total = total + size;
                }
                assert(partial == any_unknown(next)) by {
                    if any_unknown(next) {
                        let j = choose|j: int| 0 <= j < next.len() && (#[trigger] next[j]).file_size is None;
                        assert(pre[j] == next[j]);
                    }
                    if any_unknown(pre) {
                        let j = choose|j: int| 0 <= j < pre.len() && (#[trigger] pre[j]).file_size is None;
                        assert(pre[j] == next[j]);
                    }
                }
            },
            None => {
                partial = true;
                assert(next[i as int].file_size is None);
            },
        }
        i = i + 1;
    }
    assert(all.subrange(0, i as int) =~= all);
    (total, partial)
}

/// Whether each task's target path is among `on_disk`, task by task.
pub open spec fn existing_flags(ts: Seq<TaskView>, on_disk: Set<Seq<char>>) -> Seq<bool> {
    Seq::new(ts.len(), |i: int| on_disk.contains(ts[i].file_path))
}

/// Deduplication by existence: no task kept for download targets a path
/// that is already on disk, and every task whose path is not on disk is kept.
pub proof fn lemma_kept_not_on_disk(ts: Seq<TaskView>, on_disk: Set<Seq<char>>)
    ensures
        forall|j: int|
            0 <= j < keep_missing(ts, existing_flags(ts, on_disk)).len() ==> !on_disk.contains(
                (#[trigger] keep_missing(ts, existing_flags(ts, on_disk))[j]).file_path,
            ),
        forall|i: int|
            0 <= i < ts.len() && !on_disk.contains(ts[i].file_path) ==> keep_missing(
                ts,
                existing_flags(ts, on_disk),
            ).contains(#[trigger] ts[i]),
    decreases ts.len(),
{
    if ts.len() > 0 {
        let rest = ts.drop_first();
        assert(existing_flags(ts, on_disk).drop_first() =~= existing_flags(rest, on_disk));
        lemma_kept_not_on_disk(rest, on_disk);
        let all = keep_missing(ts, existing_flags(ts, on_disk));
        let tail = keep_missing(rest, existing_flags(rest, on_disk));
        if on_disk.contains(ts[0].file_path) {
            assert(all == tail);
            assert forall|i: int| 0 <= i < ts.len() && !on_disk.contains(ts[i].file_path) implies all.contains(
                #[trigger] ts[i],
            ) by {
                assert(ts[i] == rest[i - 1]);
            }
        } else {
            assert(all == seq![ts[0]] + tail);
            assert forall|j: int| 0 <= j < all.len() implies !on_disk.contains((#[trigger] all[j]).file_path) by {
                if j > 0 {
                    assert(all[j] == tail[j - 1]);
                }
            }
            assert forall|i: int| 0 <= i < ts.len() && !on_disk.contains(ts[i].file_path) implies all.contains(
                #[trigger] ts[i],
            ) by {
                if i == 0 {
                    assert(all[0] == ts[0]);
                } else {
                    assert(ts[i] == rest[i - 1]);
                    let k = choose|k: int| 0 <= k < tail.len() && tail[k] == rest[i - 1];
                    assert(all[k + 1] == tail[k]);
                }
            }
        }
    }
}

proof fn lemma_keep_missing_empty(ts: Seq<TaskView>, before: Set<Seq<char>>, after: Set<Seq<char>>)
    requires
        before.subset_of(after),
        forall|j: int|
            0 <= j < keep_missing(ts, existing_flags(ts, before)).len() ==> after.contains(
                (#[trigger] keep_missing(ts, existing_flags(ts, before))[j]).file_path,
            ),
    ensures
        keep_missing(ts, existing_flags(ts, after)) == Seq::<TaskView>::empty(),
    decreases ts.len(),
{
    if ts.len() > 0 {
        let rest = ts.drop_first();
        assert(existing_flags(ts, before).drop_first() =~= existing_flags(rest, before));
        assert(existing_flags(ts, after).drop_first() =~= existing_flags(rest, after));
        let first = keep_missing(ts, existing_flags(ts, before));
        let tail = keep_missing(rest, existing_flags(rest, before));
        if before.contains(ts[0].file_path) {
            assert(first == tail);
        } else {
            assert(first == seq![ts[0]] + tail);
            assert(first[0] == ts[0]);
            assert forall|j: int| 0 <= j < tail.len() implies after.contains((#[trigger] tail[j]).file_path) by {
                assert(first[j + 1] == tail[j]);
            }
        }
        lemma_keep_missing_empty(rest, before, after);
    }
}

/// Idempotence of a sync: against the same configuration and the same
/// retrieved feeds, once every file that the first run planned is on disk
/// and no file that was there has gone, a second run plans nothing.
pub proof fn lemma_sync_idempotent(
    root: Seq<char>,
    ps: Seq<PodcastConfig>,
    fs: Seq<Option<Vec<u8>>>,
    limit: nat,
    before: Set<Seq<char>>,
    after: Set<Seq<char>>,
)
    requires
        ps.len() == fs.len(),
        before.subset_of(after),
        forall|j: int|
            0 <= j < keep_missing(
                batch_tasks(root, ps, fs, limit, ps.len()),
                existing_flags(batch_tasks(root, ps, fs, limit, ps.len()), before),
            ).len() ==> after.contains(
                (#[trigger] keep_missing(
                    batch_tasks(root, ps, fs, limit, ps.len()),
                    existing_flags(batch_tasks(root, ps, fs, limit, ps.len()), before),
                )[j]).file_path,
            ),
    ensures
        keep_missing(
            batch_tasks(root, ps, fs, limit, ps.len()),
            existing_flags(batch_tasks(root, ps, fs, limit, ps.len()), after),
        ) == Seq::<TaskView>::empty(),
{
    lemma_keep_missing_empty(batch_tasks(root, ps, fs, limit, ps.len()), before, after);
}

proof fn lemma_batch_contains(
    root: Seq<char>,
    ps: Seq<PodcastConfig>,
    fs: Seq<Option<Vec<u8>>>,
    limit: nat,
    i: int,
    n: nat,
)
    requires
        0 <= i < n <= ps.len(),
        ps.len() == fs.len(),
    ensures
        forall|k: int|
            0 <= k < feed_tasks(root, ps[i], fs[i], limit).len() ==> batch_tasks(root, ps, fs, limit, n).contains(
                #[trigger] feed_tasks(root, ps[i], fs[i], limit)[k],
            ),
    decreases n,
{
    let prev = batch_tasks(root, ps, fs, limit, (n - 1) as nat);
    let own = feed_tasks(root, ps[n - 1], fs[n - 1], limit);
    let all = batch_tasks(root, ps, fs, limit, n);
    assert(all == prev + own);
    if i == n - 1 {
        assert forall|k: int| 0 <= k < own.len() implies all.contains(#[trigger] own[k]) by {
            assert(all[prev.len() + k] == own[k]);
        }
    } else {
        lemma_batch_contains(root, ps, fs, limit, i, (n - 1) as nat);
        let mine = feed_tasks(root, ps[i], fs[i], limit);
        assert forall|k: int| 0 <= k < mine.len() implies all.contains(#[trigger] mine[k]) by {
            let j = choose|j: int| 0 <= j < prev.len() && prev[j] == mine[k];
            assert(all[j] == prev[j]);
        }
    }
}

/// Isolation of feeds: every download that a podcast's feed contributes
/// stands in the batch plan, whatever the other feeds of the batch returned,
/// failures included.
pub proof fn lemma_feed_isolation(
    root: Seq<char>,
    ps: Seq<PodcastConfig>,
    fs: Seq<Option<Vec<u8>>>,
    limit: nat,
    i: int,
)
    requires
        ps.len() == fs.len(),
        0 <= i < ps.len(),
    ensures
        forall|k: int|
            0 <= k < feed_tasks(root, ps[i], fs[i], limit).len() ==> batch_tasks(
                root,
                ps,
                fs,
                limit,
                ps.len(),
            ).contains(#[trigger] feed_tasks(root, ps[i], fs[i], limit)[k]),
{
    lemma_batch_contains(root, ps, fs, limit, i, ps.len());
}

} // verus!
