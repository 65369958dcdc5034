//! The parts of a parsed feed that planning reads, the feed and URL parsers
//! that produce them, and declared enclosure sizes.

use vstd::prelude::*;

verus! {

/// An episode's downloadable attachment: its URL and declared length text.
pub struct Enclosure {
    pub url: String,
    pub length: String,
}

/// One entry of a feed.
pub struct FeedItem {
    pub guid: Option<String>,
    pub enclosure: Option<Enclosure>,
}

/// A parsed feed: its title and its entries in feed order.
pub struct Channel {
    pub title: String,
    pub items: Vec<FeedItem>,
}

/// What planning reads of a feed entry: its guid, and its enclosure's URL and
/// declared length.
pub struct ItemView {
    pub guid: Option<Seq<char>>,
    pub enclosure: Option<(Seq<char>, Seq<char>)>,
}

pub struct ChannelView {
    pub title: Seq<char>,
    pub items: Seq<ItemView>,
}

pub open spec fn opt_text(o: Option<String>) -> Option<Seq<char>> {
    match o {
        Some(s) => Some(s@),
        None => None,
    }
}

impl View for FeedItem {
    type V = ItemView;

    open spec fn view(&self) -> ItemView {
        ItemView {
            guid: opt_text(self.guid),
            enclosure: match self.enclosure {
                Some(e) => Some((e.url@, e.length@)),
                None => None,
            },
        }
    }
}

impl View for Channel {
    type V = ChannelView;

    open spec fn view(&self) -> ChannelView {
        ChannelView { title: self.title@, items: self.items@.map_values(|i: FeedItem| i@) }
    }
}

/// Why a feed yielded no channel.
#[derive(Clone, Copy, Debug, PartialEq, Eq, Structural)]
pub enum FetchError {
    /// The feed could not be retrieved.
    Transport,
    /// The feed's bytes are not a channel.
    Parse,
}

/// The channel that RSS parsing reads from `data`, if it reads one.
pub uninterp spec fn channel_of(data: Seq<u8>) -> Option<ChannelView>;

/// The normalised text and the path of the URL parsed from `s`, if it parses.
pub uninterp spec fn parsed_url(s: Seq<char>) -> Option<(Seq<char>, Seq<char>)>;

/// The RSS parser's error, carried only to be mapped to `FetchError::Parse`.
#[verifier::external_type_specification]
#[verifier::external_body]
pub struct ExRssError(rss::Error);

/// Relies on rss::Channel::read_from: it parses the bytes alone, and we
/// keep the title and, per item, the guid value and the enclosure's URL and
/// length text.
#[verifier::external_body]
fn read_channel(data: &[u8]) -> (r: Result<Channel, rss::Error>)
    ensures
        match r {
            Ok(c) => channel_of(data@) == Some(c@),
            Err(_) => channel_of(data@) is None,
        },
{
    let c = rss::Channel::read_from(data)?;
    let items = c.items().iter().map(|i| FeedItem {
        guid: i.guid().map(|g| g.value().to_owned()),
        enclosure: i.enclosure().map(|e| Enclosure { url: e.url().to_owned(), length: e.length().to_owned() }),
    });
    Ok(Channel { title: c.title().to_owned(), items: items.collect() })
}

/// Relies on reqwest::Url::parse, reading the parsed URL through Url::as_str
/// and Url::path: the result depends on the text alone.
#[verifier::external_body]
pub(crate) fn parse_url(s: &str) -> (r: Option<(String, String)>)
    ensures
        match r {
            Some((href, path)) => parsed_url(s@) == Some((href@, path@)),
            None => parsed_url(s@) is None,
        },
{
    reqwest::Url::parse(s).ok().map(|u| (u.as_str().to_owned(), u.path().to_owned()))
}

/// Parses a feed's bytes into a channel.
pub fn parse_feed(data: &[u8]) -> (r: Result<Channel, FetchError>)
    ensures
        match r {
            Ok(c) => channel_of(data@) == Some(c@),
            Err(e) => channel_of(data@) is None && e == FetchError::Parse,
        },
{
    match read_channel(data) {
        Ok(c) => Ok(c),
        Err(_) => Err(FetchError::Parse),
    }
}

pub open spec fn is_digit(c: char) -> bool {
    '0' <= c && c <= '9'
}

pub open spec fn all_digits(s: Seq<char>) -> bool {
    forall|i: int| 0 <= i < s.len() ==> is_digit(#[trigger] s[i])
}

/// The value of a run of decimal digits.
pub open spec fn digits_value(s: Seq<char>) -> nat
    decreases s.len(),
{
    if s.len() == 0 {
        0
    } else {
        digits_value(s.drop_last()) * 10 + ((s.last() as int) - ('0' as int)) as nat
    }
}

/// The digits of a number text: a leading `+` is allowed.
pub open spec fn unsigned_digits(s: Seq<char>) -> Seq<char> {
    if s.len() > 0 && s[0] == '+' {
        s.drop_first()
    } else {
        s
    }
}

/// A declared length as a byte count: a positive decimal number that fits a
/// `usize`; anything else, zero included, is unknown.
pub open spec fn declared_size_spec(s: Seq<char>) -> Option<nat> {
    let d = unsigned_digits(s);
    if d.len() > 0 && all_digits(d) && 0 < digits_value(d) <= usize::MAX {
        Some(digits_value(d))
    } else {
        None
    }
}

proof fn lemma_prefix_value_le(s: Seq<char>, i: int)
    requires
        all_digits(s),
        0 <= i <= s.len(),
    ensures
        digits_value(s.subrange(0, i)) <= digits_value(s),
    decreases s.len(),
{
    if i < s.len() {
        let t = s.drop_last();
        assert(all_digits(t)) by {
            assert forall|j: int| 0 <= j < t.len() implies is_digit(t[j]) by {
                assert(t[j] == s[j]);
            }
        }
        lemma_prefix_value_le(t, i);
        assert(t.subrange(0, i) =~= s.subrange(0, i));
        assert(is_digit(s[s.len() - 1]));
    } else {
        assert(s.subrange(0, i) =~= s);
    }
}

/// Reads a declared enclosure length as a byte count.
pub fn declared_size(s: &str) -> (r: Option<usize>)
    ensures
        match r {
            Some(n) => declared_size_spec(s@) == Some(n as nat),
            None => declared_size_spec(s@) is None,
        },
{
    let n = s.unicode_len();
    let start: usize = if n > 0 && s.get_char(0) == '+' {
        1
    } else {
        0
    };
    let ghost d = unsigned_digits(s@);
    assert(d =~= s@.subrange(start as int, n as int));
    if start == n {
        return None;
    }
    let mut value: usize = 0;
    let mut i: usize = start;
    while i < n
        invariant
            start <= i <= n,
            n == s@.len(),
            d =~= s@.subrange(start as int, n as int),
            d == unsigned_digits(s@),
            all_digits(d.subrange(0, i - start)),
            value as nat == digits_value(d.subrange(0, i - start)),
        decreases n - i,
    {
        let c = s.get_char(i);
        assert(d[i - start] == c);
        let ghost p = d.subrange(0, i - start + 1);
        assert(p.drop_last() =~= d.subrange(0, i - start));
        assert(p.last() == c);
        if c < '0' || c > '9' {
            assert(!is_digit(d[i - start]));
            assert(!all_digits(d));
            return None;
        }
        let digit: usize = ((c as u32) - ('0' as u32)) as usize;
        assert(all_digits(p)) by {
            assert forall|j: int| 0 <= j < p.len() implies is_digit(p[j]) by {
                if j < p.len() - 1 {
                    assert(p[j] == d.subrange(0, i - start)[j]);
                }
            }
        }
        if value > (usize::MAX - digit) / 10 {
            proof {
                assert(digits_value(p) == value * 10 + digit);
                assert(value * 10 + digit > usize::MAX) by (nonlinear_arith)
                    requires
                        value > (usize::MAX - digit) / 10,
                        digit <= 9,
                ;
                if all_digits(d) {
                    lemma_prefix_value_le(d, i - start + 1);
                    assert(digits_value(d) > usize::MAX);
                }
            }
            return None;
        }
        value = value * 10 + digit;
        i = i + 1;
    }
    assert(d.subrange(0, i - start) =~= d);
    if value == 0 {
        None
    } else {
        Some(value)
    }
}

} // verus!
