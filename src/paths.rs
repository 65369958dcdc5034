//! Slash-separated path text: joining a component onto a directory, and the
//! file name that a path ends in.

use vstd::prelude::*;

verus! {

/// The file name used when an enclosure URL's path names no file.
pub open spec fn fallback_name() -> Seq<char> {
    "episode.mp3"@
}

/// `base` with `name` pushed onto it: an absolute `name` replaces `base`,
/// otherwise one separator stands between the two unless `base` is empty
/// or already ends in one.
pub open spec fn join_spec(base: Seq<char>, name: Seq<char>) -> Seq<char> {
    if name.len() > 0 && name[0] == '/' {
        name
    } else if base.len() == 0 || base.last() == '/' {
        base + name
    } else {
        base + seq!['/'] + name
    }
}

/// Index of the last `/` in `p`, or -1 where there is none.
pub open spec fn last_slash(p: Seq<char>) -> int
    decreases p.len(),
{
    if p.len() == 0 {
        -1
    } else if p.last() == '/' {
        p.len() - 1
    } else {
        last_slash(p.drop_last())
    }
}

/// The last component of `p` as a file name: empty and `.` components are
/// passed over; a path that ends in `..`, or has no other component, has none.
pub open spec fn file_name_spec(p: Seq<char>) -> Option<Seq<char>>
    decreases p.len(),
{
    if p.len() == 0 {
        None
    } else {
        let k = last_slash(p);
        let seg = p.subrange(k + 1, p.len() as int);
        if seg.len() == 0 || seg == seq!['.'] {
            if 0 <= k < p.len() {
                file_name_spec(p.subrange(0, k))
            } else {
                None
            }
        } else if seg == seq!['.', '.'] {
            None
        } else {
            Some(seg)
        }
    }
}

/// The file name of `p`, or the fallback name where `p` has none.
pub open spec fn file_name_or_fallback(p: Seq<char>) -> Seq<char> {
    match file_name_spec(p) {
        Some(n) => n,
        None => fallback_name(),
    }
}

proof fn lemma_last_slash(p: Seq<char>)
    ensures
        -1 <= last_slash(p) < p.len(),
        last_slash(p) >= 0 ==> p[last_slash(p)] == '/',
        forall|j: int| last_slash(p) < j < p.len() ==> #[trigger] p[j] != '/',
    decreases p.len(),
{
    if p.len() > 0 && p.last() != '/' {
        let q = p.drop_last();
        lemma_last_slash(q);
        assert forall|j: int| last_slash(p) < j < p.len() implies #[trigger] p[j] != '/' by {
            if j < p.len() - 1 {
                assert(p[j] == q[j]);
            }
        }
    }
}

/// A text without `/` leaves the last slash where it was.
proof fn lemma_last_slash_append(a: Seq<char>, b: Seq<char>)
    requires
        forall|j: int| 0 <= j < b.len() ==> #[trigger] b[j] != '/',
    ensures
        last_slash(a + b) == last_slash(a),
    decreases b.len(),
{
    if b.len() > 0 {
        let c = b.drop_last();
        assert((a + b).drop_last() =~= a + c);
        assert((a + b).last() == b[b.len() - 1]);
        lemma_last_slash_append(a, c);
    } else {
        assert(a + b =~= a);
    }
}

/// A file name is not empty, holds no `/`, and is neither `.` nor `..`.
pub open spec fn is_plain_name(s: Seq<char>) -> bool {
    &&& s.len() > 0
    &&& forall|j: int| 0 <= j < s.len() ==> #[trigger] s[j] != '/'
    &&& s != seq!['.']
    &&& s != seq!['.', '.']
}

proof fn lemma_file_name_plain(p: Seq<char>)
    ensures
        file_name_spec(p) matches Some(n) ==> is_plain_name(n),
    decreases p.len(),
{
    if p.len() > 0 {
        let k = last_slash(p);
        lemma_last_slash(p);
        let seg = p.subrange(k + 1, p.len() as int);
        if seg.len() == 0 || seg == seq!['.'] {
            if 0 <= k < p.len() {
                lemma_file_name_plain(p.subrange(0, k));
            }
        } else if seg != seq!['.', '.'] {
            assert forall|j: int| 0 <= j < seg.len() implies #[trigger] seg[j] != '/' by {
                assert(seg[j] == p[k + 1 + j]);
            }
        }
    }
}

/// Pushing a file name onto a directory gives a path whose file name it is.
proof fn lemma_join_file_name(dir: Seq<char>, name: Seq<char>)
    requires
        is_plain_name(name),
    ensures
        file_name_spec(join_spec(dir, name)) == Some(name),
{
    let p = join_spec(dir, name);
    let prefix = if dir.len() == 0 {
        dir
    } else if dir.last() == '/' {
        dir
    } else {
        dir + seq!['/']
    };
    assert(p =~= prefix + name);
    lemma_last_slash_append(prefix, name);
    if prefix.len() > 0 {
        assert(prefix.last() == '/');
        assert(last_slash(prefix) == prefix.len() - 1);
    } else {
        assert(last_slash(prefix) == -1);
    }
    assert(p.subrange(last_slash(p) + 1, p.len() as int) =~= name);
}

/// The file name of the path that planning builds, a directory with a file
/// name pushed onto it, is the name that was pushed: the URL path's file
/// name, else the fallback.
pub proof fn lemma_planned_file_name(dir: Seq<char>, url_path: Seq<char>)
    ensures
        file_name_or_fallback(join_spec(dir, file_name_or_fallback(url_path))) == file_name_or_fallback(
            url_path,
        ),
{
    lemma_file_name_plain(url_path);
    if file_name_spec(url_path) is None {
        reveal_strlit("episode.mp3");
        let f = fallback_name();
        assert(f.len() == 11);
        assert(f[0] == 'e');
        assert forall|j: int| 0 <= j < f.len() implies #[trigger] f[j] != '/' by {
            reveal_strlit("episode.mp3");
        }
        assert(f != seq!['.']);
        assert(f != seq!['.', '.']);
    }
    lemma_join_file_name(dir, file_name_or_fallback(url_path));
}

/// Pushes `name` onto `base` as a path component.
pub fn join_path(base: &str, name: &str) -> (r: String)
    ensures
        r@ == join_spec(base@, name@),
{
    let nl = name.unicode_len();
    if nl > 0 && name.get_char(0) == '/' {
        return name.to_owned();
    }
    let bl = base.unicode_len();
    let sep = "/";
    proof {
        reveal_strlit("/");
    }
    if bl == 0 || base.get_char(bl - 1) == '/' {
        base.to_owned().concat(name)
    } else {
        base.to_owned().concat(sep).concat(name)
    }
}

/// Index of the last `/` among the first `end` characters of `p`, if any.
fn find_last_slash(p: &str, end: usize) -> (r: Option<usize>)
    requires
        end <= p@.len(),
    ensures
        match r {
            Some(k) => last_slash(p@.subrange(0, end as int)) == k,
            None => last_slash(p@.subrange(0, end as int)) == -1,
        },
{
    let mut j = end;
    while j > 0
        invariant
            j <= end <= p@.len(),
            last_slash(p@.subrange(0, end as int)) == last_slash(p@.subrange(0, j as int)),
        decreases j,
    {
        if p.get_char(j - 1) == '/' {
            assert(p@.subrange(0, j as int).last() == '/');
            return Some(j - 1);
        }
        assert(p@.subrange(0, j as int).drop_last() =~= p@.subrange(0, j - 1));
        j = j - 1;
    }
    None
}

/// The file name that the path `p` ends in, if it names one.
pub fn file_name_of(p: &str) -> (r: Option<String>)
    ensures
        match r {
            Some(n) => file_name_spec(p@) == Some(n@),
            None => file_name_spec(p@) is None,
        },
{
    let mut end = p.unicode_len();
    let dot = ".";
    let dotdot = "..";
    proof {
        reveal_strlit(".");
        reveal_strlit("..");
    }
    assert(p@.subrange(0, end as int) =~= p@);
    while end > 0
        invariant
            end <= p@.len(),
            file_name_spec(p@) == file_name_spec(p@.subrange(0, end as int)),
            dot@ == seq!['.'],
            dotdot@ == seq!['.', '.'],
        decreases end,
    {
        let ghost q = p@.subrange(0, end as int);
        proof {
            lemma_last_slash(q);
        }
        let k = find_last_slash(p, end);
        let start: usize = match k {
            Some(k) => k + 1,
            None => 0,
        };
        let seg = p.substring_char(start, end);
        assert(seg@ =~= q.subrange(last_slash(q) + 1, q.len() as int));
        let sl = seg.unicode_len();
        if sl == 0 || (sl == 1 && seg.get_char(0) == '.') {
            if sl == 1 {
                assert(seg@ =~= seq!['.']);
            }
            match k {
                Some(k) => {
                    assert(q.subrange(0, k as int) =~= p@.subrange(0, k as int));
                    end = k;
                },
                None => {
                    return None;
                },
            }
        } else if sl == 2 && seg.get_char(0) == '.' && seg.get_char(1) == '.' {
            assert(seg@ =~= seq!['.', '.']);
            return None;
        } else {
            assert(sl == 1 ==> seg@ != seq!['.']);
            assert(sl == 2 ==> seg@ != seq!['.', '.']);
            return Some(seg.to_owned());
        }
    }
    None
}

/// The file name of `p`, or the fallback name where it has none.
pub fn file_name_or_default(p: &str) -> (r: String)
    ensures
        r@ == file_name_or_fallback(p@),
{
    match file_name_of(p) {
        Some(n) => n,
        None => "episode.mp3".to_owned(),
    }
}

} // verus!
