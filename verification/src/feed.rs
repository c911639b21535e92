use vstd::prelude::*;

use crate::classify::classify_spec;
use crate::classify::does_the_post_belong_to_the_feed;
use crate::extract::extract_spec;
use crate::extract::extract_text;
use crate::extract::opt_embed_view;
use crate::extract::EmbedInfo;
use crate::models::DbPost;
use crate::numtext::dec_rep;
use crate::numtext::fmt_dec;
use crate::numtext::lemma_dec_roundtrip;
use crate::numtext::parse_dec;
use crate::numtext::parse_dec_spec;
use crate::store::like_in;
use crate::store::min_int;
use crate::store::page_of;
use crate::store::to_db_row;
use crate::store::upsert_seq;
use crate::store::uri_in;
use crate::store::LikeV;
use crate::store::PostStore;
use crate::store::PostV;

verus! {

/// The most identifiers a single page may return.
pub const MAX_PAGE_LIMIT: u64 = 100;

/// A served page: post identifiers, newest first, and the continuation
/// cursor, absent at the end of the feed.
pub struct FeedPage {
    pub feed: Vec<String>,
    pub cursor: Option<String>,
}

/// The view of an optional borrowed cursor string.
pub open spec fn opt_str_view(c: Option<&str>) -> Option<Seq<char>> {
    match c {
        Option::None => Option::None,
        Option::Some(s) => Option::Some(s@),
    }
}

/// The view of an optional owned cursor string.
pub open spec fn opt_string_view(c: Option<String>) -> Option<Seq<char>> {
    match c {
        Option::None => Option::None,
        Option::Some(s) => Option::Some(s@),
    }
}

/// The offset a cursor denotes: absent or unparseable degrades to the start.
pub open spec fn cursor_offset_spec(c: Option<Seq<char>>) -> int {
    match c {
        Option::None => 0,
        Option::Some(s) => match parse_dec_spec(s) {
            Option::Some(v) => v as int,
            Option::None => 0,
        },
    }
}

/// The identifiers a page request returns: the requested window of the
/// visible rows, with the limit clamped to MAX_PAGE_LIMIT.
pub open spec fn serve_items_spec(
    vis: Seq<PostV>,
    limit: int,
    cursor: Option<Seq<char>>,
) -> Seq<Seq<char>> {
    page_of(vis, min_int(limit, MAX_PAGE_LIMIT as int), cursor_offset_spec(cursor)).map_values(
        |p: PostV| p.uri,
    )
}

/// The continuation cursor: present and encoding offset + returned count
/// exactly when visible rows remain past this page.
pub open spec fn serve_cursor_spec(
    vis: Seq<PostV>,
    limit: int,
    cursor: Option<Seq<char>>,
) -> Option<Seq<char>> {
    let off = cursor_offset_spec(cursor);
    let cnt = serve_items_spec(vis, limit, cursor).len() as int;
    if off + cnt < vis.len() {
        Option::Some(dec_rep(off + cnt))
    } else {
        Option::None
    }
}

/// Serves one page of the feed: at most `limit` identifiers of non-deleted
/// posts (clamped to MAX_PAGE_LIMIT), newest first, starting at the offset
/// the cursor denotes, with the continuation cursor of serve_cursor_spec.
pub fn serve(store: &PostStore, limit: u64, cursor: Option<&str>) -> (r: FeedPage)
    ensures
        r.feed@.map_values(|u: String| u@) == serve_items_spec(
            store.visible(),
            limit as int,
            opt_str_view(cursor),
        ),
        opt_string_view(r.cursor) == serve_cursor_spec(
            store.visible(),
            limit as int,
            opt_str_view(cursor),
        ),
{
    let ghost vis = store.visible();
    let off: usize = match cursor {
        Option::None => 0,
        Option::Some(c) => match parse_dec(c) {
            Option::Some(v) => v,
            Option::None => 0,
        },
    };
    proof {
        assert(off as int == cursor_offset_spec(opt_str_view(cursor)));
    }
    let lim_u64: u64 = if limit < MAX_PAGE_LIMIT {
        limit
    } else {
        MAX_PAGE_LIMIT
    };
    let lim: usize = lim_u64 as usize;
    proof {
        assert(lim as int == min_int(limit as int, MAX_PAGE_LIMIT as int));
    }
    let rows = store.query_page(lim, off);
    let ghost window = page_of(vis, lim as int, off as int);
    let mut feed: Vec<String> = Vec::new();
    let mut j: usize = 0;
    proof {
        assert(rows@.map_values(|d: DbPost| d@).len() == rows@.len());
        assert(window.map_values(|p: PostV| to_db_row(p)).len() == window.len());
        assert(feed@.map_values(|u: String| u@) =~= window.map_values(|p: PostV| p.uri).take(0));
    }
    while j < rows.len()
        invariant
            0 <= j <= rows.len(),
            rows@.len() == window.len(),
            rows@.map_values(|d: DbPost| d@) == window.map_values(|p: PostV| to_db_row(p)),
            feed@.map_values(|u: String| u@) == window.map_values(|p: PostV| p.uri).take(j as int),
        decreases rows.len() - j,
    {
        let ghost feed_before = feed@;
        feed.push(rows[j].uri.clone());
        proof {
            assert(feed_before.map_values(|u: String| u@).len() == feed_before.len());
            assert(window.map_values(|p: PostV| p.uri).len() == window.len());
            assert(window.map_values(|p: PostV| p.uri).take(j as int).len() == j as int);
            assert(feed_before.len() == j as int);
            assert(feed@ == feed_before.push(rows@[j as int].uri));
            assert(feed@.len() == j as int + 1);
            assert(rows@[j as int]@ == rows@.map_values(|d: DbPost| d@)[j as int]);
            assert(window.map_values(|p: PostV| to_db_row(p))[j as int] == to_db_row(
                window[j as int],
            ));
            assert(rows@[j as int].uri@ == window[j as int].uri);
            assert forall|m: int| 0 <= m < feed@.len() implies feed@.map_values(
                |u: String| u@,
            )[m] == window.map_values(|p: PostV| p.uri).take(j as int + 1)[m] && #[trigger] feed@[m]
                == feed@[m] by {
                assert(feed@.map_values(|u: String| u@)[m] == feed@[m]@);
                if m < feed_before.len() {
                    assert(feed@[m] == feed_before[m]);
                    assert(feed_before.map_values(|u: String| u@)[m] == feed_before[m]@);
                } else {
                    assert(feed@[m] == rows@[j as int].uri);
                    assert(window.map_values(|p: PostV| p.uri)[m] == window[m].uri);
                }
            }
            assert(feed@.map_values(|u: String| u@) =~= window.map_values(|p: PostV| p.uri).take(
                j as int + 1,
            ));
        }
        j += 1;
    }
    proof {
        assert(window.map_values(|p: PostV| p.uri).take(rows@.len() as int) =~= window.map_values(
            |p: PostV| p.uri,
        ));
    }
    let total: u64 = store.count();
    let cnt = feed.len();
    proof {
        store.lemma_len_bounds();
        assert(cnt as int == window.len());
        assert(window.len() <= vis.len() - min_int(off as int, vis.len() as int));
        if off as int >= vis.len() {
            assert(window.len() == 0);
        }
        assert((off as int + cnt as int) <= usize::MAX as int || cnt == 0);
    }
    if (off as u64) <= u64::MAX - (cnt as u64) && (off as u64) + (cnt as u64) < total {
        proof {
            assert((off as int + cnt as int) < vis.len() as int);
            assert(off + cnt <= usize::MAX);
            lemma_dec_roundtrip((off + cnt) as usize);
        }
        let next = fmt_dec(off + cnt);
        FeedPage { feed, cursor: Option::Some(next) }
    } else {
        proof {
            assert(!((off as int + cnt as int) < vis.len() as int));
        }
        FeedPage { feed, cursor: Option::None }
    }
}

/// Ingests one upstream post event: extracts the text fragments, runs the
/// classifier on them, and upserts the post with the computed priority when
/// it is accepted; a rejected post leaves the store untouched. Returns the
/// stored priority, or None for a rejected post.
pub fn on_new_post(
    store: &mut PostStore,
    uri: String,
    text: String,
    embed: Option<EmbedInfo>,
    timestamp: i64,
) -> (stored: Option<i64>)
    requires
        old(store).wf(),
    ensures
        final(store).wf(),
        final(store).likes_seq() == old(store).likes_seq(),
        match classify_spec(extract_spec(text@, opt_embed_view(embed))) {
            Option::Some(s) => stored == Some(s.priority) && final(store).posts_seq()
                == upsert_seq(
                old(store).posts_seq(),
                PostV {
                    uri: uri@,
                    text: text@,
                    pinned: false,
                    deleted: false,
                    priority: s.priority as int,
                    timestamp: timestamp as int,
                },
            ),
            Option::None => stored is None && *final(store) == *old(store),
        },
{
    let frags = extract_text(text.clone(), embed);
    let verdict = does_the_post_belong_to_the_feed(frags);
    match verdict {
        Option::None => Option::None,
        Option::Some(scoring) => {
            let priority = scoring.priority;
            store.insert_or_replace(uri, text, priority, timestamp);
            Option::Some(priority)
        },
    }
}

/// Handles one upstream like event: records the like when its post is
/// retained (a silent no-op otherwise, or when the pair is already present),
/// and reports whether the liker is the feed owner — the caller then runs a
/// secondary classification pass on the liked post's fetched text.
pub fn on_like(
    store: &mut PostStore,
    like_uri: String,
    liked_post_uri: String,
    liker_did: &String,
    feed_owner_did: &String,
) -> (owner_like: bool)
    requires
        old(store).wf(),
    ensures
        final(store).wf(),
        owner_like == (liker_did@ == feed_owner_did@),
        final(store).posts_seq() == old(store).posts_seq(),
        final(store).likes_seq() == (if uri_in(old(store).posts_seq(), liked_post_uri@) && !like_in(
            old(store).likes_seq(),
            LikeV { post_uri: liked_post_uri@, like_uri: like_uri@ },
        ) {
            old(store).likes_seq().push(
                LikeV { post_uri: liked_post_uri@, like_uri: like_uri@ },
            )
        } else {
            old(store).likes_seq()
        }),
{
    let owner_like = *liker_did == *feed_owner_did;
    store.add_like(liked_post_uri, like_uri);
    owner_like
}

/// The identifiers that a full pagination walk yields: the page at this
/// offset, then, as long as a continuation cursor would be returned, the walk
/// from the offset that cursor encodes.
pub open spec fn walk_uris(vis: Seq<PostV>, limit: int, off: int) -> Seq<Seq<char>>
    decreases vis.len() - off,
    when 1 <= limit && 0 <= off
{
    let items = page_of(vis, limit, off).map_values(|p: PostV| p.uri);
    if off + items.len() < vis.len() {
        items + walk_uris(vis, limit, off + items.len() as int)
    } else {
        items
    }
}

/// The pagination walk from an offset yields exactly the identifiers of the
/// visible rows from that offset on, in order.
proof fn lemma_pagination_walk(vis: Seq<PostV>, limit: int, off: int)
    requires
        1 <= limit,
        0 <= off <= vis.len(),
    ensures
        walk_uris(vis, limit, off) == vis.skip(off).map_values(|p: PostV| p.uri),
    decreases vis.len() - off,
{
    let window = page_of(vis, limit, off);
    let items = window.map_values(|p: PostV| p.uri);
    let tail = vis.skip(off).map_values(|p: PostV| p.uri);
    assert(items.len() == window.len());
    if off + items.len() < vis.len() {
        lemma_pagination_walk(vis, limit, off + items.len() as int);
        let rest = vis.skip(off + items.len() as int).map_values(|p: PostV| p.uri);
        assert forall|m: int| 0 <= m < tail.len() implies (items + rest)[m] == tail[m] by {
            assert(tail[m] == vis.skip(off)[m].uri);
            assert(vis.skip(off)[m] == vis[off + m]);
            if m < items.len() {
                assert(items[m] == window[m].uri);
                assert(window[m] == vis[off + m]);
            } else {
                assert(rest[m - items.len()] == vis.skip(off + items.len() as int)[m
                    - items.len()].uri);
                assert(vis.skip(off + items.len() as int)[m - items.len()] == vis[off + m]);
            }
        }
        assert(walk_uris(vis, limit, off) =~= tail);
    } else {
        assert forall|m: int| 0 <= m < tail.len() implies items[m] == tail[m] by {
            assert(tail[m] == vis.skip(off)[m].uri);
            assert(vis.skip(off)[m] == vis[off + m]);
            assert(items[m] == window[m].uri);
            assert(window[m] == vis[off + m]);
        }
        assert(walk_uris(vis, limit, off) =~= tail);
    }
}

/// Pagination exhaustiveness and no-gap: concatenating all the pages of a
/// full walk, started with no cursor and followed through every continuation
/// cursor, yields every visible post's identifier exactly once, newest first.
pub proof fn lemma_pagination_exhaustive(vis: Seq<PostV>, limit: int)
    requires
        1 <= limit,
    ensures
        walk_uris(vis, limit, 0) == vis.map_values(|p: PostV| p.uri),
{
    lemma_pagination_walk(vis, limit, 0);
    assert(vis.skip(0) =~= vis);
}

/// A returned continuation cursor parses back to exactly the offset the next
/// page should start at: the offset served plus the count returned.
pub proof fn lemma_cursor_continues(vis: Seq<PostV>, limit: int, cursor: Option<Seq<char>>)
    requires
        vis.len() <= usize::MAX as int,
    ensures
        serve_cursor_spec(vis, limit, cursor) matches Option::Some(c) ==> cursor_offset_spec(
            Option::Some(c),
        ) == cursor_offset_spec(cursor) + serve_items_spec(vis, limit, cursor).len(),
{
    let off = cursor_offset_spec(cursor);
    let cnt = serve_items_spec(vis, limit, cursor).len() as int;
    if serve_cursor_spec(vis, limit, cursor) is Some {
        assert(off + cnt < vis.len());
        assert(0 <= off);
        lemma_dec_roundtrip((off + cnt) as usize);
    }
}

/// Cursor robustness: a cursor that does not parse as an offset behaves
/// exactly like an absent cursor.
pub proof fn lemma_cursor_robustness(vis: Seq<PostV>, limit: int, garbage: Seq<char>)
    requires
        parse_dec_spec(garbage) is None,
    ensures
        serve_items_spec(vis, limit, Option::Some(garbage)) == serve_items_spec(
            vis,
            limit,
            Option::None,
        ),
        serve_cursor_spec(vis, limit, Option::Some(garbage)) == serve_cursor_spec(
            vis,
            limit,
            Option::None,
        ),
{
}

} // verus!
