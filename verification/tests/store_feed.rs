use bsky_thread_and_blog_feed::extract::EmbedInfo;
use bsky_thread_and_blog_feed::feed::on_like;
use bsky_thread_and_blog_feed::feed::on_new_post;
use bsky_thread_and_blog_feed::feed::serve;
use bsky_thread_and_blog_feed::store::PostStore;

fn uris(rows: Vec<bsky_thread_and_blog_feed::models::DbPost>) -> Vec<String> {
    rows.into_iter().map(|r| r.uri).collect()
}

#[test]
fn upsert_is_idempotent_by_uri() {
    let mut st = PostStore::new();
    st.insert_or_replace("at://a".to_string(), "first".to_string(), 10, 100);
    st.insert_or_replace("at://a".to_string(), "second".to_string(), 55, 200);
    assert_eq!(st.count(), 1);
    let rows = st.query_page(10, 0);
    assert_eq!(rows.len(), 1);
    assert_eq!(rows[0].uri, "at://a");
    assert_eq!(rows[0].text, "second");
    assert_eq!(rows[0].priority, 55);
    assert!(!rows[0].pinned);
    assert!(!rows[0].deleted);
}

#[test]
fn query_orders_newest_first() {
    let mut st = PostStore::new();
    st.insert_or_replace("old".to_string(), "o".to_string(), 1, 100);
    st.insert_or_replace("new".to_string(), "n".to_string(), 1, 300);
    st.insert_or_replace("mid".to_string(), "m".to_string(), 1, 200);
    assert_eq!(uris(st.query_page(10, 0)), vec!["new", "mid", "old"]);
    assert_eq!(uris(st.query_page(2, 1)), vec!["mid", "old"]);
}

#[test]
fn delete_cascades_likes_and_count_excludes_removed() {
    let mut st = PostStore::new();
    st.insert_or_replace("p1".to_string(), "t".to_string(), 1, 100);
    st.insert_or_replace("p2".to_string(), "t".to_string(), 1, 200);
    st.add_like("p1".to_string(), "l1".to_string());
    st.add_like("p1".to_string(), "l2".to_string());
    st.add_like("p2".to_string(), "l3".to_string());
    assert_eq!(st.like_count(), 3);
    st.delete(&"p1".to_string());
    assert_eq!(st.count(), 1);
    assert_eq!(st.like_count(), 1);
    assert_eq!(uris(st.query_page(10, 0)), vec!["p2"]);
}

#[test]
fn delete_of_absent_uri_is_a_no_op() {
    let mut st = PostStore::new();
    st.insert_or_replace("p1".to_string(), "t".to_string(), 1, 100);
    st.delete(&"missing".to_string());
    assert_eq!(st.count(), 1);
}

#[test]
fn like_requires_a_present_post() {
    let mut st = PostStore::new();
    st.add_like("ghost".to_string(), "l1".to_string());
    assert_eq!(st.like_count(), 0);
    st.insert_or_replace("p1".to_string(), "t".to_string(), 1, 100);
    st.add_like("p1".to_string(), "l1".to_string());
    assert_eq!(st.like_count(), 1);
}

#[test]
fn add_like_is_idempotent_per_pair() {
    let mut st = PostStore::new();
    st.insert_or_replace("p1".to_string(), "t".to_string(), 1, 100);
    st.add_like("p1".to_string(), "l1".to_string());
    st.add_like("p1".to_string(), "l1".to_string());
    assert_eq!(st.like_count(), 1);
    st.add_like("p1".to_string(), "l2".to_string());
    assert_eq!(st.like_count(), 2);
}

#[test]
fn remove_like_removes_by_like_uri() {
    let mut st = PostStore::new();
    st.insert_or_replace("p1".to_string(), "t".to_string(), 1, 100);
    st.add_like("p1".to_string(), "l1".to_string());
    st.add_like("p1".to_string(), "l2".to_string());
    st.remove_like(&"l1".to_string());
    assert_eq!(st.like_count(), 1);
    st.remove_like(&"l1".to_string());
    assert_eq!(st.like_count(), 1);
}

#[test]
fn eviction_keeps_the_most_recent_posts() {
    let mut st = PostStore::new();
    for i in 1..=5_i64 {
        st.insert_or_replace(format!("p{}", i), "t".to_string(), 1, i * 100);
    }
    st.add_like("p1".to_string(), "l1".to_string());
    st.add_like("p5".to_string(), "l5".to_string());
    let evicted = st.evict(3);
    assert_eq!(evicted, 2);
    assert_eq!(st.count(), 3);
    assert_eq!(uris(st.query_page(10, 0)), vec!["p5", "p4", "p3"]);
    // the like on the evicted p1 is cascaded away, the one on p5 stays
    assert_eq!(st.like_count(), 1);
}

#[test]
fn eviction_below_cap_changes_nothing() {
    let mut st = PostStore::new();
    st.insert_or_replace("p1".to_string(), "t".to_string(), 1, 100);
    assert_eq!(st.evict(10), 0);
    assert_eq!(st.count(), 1);
}

#[test]
fn end_to_end_three_posts_two_pages() {
    let accepted_text = "Here's a deep dive tutorial on Rust embedded dev";
    let mut st = PostStore::new();
    assert_eq!(
        on_new_post(&mut st, "A".to_string(), accepted_text.to_string(), None, 100),
        Some(40)
    );
    assert_eq!(
        on_new_post(&mut st, "B".to_string(), accepted_text.to_string(), None, 200),
        Some(40)
    );
    assert_eq!(
        on_new_post(&mut st, "C".to_string(), accepted_text.to_string(), None, 300),
        Some(40)
    );
    let page1 = serve(&st, 2, None);
    assert_eq!(page1.feed, vec!["C", "B"]);
    assert_eq!(page1.cursor, Some("2".to_string()));
    let page2 = serve(&st, 2, Some("2"));
    assert_eq!(page2.feed, vec!["A"]);
    assert_eq!(page2.cursor, None);
}

#[test]
fn rejected_post_is_not_stored() {
    let mut st = PostStore::new();
    assert_eq!(
        on_new_post(
            &mut st,
            "A".to_string(),
            "nothing relevant here".to_string(),
            None,
            100
        ),
        None
    );
    assert_eq!(st.count(), 0);
}

#[test]
fn embedded_image_alt_text_can_qualify_a_post() {
    let mut st = PostStore::new();
    let stored = on_new_post(
        &mut st,
        "A".to_string(),
        "look at this".to_string(),
        Some(EmbedInfo::Images(vec!["my rust blog tutorial".to_string()])),
        100,
    );
    assert_eq!(stored, Some(45));
    assert_eq!(st.count(), 1);
}

#[test]
fn garbage_cursor_behaves_like_no_cursor() {
    let mut st = PostStore::new();
    for i in 1..=4_i64 {
        st.insert_or_replace(format!("p{}", i), "t".to_string(), 1, i * 100);
    }
    let with_garbage = serve(&st, 2, Some("garbage-not-a-number"));
    let without = serve(&st, 2, None);
    assert_eq!(with_garbage.feed, without.feed);
    assert_eq!(with_garbage.cursor, without.cursor);
}

#[test]
fn pagination_walk_yields_every_post_once() {
    let mut st = PostStore::new();
    for i in 1..=7_i64 {
        st.insert_or_replace(format!("p{}", i), "t".to_string(), 1, i * 100);
    }
    let mut collected: Vec<String> = Vec::new();
    let mut cursor: Option<String> = None;
    loop {
        let page = serve(&st, 3, cursor.as_deref());
        collected.extend(page.feed);
        match page.cursor {
            Some(c) => cursor = Some(c),
            None => break,
        }
    }
    assert_eq!(collected, vec!["p7", "p6", "p5", "p4", "p3", "p2", "p1"]);
}

#[test]
fn zero_limit_yields_an_empty_page() {
    let mut st = PostStore::new();
    st.insert_or_replace("p1".to_string(), "t".to_string(), 1, 100);
    let page = serve(&st, 0, None);
    assert_eq!(page.feed.len(), 0);
    assert_eq!(page.cursor, Some("0".to_string()));
}

#[test]
fn serve_on_empty_store_ends_the_feed() {
    let st = PostStore::new();
    let page = serve(&st, 5, None);
    assert_eq!(page.feed.len(), 0);
    assert_eq!(page.cursor, None);
}

#[test]
fn owner_like_is_reported_for_secondary_pass() {
    let mut st = PostStore::new();
    st.insert_or_replace("p1".to_string(), "t".to_string(), 1, 100);
    let owner = "did:plc:owner".to_string();
    let other = "did:plc:other".to_string();
    assert!(on_like(
        &mut st,
        "l1".to_string(),
        "p1".to_string(),
        &owner,
        &owner
    ));
    assert!(!on_like(
        &mut st,
        "l2".to_string(),
        "p1".to_string(),
        &other,
        &owner
    ));
    assert_eq!(st.like_count(), 2);
}

#[test]
fn timestamp_ties_paginate_consistently() {
    let mut st = PostStore::new();
    st.insert_or_replace("a".to_string(), "t".to_string(), 1, 100);
    st.insert_or_replace("b".to_string(), "t".to_string(), 1, 100);
    st.insert_or_replace("c".to_string(), "t".to_string(), 1, 100);
    let all = uris(st.query_page(10, 0));
    assert_eq!(all.len(), 3);
    let mut paged = uris(st.query_page(2, 0));
    paged.extend(uris(st.query_page(2, 2)));
    assert_eq!(paged, all);
}
