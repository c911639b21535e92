use bsky_thread_and_blog_feed::does_the_post_belong_to_the_feed;
use bsky_thread_and_blog_feed::models::PostScoring;
use bsky_thread_and_blog_feed::models::TextInPost;

#[test]
fn test_post_scoring() {
    let post = "Welcome to the rust blog programming language blog!";
    let score = does_the_post_belong_to_the_feed(vec![TextInPost::Post(post.to_string())]);
    assert_eq!(
        score,
        Some(PostScoring {
            pinned: false,
            deleted: false,
            priority: 40
        })
    );
    println!("{:?}", score);
}

#[test]
fn topic_without_narrative_form_is_rejected() {
    let score = does_the_post_belong_to_the_feed(vec![TextInPost::Post(
        "just a random rust mention".to_string(),
    )]);
    assert_eq!(score, None);
}

#[test]
fn topic_and_narrative_form_scores_forty() {
    let score = does_the_post_belong_to_the_feed(vec![TextInPost::Post(
        "Here's a deep dive tutorial on Rust embedded dev".to_string(),
    )]);
    assert_eq!(
        score,
        Some(PostScoring {
            pinned: false,
            deleted: false,
            priority: 40
        })
    );
}

#[test]
fn empty_fragment_sequence_is_rejected() {
    assert_eq!(does_the_post_belong_to_the_feed(vec![]), None);
}

#[test]
fn narrative_form_without_topic_is_rejected() {
    let score = does_the_post_belong_to_the_feed(vec![TextInPost::Post(
        "a blog about gardening".to_string(),
    )]);
    assert_eq!(score, None);
}

#[test]
fn inappropriate_fragment_poisons_the_post() {
    let score = does_the_post_belong_to_the_feed(vec![TextInPost::Post(
        "fuck this rust blog tutorial".to_string(),
    )]);
    assert_eq!(score, None);
}

#[test]
fn denylisted_fragment_poisons_the_post() {
    let score = does_the_post_belong_to_the_feed(vec![TextInPost::Post(
        "trump reads this rust blog tutorial".to_string(),
    )]);
    assert_eq!(score, None);
}

#[test]
fn picture_fragment_uses_picture_weights() {
    let score =
        does_the_post_belong_to_the_feed(vec![TextInPost::Picture("rust blog".to_string())]);
    assert_eq!(
        score,
        Some(PostScoring {
            pinned: false,
            deleted: false,
            priority: 45
        })
    );
}

#[test]
fn video_fragment_uses_video_weights() {
    let score = does_the_post_belong_to_the_feed(vec![TextInPost::Video("rust blog".to_string())]);
    assert_eq!(
        score,
        Some(PostScoring {
            pinned: false,
            deleted: false,
            priority: 30
        })
    );
}

#[test]
fn external_fragment_uses_external_weights() {
    let score =
        does_the_post_belong_to_the_feed(vec![TextInPost::External("rust blog".to_string())]);
    assert_eq!(
        score,
        Some(PostScoring {
            pinned: false,
            deleted: false,
            priority: 45
        })
    );
}

#[test]
fn signals_accumulate_across_fragments() {
    let score = does_the_post_belong_to_the_feed(vec![
        TextInPost::Post("all about rust".to_string()),
        TextInPost::Post("my latest write-up".to_string()),
    ]);
    assert_eq!(
        score,
        Some(PostScoring {
            pinned: false,
            deleted: false,
            priority: 40
        })
    );
}

#[test]
fn acceptance_short_circuits_before_later_fragments() {
    // The first fragment alone establishes both signals, so the later
    // denylisted fragment is never scanned.
    let score = does_the_post_belong_to_the_feed(vec![
        TextInPost::Post("a rust blog".to_string()),
        TextInPost::Post("trump".to_string()),
    ]);
    assert_eq!(
        score,
        Some(PostScoring {
            pinned: false,
            deleted: false,
            priority: 40
        })
    );
}

#[test]
fn to_string_returns_the_fragment_text() {
    assert_eq!(TextInPost::Post("a".to_string()).to_string(), "a");
    assert_eq!(TextInPost::Picture("b".to_string()).to_string(), "b");
    assert_eq!(TextInPost::Video("c".to_string()).to_string(), "c");
    assert_eq!(TextInPost::External("d".to_string()).to_string(), "d");
}
