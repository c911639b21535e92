use bsky_thread_and_blog_feed::extract::extract_text;
use bsky_thread_and_blog_feed::extract::EmbedInfo;
use bsky_thread_and_blog_feed::extract::MediaInfo;
use bsky_thread_and_blog_feed::models::TextInPost;

fn texts(frags: Vec<TextInPost>) -> Vec<String> {
    frags.into_iter().map(|f| f.to_string()).collect()
}

#[test]
fn body_without_embed_yields_one_fragment() {
    let frags = extract_text("body".to_string(), None);
    assert_eq!(frags.len(), 1);
    assert!(matches!(&frags[0], TextInPost::Post(s) if s == "body"));
}

#[test]
fn video_embed_contributes_its_alt_text() {
    let frags = extract_text("body".to_string(), Some(EmbedInfo::Video("alt".to_string())));
    assert_eq!(frags.len(), 2);
    assert!(matches!(&frags[1], TextInPost::Video(s) if s == "alt"));
}

#[test]
fn external_embed_contributes_title_and_description() {
    let frags = extract_text(
        "body".to_string(),
        Some(EmbedInfo::External {
            title: "t".to_string(),
            description: "d".to_string(),
        }),
    );
    assert_eq!(texts(frags), vec!["body", "t", "d"]);
}

#[test]
fn bare_quote_contributes_nothing() {
    let frags = extract_text("body".to_string(), Some(EmbedInfo::Quote));
    assert_eq!(frags.len(), 1);
}

#[test]
fn images_contribute_one_fragment_each() {
    let frags = extract_text(
        "body".to_string(),
        Some(EmbedInfo::Images(vec!["a1".to_string(), "a2".to_string()])),
    );
    assert_eq!(frags.len(), 3);
    assert!(matches!(&frags[1], TextInPost::Picture(s) if s == "a1"));
    assert!(matches!(&frags[2], TextInPost::Picture(s) if s == "a2"));
}

#[test]
fn quoted_images_contribute_one_fragment_each() {
    let frags = extract_text(
        "body".to_string(),
        Some(EmbedInfo::QuoteWithMedia(MediaInfo::Images(vec![
            "alt".to_string()
        ]))),
    );
    assert_eq!(texts(frags), vec!["body", "alt"]);
}

#[test]
fn quoted_video_or_external_contributes_nothing() {
    let v = extract_text(
        "body".to_string(),
        Some(EmbedInfo::QuoteWithMedia(MediaInfo::Video)),
    );
    assert_eq!(v.len(), 1);
    let e = extract_text(
        "body".to_string(),
        Some(EmbedInfo::QuoteWithMedia(MediaInfo::External)),
    );
    assert_eq!(e.len(), 1);
}
