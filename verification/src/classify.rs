use vstd::prelude::*;

use crate::models::FragmentKind;
use crate::models::FragmentV;
use crate::models::PostScoring;
use crate::models::TextInPost;
use crate::signals::deny_match;
use crate::signals::flagged_inappropriate;
use crate::signals::form_match;
use crate::signals::is_flagged_inappropriate;
use crate::signals::matches_deny;
use crate::signals::matches_form;
use crate::signals::matches_topic;
use crate::signals::topic_match;

verus! {

/// Weight that a topic match adds to the running score, by fragment provenance.
pub open spec fn topic_weight(kind: FragmentKind) -> int {
    match kind {
        FragmentKind::Post => 10,
        FragmentKind::Picture => 15,
        FragmentKind::Video => 15,
        FragmentKind::External => 15,
    }
}

/// Weight that a narrative-form match adds to the running score, by fragment
/// provenance.
pub open spec fn form_weight(kind: FragmentKind) -> int {
    match kind {
        FragmentKind::Post => 30,
        FragmentKind::Picture => 30,
        FragmentKind::Video => 15,
        FragmentKind::External => 30,
    }
}

/// A fragment that the safety gate or the denylist gate flags poisons the
/// whole post.
pub open spec fn fragment_rejected(f: FragmentV) -> bool {
    flagged_inappropriate(f.text) || deny_match(f.text)
}

/// Addition on the running score that cannot leave the i64 range: it
/// saturates at i64::MAX instead of overflowing.
pub open spec fn sat_add(a: int, b: int) -> int {
    if a + b > i64::MAX as int {
        i64::MAX as int
    } else {
        a + b
    }
}

/// The score after one fragment is scored: each matching signal adds its
/// provenance-specific weight.
pub open spec fn fragment_score(f: FragmentV, score: int) -> int {
    let after_topic = if topic_match(f.text) {
        sat_add(score, topic_weight(f.kind))
    } else {
        score
    };
    if form_match(f.text) {
        sat_add(after_topic, form_weight(f.kind))
    } else {
        after_topic
    }
}

/// The classifier's scan from one intermediate state: `fits_topic` and
/// `narrative_form` record the signals established by fragments already
/// scanned, `score` their accumulated weight. The scan rejects on a flagged
/// fragment, accepts as soon as both signals hold, and rejects at the end of
/// the sequence.
pub open spec fn classify_rec(
    frags: Seq<FragmentV>,
    fits_topic: bool,
    narrative_form: bool,
    score: int,
) -> Option<int>
    decreases frags.len(),
{
    if frags.len() == 0 {
        None
    } else {
        let f = frags[0];
        if fragment_rejected(f) {
            None
        } else {
            let fits2 = fits_topic || topic_match(f.text);
            let form2 = narrative_form || form_match(f.text);
            let score2 = fragment_score(f, score);
            if fits2 && form2 {
                Some(score2)
            } else {
                classify_rec(frags.drop_first(), fits2, form2, score2)
            }
        }
    }
}

/// The classifier's verdict on a fragment sequence: the scan started with no
/// signal established and a zero score.
pub open spec fn classify_spec(frags: Seq<FragmentV>) -> Option<PostScoring> {
    match classify_rec(frags, false, false, 0) {
        Some(score) => Some(
            PostScoring { pinned: false, deleted: false, priority: score as i64 },
        ),
        None => None,
    }
}

/// A scan whose running score starts in the i64 range keeps every score it
/// ever returns in that range, and never below its starting score's sign.
proof fn lemma_classify_rec_range(frags: Seq<FragmentV>, fits: bool, form: bool, score: int)
    requires
        0 <= score <= i64::MAX,
    ensures
        classify_rec(frags, fits, form, score) matches Some(s) ==> 0 <= s <= i64::MAX,
    decreases frags.len(),
{
    if frags.len() > 0 {
        let f = frags[0];
        if !fragment_rejected(f) {
            let fits2 = fits || topic_match(f.text);
            let form2 = form || form_match(f.text);
            let score2 = fragment_score(f, score);
            assert(0 <= score2 <= i64::MAX);
            if !(fits2 && form2) {
                lemma_classify_rec_range(frags.drop_first(), fits2, form2, score2);
            }
        }
    }
}

/// Classifier totality: on every fragment sequence, the empty one included,
/// the verdict is either None or a scoring with a non-negative priority and
/// both lifecycle flags clear.
pub proof fn lemma_classifier_total(frags: Seq<FragmentV>)
    ensures
        classify_spec(frags) matches Some(s) ==> s.priority >= 0 && !s.pinned && !s.deleted,
{
    lemma_classify_rec_range(frags, false, false, 0);
}

/// From any intermediate state: a flagged fragment at position i rejects the
/// whole sequence, provided the scan on the prefix before it did not already
/// accept.
proof fn lemma_rec_safety(frags: Seq<FragmentV>, fits: bool, form: bool, score: int, i: int)
    requires
        0 <= i < frags.len(),
        flagged_inappropriate(frags[i].text),
        classify_rec(frags.take(i), fits, form, score) is None,
    ensures
        classify_rec(frags, fits, form, score) is None,
    decreases i,
{
    let f = frags[0];
    if i == 0 {
        assert(fragment_rejected(f));
    } else {
        assert(frags.take(i)[0] == f);
        if !fragment_rejected(f) {
            let fits2 = fits || topic_match(f.text);
            let form2 = form || form_match(f.text);
            let score2 = fragment_score(f, score);
            assert(!(fits2 && form2));
            let rest = frags.drop_first();
            assert(frags.take(i).drop_first() =~= rest.take(i - 1));
            assert(rest[i - 1] == frags[i]);
            lemma_rec_safety(rest, fits2, form2, score2, i - 1);
        }
    }
}

/// Safety precedence: a fragment flagged unsafe rejects the whole post,
/// whatever any other fragment matches, as long as the scan reaches it — that
/// is, as long as the fragments before it did not already accept the post.
pub proof fn lemma_safety_precedence(frags: Seq<FragmentV>, i: int)
    requires
        0 <= i < frags.len(),
        flagged_inappropriate(frags[i].text),
        classify_spec(frags.take(i)) is None,
    ensures
        classify_spec(frags) is None,
{
    lemma_rec_safety(frags, false, false, 0, i);
}

/// No fragment among the first k is flagged by the safety gate or the
/// denylist gate.
pub open spec fn clean_prefix(frags: Seq<FragmentV>, k: int) -> bool {
    forall|j: int| 0 <= j < k ==> !fragment_rejected(#[trigger] frags[j])
}

/// Some fragment among the first k matches the on-topic pattern.
pub open spec fn has_topic_before(frags: Seq<FragmentV>, k: int) -> bool {
    exists|j: int| 0 <= j < k && topic_match(#[trigger] frags[j].text)
}

/// Some fragment among the first k matches the narrative-form pattern.
pub open spec fn has_form_before(frags: Seq<FragmentV>, k: int) -> bool {
    exists|j: int| 0 <= j < k && form_match(#[trigger] frags[j].text)
}

/// The first k fragments pass both gates and establish both signals, with the
/// intermediate state (fits, form) counting as already established.
pub open spec fn accepting_prefix_from(
    frags: Seq<FragmentV>,
    fits: bool,
    form: bool,
    k: int,
) -> bool {
    &&& 1 <= k <= frags.len()
    &&& clean_prefix(frags, k)
    &&& (fits || has_topic_before(frags, k))
    &&& (form || has_form_before(frags, k))
}

/// The first k fragments pass both gates and establish both the topic signal
/// and the narrative-form signal.
pub open spec fn accepting_prefix(frags: Seq<FragmentV>, k: int) -> bool {
    accepting_prefix_from(frags, false, false, k)
}

/// From any intermediate state: the scan accepts exactly when some prefix of
/// the remaining fragments is clean and completes both signals.
proof fn lemma_rec_acceptance(frags: Seq<FragmentV>, fits: bool, form: bool, score: int)
    ensures
        classify_rec(frags, fits, form, score) is Some <==> exists|k: int|
            accepting_prefix_from(frags, fits, form, k),
    decreases frags.len(),
{
    if frags.len() == 0 {
        assert(forall|k: int| !accepting_prefix_from(frags, fits, form, k));
    } else {
        let f = frags[0];
        let rest = frags.drop_first();
        if fragment_rejected(f) {
            assert(forall|k: int| accepting_prefix_from(frags, fits, form, k) ==> !fragment_rejected(
                frags[0],
            ));
        } else {
            let fits2 = fits || topic_match(f.text);
            let form2 = form || form_match(f.text);
            let score2 = fragment_score(f, score);
            if fits2 && form2 {
                assert(clean_prefix(frags, 1));
                if !fits {
                    assert(topic_match(frags[0].text));
                    assert(has_topic_before(frags, 1));
                }
                if !form {
                    assert(has_form_before(frags, 1));
                }
                assert(accepting_prefix_from(frags, fits, form, 1));
            } else {
                lemma_rec_acceptance(rest, fits2, form2, score2);
                if classify_rec(frags, fits, form, score) is Some {
                    let k2 = choose|k2: int| accepting_prefix_from(rest, fits2, form2, k2);
                    let k = k2 + 1;
                    assert forall|j: int| 0 <= j < k implies !fragment_rejected(
                        #[trigger] frags[j],
                    ) by {
                        if j > 0 {
                            assert(!fragment_rejected(rest[j - 1]));
                        }
                    }
                    if !fits {
                        if fits2 {
                            assert(has_topic_before(frags, k));
                        } else {
                            let j2 = choose|j2: int|
                                0 <= j2 < k2 && topic_match(#[trigger] rest[j2].text);
                            assert(topic_match(frags[j2 + 1].text));
                            assert(has_topic_before(frags, k));
                        }
                    }
                    if !form {
                        if form2 {
                            assert(has_form_before(frags, k));
                        } else {
                            let j2 = choose|j2: int|
                                0 <= j2 < k2 && form_match(#[trigger] rest[j2].text);
                            assert(form_match(frags[j2 + 1].text));
                            assert(has_form_before(frags, k));
                        }
                    }
                    assert(accepting_prefix_from(frags, fits, form, k));
                }
                if exists|k: int| accepting_prefix_from(frags, fits, form, k) {
                    let k = choose|k: int| accepting_prefix_from(frags, fits, form, k);
                    if k == 1 {
                        if !fits {
                            let j = choose|j: int|
                                0 <= j < 1 && topic_match(#[trigger] frags[j].text);
                            assert(topic_match(f.text));
                        }
                        if !form {
                            let j = choose|j: int|
                                0 <= j < 1 && form_match(#[trigger] frags[j].text);
                            assert(form_match(f.text));
                        }
                        assert(fits2 && form2);
                        assert(false);
                    } else {
                        let k2 = k - 1;
                        assert forall|j: int| 0 <= j < k2 implies !fragment_rejected(
                            #[trigger] rest[j],
                        ) by {
                            assert(!fragment_rejected(frags[j + 1]));
                        }
                        if !fits2 {
                            let j = choose|j: int|
                                0 <= j < k && topic_match(#[trigger] frags[j].text);
                            assert(j != 0);
                            assert(topic_match(rest[j - 1].text));
                            assert(has_topic_before(rest, k2));
                        }
                        if !form2 {
                            let j = choose|j: int|
                                0 <= j < k && form_match(#[trigger] frags[j].text);
                            assert(j != 0);
                            assert(form_match(rest[j - 1].text));
                            assert(has_form_before(rest, k2));
                        }
                        assert(accepting_prefix_from(rest, fits2, form2, k2));
                    }
                }
            }
        }
    }
}

/// Acceptance requires both signals: the classifier accepts exactly when some
/// prefix of the fragments, scanned in order, passes both gates and matches
/// both the on-topic pattern and the narrative-form pattern before the
/// sequence ends.
pub proof fn lemma_acceptance_requires_both(frags: Seq<FragmentV>)
    ensures
        classify_spec(frags) is Some <==> exists|k: int| accepting_prefix(frags, k),
{
    lemma_rec_acceptance(frags, false, false, 0);
    if classify_spec(frags) is Some {
        let k = choose|k: int| accepting_prefix_from(frags, false, false, k);
        assert(accepting_prefix(frags, k));
    }
    if exists|k: int| accepting_prefix(frags, k) {
        let k = choose|k: int| accepting_prefix(frags, k);
        assert(accepting_prefix_from(frags, false, false, k));
    }
}

/// Saturating score addition, proved against sat_add.
fn sat_add_i64(a: i64, b: i64) -> (r: i64)
    requires
        a >= 0,
        b >= 0,
    ensures
        r as int == sat_add(a as int, b as int),
{
    if a <= i64::MAX - b {
        a + b
    } else {
        i64::MAX
    }
}

/// Decides whether a post belongs to the feed, scanning its text fragments in
/// order, and scores it if it does.
pub fn does_the_post_belong_to_the_feed(all_text_in_post: Vec<TextInPost>) -> (r: Option<
    PostScoring,
>)
    ensures
        r == classify_spec(all_text_in_post@.map_values(|t: TextInPost| t@)),
{
    let ghost frags = all_text_in_post@.map_values(|t: TextInPost| t@);
    proof {
        assert(frags.skip(0) =~= frags);
    }
    let mut fits_topic = false;
    let mut narrative_form = false;
    let mut score: i64 = 0;
    let mut i: usize = 0;
    while i < all_text_in_post.len()
        invariant
            0 <= i <= all_text_in_post.len(),
            frags == all_text_in_post@.map_values(|t: TextInPost| t@),
            score >= 0,
            !(fits_topic && narrative_form),
            classify_rec(frags, false, false, 0) == classify_rec(
                frags.skip(i as int),
                fits_topic,
                narrative_form,
                score as int,
            ),
        decreases all_text_in_post.len() - i,
    {
        let ghost fits0 = fits_topic;
        let ghost form0 = narrative_form;
        let ghost score0 = score as int;
        proof {
            assert(frags.skip(i as int)[0] == frags[i as int]);
            assert(frags.skip(i as int).drop_first() =~= frags.skip(i as int + 1));
        }
        let frag = &all_text_in_post[i];
        let (text, topic_w, form_w): (&String, i64, i64) = match frag {
            TextInPost::Post(s) => (s, 10, 30),
            TextInPost::Picture(s) => (s, 15, 30),
            TextInPost::Video(s) => (s, 15, 15),
            TextInPost::External(s) => (s, 15, 30),
        };
        proof {
            assert(frags[i as int] == frag@);
            assert(text@ == frags[i as int].text);
            assert(topic_w as int == topic_weight(frags[i as int].kind));
            assert(form_w as int == form_weight(frags[i as int].kind));
        }
        if is_flagged_inappropriate(text.as_str()) {
            return None;
        }
        if matches_deny(text.as_str()) {
            return None;
        }
        if matches_topic(text.as_str()) {
            score = sat_add_i64(score, topic_w);
            fits_topic = true;
        }
        if matches_form(text.as_str()) {
            score = sat_add_i64(score, form_w);
            narrative_form = true;
        }
        proof {
            assert(score as int == fragment_score(frags[i as int], score0));
        }
        if fits_topic && narrative_form {
            return Some(PostScoring { pinned: false, deleted: false, priority: score });
        }
        i += 1;
    }
    None
}

} // verus!
