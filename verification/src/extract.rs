use vstd::prelude::*;

use crate::models::FragmentKind;
use crate::models::FragmentV;
use crate::models::TextInPost;

verus! {

/// Spec-level image of media attached to a quoted post.
pub enum MediaV {
    Images(Seq<Seq<char>>),
    Video,
    External,
}

/// Media attached to a quote embed. Only image alt-texts carry classifiable
/// text in this position; other media kinds contribute no fragment.
pub enum MediaInfo {
    Images(Vec<String>),
    Video,
    External,
}

impl View for MediaInfo {
    type V = MediaV;

    open spec fn view(&self) -> MediaV {
        match self {
            MediaInfo::Images(alts) => MediaV::Images(alts@.map_values(|a: String| a@)),
            MediaInfo::Video => MediaV::Video,
            MediaInfo::External => MediaV::External,
        }
    }
}

/// Spec-level image of a post's embed.
pub enum EmbedV {
    Video(Seq<char>),
    External { title: Seq<char>, description: Seq<char> },
    Quote,
    QuoteWithMedia(MediaV),
    Images(Seq<Seq<char>>),
}

/// A post's attached embed, normalized to the closed set of shapes whose text
/// the classifier reads: a video's alt-text, an external link's title and
/// description, a bare quote, a quote with attached media, or standalone
/// images' alt-texts.
pub enum EmbedInfo {
    Video(String),
    External { title: String, description: String },
    Quote,
    QuoteWithMedia(MediaInfo),
    Images(Vec<String>),
}

impl View for EmbedInfo {
    type V = EmbedV;

    open spec fn view(&self) -> EmbedV {
        match self {
            EmbedInfo::Video(alt) => EmbedV::Video(alt@),
            EmbedInfo::External { title, description } => EmbedV::External {
                title: title@,
                description: description@,
            },
            EmbedInfo::Quote => EmbedV::Quote,
            EmbedInfo::QuoteWithMedia(m) => EmbedV::QuoteWithMedia(m@),
            EmbedInfo::Images(alts) => EmbedV::Images(alts@.map_values(|a: String| a@)),
        }
    }
}

/// The view of an optional embed.
pub open spec fn opt_embed_view(e: Option<EmbedInfo>) -> Option<EmbedV> {
    match e {
        Option::None => Option::None,
        Option::Some(x) => Option::Some(x@),
    }
}

/// A picture fragment for one image alt-text.
pub open spec fn picture_fragment(alt: Seq<char>) -> FragmentV {
    FragmentV { kind: FragmentKind::Picture, text: alt }
}

/// The fragments an embed contributes, in order.
pub open spec fn embed_fragments(e: Option<EmbedV>) -> Seq<FragmentV> {
    match e {
        Option::None => Seq::empty(),
        Option::Some(EmbedV::Video(alt)) => seq![FragmentV { kind: FragmentKind::Video, text: alt }],
        Option::Some(EmbedV::External { title, description }) => seq![
            FragmentV { kind: FragmentKind::External, text: title },
            FragmentV { kind: FragmentKind::External, text: description },
        ],
        Option::Some(EmbedV::Quote) => Seq::empty(),
        Option::Some(EmbedV::QuoteWithMedia(m)) => match m {
            MediaV::Images(alts) => alts.map_values(|a: Seq<char>| picture_fragment(a)),
            MediaV::Video => Seq::empty(),
            MediaV::External => Seq::empty(),
        },
        Option::Some(EmbedV::Images(alts)) => alts.map_values(|a: Seq<char>| picture_fragment(a)),
    }
}

/// The fragments extracted from a post: its body text first, then whatever
/// its embed contributes.
pub open spec fn extract_spec(text: Seq<char>, embed: Option<EmbedV>) -> Seq<FragmentV> {
    seq![FragmentV { kind: FragmentKind::Post, text }] + embed_fragments(embed)
}

/// One picture fragment per image alt-text, in order.
pub open spec fn pictures_of(alts: Seq<String>) -> Seq<FragmentV> {
    alts.map_values(|a: String| picture_fragment(a@))
}

/// pictures_of collapses the two-step view of an alt-text vector.
proof fn lemma_pictures_of(alts: Seq<String>)
    ensures
        alts.map_values(|a: String| a@).map_values(|a: Seq<char>| picture_fragment(a))
            =~= pictures_of(alts),
{
    let two_step = alts.map_values(|a: String| a@).map_values(|a: Seq<char>| picture_fragment(a));
    assert forall|j: int| 0 <= j < alts.len() implies two_step[j] == pictures_of(alts)[j] by {
        assert(alts.map_values(|a: String| a@)[j] == alts[j]@);
    }
}

/// Appends one picture fragment per image alt-text.
fn push_pictures(out: &mut Vec<TextInPost>, alts: Vec<String>)
    ensures
        final(out)@.map_values(|t: TextInPost| t@) == old(out)@.map_values(|t: TextInPost| t@)
            + pictures_of(alts@),
{
    let ghost base = out@.map_values(|t: TextInPost| t@);
    let ghost galts = alts@;
    let mut i: usize = 0;
    while i < alts.len()
        invariant
            0 <= i <= alts.len(),
            alts@ == galts,
            out@.map_values(|t: TextInPost| t@) == base + pictures_of(galts.take(i as int)),
        decreases alts.len() - i,
    {
        let ghost before = out@;
        let alt = alts[i].clone();
        out.push(TextInPost::Picture(alt));
        proof {
            let lhs = out@.map_values(|t: TextInPost| t@);
            let rhs = base + pictures_of(galts.take(i as int + 1));
            assert(out@ == before.push(TextInPost::Picture(alt)));
            assert(before.map_values(|t: TextInPost| t@).len() == before.len());
            assert(pictures_of(galts.take(i as int)).len() == i as int);
            assert(pictures_of(galts.take(i as int + 1)).len() == i as int + 1);
            assert(before.len() == base.len() + i);
            assert(lhs.len() == rhs.len());
            assert forall|j: int| 0 <= j < lhs.len() implies lhs[j] == rhs[j] by {
                assert(lhs[j] == out@[j]@);
                if j < before.len() {
                    assert(out@[j] == before[j]);
                    assert(before.map_values(|t: TextInPost| t@)[j] == before[j]@);
                    assert(before[j]@ == (base + pictures_of(galts.take(i as int)))[j]);
                    if j >= base.len() {
                        let j2 = j - base.len();
                        assert(pictures_of(galts.take(i as int))[j2] == picture_fragment(
                            galts.take(i as int)[j2]@,
                        ));
                        assert(pictures_of(galts.take(i as int + 1))[j2] == picture_fragment(
                            galts.take(i as int + 1)[j2]@,
                        ));
                        assert(galts.take(i as int)[j2] == galts[j2]);
                        assert(galts.take(i as int + 1)[j2] == galts[j2]);
                    }
                } else {
                    assert(out@[j] == TextInPost::Picture(alt));
                    assert(pictures_of(galts.take(i as int + 1))[i as int] == picture_fragment(
                        galts.take(i as int + 1)[i as int]@,
                    ));
                    assert(galts.take(i as int + 1)[i as int] == galts[i as int]);
                }
            }
            assert(lhs =~= rhs);
        }
        i += 1;
    }
    proof {
        assert(galts.take(alts@.len() as int) =~= galts);
    }
}

/// Pulls the classifiable text fragments out of a post: the body text always,
/// and the embed's fragments as embed_fragments gives them. Total: absent or
/// textless embed shapes simply contribute nothing.
pub fn extract_text(text: String, embed: Option<EmbedInfo>) -> (r: Vec<TextInPost>)
    ensures
        r@.map_values(|t: TextInPost| t@) == extract_spec(text@, opt_embed_view(embed)),
{
    let ghost gview = extract_spec(text@, opt_embed_view(embed));
    let mut out: Vec<TextInPost> = Vec::new();
    out.push(TextInPost::Post(text));
    match embed {
        Option::None => {
            proof {
                assert(out@.map_values(|t: TextInPost| t@) =~= gview);
            }
        },
        Option::Some(e) => match e {
            EmbedInfo::Video(alt) => {
                out.push(TextInPost::Video(alt));
                proof {
                    assert(out@.map_values(|t: TextInPost| t@) =~= gview);
                }
            },
            EmbedInfo::External { title, description } => {
                out.push(TextInPost::External(title));
                out.push(TextInPost::External(description));
                proof {
                    assert(out@.map_values(|t: TextInPost| t@) =~= gview);
                }
            },
            EmbedInfo::Quote => {
                proof {
                    assert(out@.map_values(|t: TextInPost| t@) =~= gview);
                }
            },
            EmbedInfo::QuoteWithMedia(m) => match m {
                MediaInfo::Images(alts) => {
                    let ghost galts = alts@;
                    push_pictures(&mut out, alts);
                    proof {
                        lemma_pictures_of(galts);
                        assert(out@.map_values(|t: TextInPost| t@) =~= gview);
                    }
                },
                MediaInfo::Video => {
                    proof {
                        assert(out@.map_values(|t: TextInPost| t@) =~= gview);
                    }
                },
                MediaInfo::External => {
                    proof {
                        assert(out@.map_values(|t: TextInPost| t@) =~= gview);
                    }
                },
            },
            EmbedInfo::Images(alts) => {
                let ghost galts = alts@;
                push_pictures(&mut out, alts);
                proof {
                    lemma_pictures_of(galts);
                    assert(out@.map_values(|t: TextInPost| t@) =~= gview);
                }
            },
        },
    }
    out
}

} // verus!
