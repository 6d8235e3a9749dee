//! The visible narration before a tool call.
use vstd::prelude::*;

use crate::items;
use crate::text;

verus! {

/// The most characters of narration that are kept.
pub const MAX_PARENT_INTENT_CHARS: usize = 4000;

/// A piece of a message.
#[derive(Debug, PartialEq, Eq)]
pub enum ContentItem {
    OutputText { text: String },
    Other,
}

/// An item of a model's response.
#[derive(Debug, PartialEq, Eq)]
pub enum ResponseItem {
    Message { role: String, content: Vec<ContentItem> },
    /// Hidden reasoning with its summary.
    Reasoning { summary: Vec<String>, content: Option<Vec<String>> },
    Other,
}

/// The values of several texts.
pub open spec fn text_views(texts: Seq<String>) -> Seq<Seq<char>> {
    texts.map_values(|t: String| t@)
}

/// The output texts of a message, in order.
pub open spec fn output_texts(content: Seq<ContentItem>) -> Seq<Seq<char>>
    decreases content.len(),
{
    if content.len() == 0 {
        Seq::empty()
    } else {
        match content.last() {
            ContentItem::OutputText { text } => output_texts(content.drop_last()).push(text@),
            ContentItem::Other => output_texts(content.drop_last()),
        }
    }
}

/// The end of a narration, in as many characters as are kept.
pub open spec fn bounded_intent(narration: Option<Seq<char>>) -> Option<Seq<char>> {
    match narration {
        Some(t) => Some(
            t.skip(
                if MAX_PARENT_INTENT_CHARS < t.len() {
                    t.len() - MAX_PARENT_INTENT_CHARS
                } else {
                    0
                },
            ),
        ),
        None => None,
    }
}

/// Bounds the narration before a call to its end.
pub fn bound_intent(narration: Option<String>) -> (intent: Option<String>)
    ensures
        items::text_option(intent) == bounded_intent(items::text_option(narration)),
{
    match narration {
        Some(t) => Some(text::last_chars(t.as_str(), MAX_PARENT_INTENT_CHARS)),
        None => None,
    }
}

fn collect_output_texts(content: &Vec<ContentItem>) -> (texts: Vec<String>)
    ensures
        text_views(texts@) == output_texts(content@),
{
    let mut texts: Vec<String> = Vec::new();
    let mut i: usize = 0;
    assert(content@.take(0) =~= Seq::<ContentItem>::empty());
    assert(text_views(texts@) =~= Seq::<Seq<char>>::empty());
    while i < content.len()
        invariant
            i <= content@.len(),
            text_views(texts@) == output_texts(content@.take(i as int)),
        decreases content@.len() - i,
    {
        let ghost before = texts@;
        assert(content@.take(i as int + 1).drop_last() =~= content@.take(i as int));
        if let ContentItem::OutputText { text } = &content[i] {
            texts.push(text.clone());
            assert(text_views(texts@) =~= text_views(before).push(text@));
        }
        i = i + 1;
    }
    assert(content@.take(i as int) =~= content@);
    texts
}

/// The bounded narration that a response item carries, if it is a message of the assistant.
///
/// The host takes the visible narration out of the message's output texts: it strips hidden
/// markup, which depends on whether a plan is being made. Reasoning and its summary are never
/// looked at.
pub fn from_response_item<V: Fn(Vec<String>, bool) -> Option<String>>(
    item: &ResponseItem,
    plan_mode: bool,
    visible: &V,
) -> (intent: Option<String>)
    requires
        forall|texts: Vec<String>, plan: bool| #[trigger] call_requires(*visible, (texts, plan)),
    ensures
        match item {
            ResponseItem::Message { role, content } => if role@ == "assistant"@ {
                exists|texts: Vec<String>, narration: Option<String>|
                    {
                        &&& text_views(texts@) == output_texts(content@)
                        &&& #[trigger] call_ensures(*visible, (texts, plan_mode), narration)
                        &&& items::text_option(intent) == bounded_intent(items::text_option(narration))
                    }
            } else {
                intent is None
            },
            _ => intent is None,
        },
{
    match item {
        ResponseItem::Message { role, content } => {
            if text::same_text(role.as_str(), "assistant") {
                let texts = collect_output_texts(content);
                let narration = visible(texts, plan_mode);
                bound_intent(narration)
            } else {
                None
            }
        },
        _ => None,
    }
}

/// What is kept of a narration is its end, and no more than the bound.
pub proof fn law_narration_is_bounded_to_its_end(narration: Seq<char>)
    ensures
        bounded_intent(Some(narration)) matches Some(kept) && kept.len() <= 4000 && (kept.len() == 4000 || kept
            == narration) && kept == narration.skip(narration.len() - kept.len()),
        bounded_intent(None) is None,
{
    assert(narration.skip(0) =~= narration);
}

/// The narration is taken from a message's output texts, all of them and in order.
pub proof fn law_output_texts_keep_their_order(before: Seq<ContentItem>, after: Seq<ContentItem>, text: String)
    ensures
        output_texts(before + after) == output_texts(before) + output_texts(after),
        output_texts(seq![ContentItem::OutputText { text }]) == seq![text@],
        output_texts(seq![ContentItem::Other]) == Seq::<Seq<char>>::empty(),
    decreases after.len(),
{
    let one = seq![ContentItem::OutputText { text }];
    assert(one.drop_last() =~= Seq::<ContentItem>::empty());
    assert(seq![ContentItem::Other].drop_last() =~= Seq::<ContentItem>::empty());
    assert(output_texts(Seq::<ContentItem>::empty()) =~= Seq::<Seq<char>>::empty());
    assert(output_texts(one) =~= seq![text@]);
    assert(output_texts(seq![ContentItem::Other]) =~= Seq::<Seq<char>>::empty());
    if after.len() == 0 {
        assert(before + after =~= before);
        assert(output_texts(before) + output_texts(after) =~= output_texts(before));
    } else {
        assert((before + after).drop_last() =~= before + after.drop_last());
        law_output_texts_keep_their_order(before, after.drop_last(), text);
        assert(output_texts(before + after) =~= output_texts(before) + output_texts(after));
    }
}

} // verus!
