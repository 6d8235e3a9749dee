//! The content items that make up a tool's output.
use vstd::prelude::*;
use vstd::utf8::*;

use crate::json;
use crate::text;

verus! {

/// One item of a tool's output.
#[derive(Debug, PartialEq, Eq)]
pub enum FunctionCallOutputContentItem {
    InputText { text: String },
    InputImage { image_url: String, detail: Option<String> },
    InputAudio { audio_url: String },
    EncryptedContent { encrypted_content: String },
}

/// The value of a content item.
pub enum ItemView {
    InputText { text: Seq<char> },
    InputImage { image_url: Seq<char>, detail: Option<Seq<char>> },
    InputAudio { audio_url: Seq<char> },
    EncryptedContent { encrypted_content: Seq<char> },
}

/// The value of an optional text.
pub open spec fn text_option(t: Option<String>) -> Option<Seq<char>> {
    match t {
        Some(t) => Some(t@),
        None => None,
    }
}

/// The value of an optional borrowed text.
pub open spec fn str_option(t: Option<&str>) -> Option<Seq<char>> {
    match t {
        Some(t) => Some(t@),
        None => None,
    }
}

impl View for FunctionCallOutputContentItem {
    type V = ItemView;

    open spec fn view(&self) -> ItemView {
        match self {
            FunctionCallOutputContentItem::InputText { text } => ItemView::InputText { text: text@ },
            FunctionCallOutputContentItem::InputImage { image_url, detail } => ItemView::InputImage {
                image_url: image_url@,
                detail: text_option(*detail),
            },
            FunctionCallOutputContentItem::InputAudio { audio_url } => ItemView::InputAudio { audio_url: audio_url@ },
            FunctionCallOutputContentItem::EncryptedContent { encrypted_content } => ItemView::EncryptedContent {
                encrypted_content: encrypted_content@,
            },
        }
    }
}

/// The values of several content items.
pub open spec fn item_views(items: Seq<FunctionCallOutputContentItem>) -> Seq<ItemView> {
    items.map_values(|i: FunctionCallOutputContentItem| i@)
}

/// A text as a content item.
pub open spec fn text_item(t: Seq<char>) -> ItemView {
    ItemView::InputText { text: t }
}

/// Whether every item is text.
pub open spec fn all_text(items: Seq<ItemView>) -> bool {
    forall|i: int| 0 <= i < items.len() ==> (#[trigger] items[i]) is InputText
}

/// The text that an item carries: its own text, its address or its ciphertext.
pub open spec fn source_of(item: ItemView) -> Seq<char> {
    match item {
        ItemView::InputText { text } => text,
        ItemView::InputImage { image_url, .. } => image_url,
        ItemView::InputAudio { audio_url } => audio_url,
        ItemView::EncryptedContent { encrypted_content } => encrypted_content,
    }
}

/// The name of an item's kind.
pub open spec fn kind_of(item: ItemView) -> Seq<char> {
    match item {
        ItemView::InputText { .. } => "input_text"@,
        ItemView::InputImage { .. } => "input_image"@,
        ItemView::InputAudio { .. } => "input_audio"@,
        ItemView::EncryptedContent { .. } => "encrypted_content"@,
    }
}

/// The detail that is reported for an item: an image's, or null.
pub open spec fn detail_of(item: ItemView) -> json::JsonView {
    match item {
        ItemView::InputImage { detail, .. } => json::text_or_null(detail),
        _ => json::JsonView::Null,
    }
}

/// The bytes of all sources together.
pub open spec fn source_bytes(items: Seq<ItemView>) -> nat
    decreases items.len(),
{
    if items.len() == 0 {
        0
    } else {
        source_bytes(items.drop_last()) + text::byte_len(source_of(items.last()))
    }
}

/// A part of the items has no more source bytes than all of them.
pub proof fn lemma_source_bytes_take(items: Seq<ItemView>, n: int)
    requires
        0 <= n <= items.len(),
    ensures
        source_bytes(items.take(n)) <= source_bytes(items),
    decreases items.len() - n,
{
    if n < items.len() {
        lemma_source_bytes_take(items, n + 1);
        assert(items.take(n + 1).drop_last() =~= items.take(n));
    } else {
        assert(items.take(n) =~= items);
    }
}

impl Clone for FunctionCallOutputContentItem {
    fn clone(&self) -> (copy: Self)
        ensures
            copy == *self,
    {
        match self {
            FunctionCallOutputContentItem::InputText { text } => FunctionCallOutputContentItem::InputText {
                text: text.clone(),
            },
            FunctionCallOutputContentItem::InputImage { image_url, detail } => {
                FunctionCallOutputContentItem::InputImage {
                    image_url: image_url.clone(),
                    detail: match detail {
                        Some(detail) => Some(detail.clone()),
                        None => None,
                    },
                }
            },
            FunctionCallOutputContentItem::InputAudio { audio_url } => FunctionCallOutputContentItem::InputAudio {
                audio_url: audio_url.clone(),
            },
            FunctionCallOutputContentItem::EncryptedContent { encrypted_content } => {
                FunctionCallOutputContentItem::EncryptedContent { encrypted_content: encrypted_content.clone() }
            },
        }
    }
}

/// A text as a content item.
pub fn text_content(t: String) -> (item: FunctionCallOutputContentItem)
    ensures
        item@ == text_item(t@),
{
    FunctionCallOutputContentItem::InputText { text: t }
}

/// Whether an item is text.
pub fn is_text(item: &FunctionCallOutputContentItem) -> (yes: bool)
    ensures
        yes == (item@ is InputText),
{
    match item {
        FunctionCallOutputContentItem::InputText { .. } => true,
        _ => false,
    }
}

/// Whether every item is text.
pub fn are_all_text(items: &Vec<FunctionCallOutputContentItem>) -> (yes: bool)
    ensures
        yes == all_text(item_views(items@)),
{
    let mut i: usize = 0;
    while i < items.len()
        invariant
            i <= items@.len(),
            forall|j: int| 0 <= j < i ==> (#[trigger] item_views(items@)[j]) is InputText,
        decreases items@.len() - i,
    {
        if !is_text(&items[i]) {
            assert(!(item_views(items@)[i as int] is InputText));
            return false;
        }
        i = i + 1;
    }
    true
}

/// An item's kind, the text that it carries and the detail that is reported for it.
pub fn item_source(item: &FunctionCallOutputContentItem) -> (parts: (&'static str, &str, json::Json))
    ensures
        parts.0@ == kind_of(item@),
        parts.1@ == source_of(item@),
        parts.2@ == detail_of(item@),
{
    match item {
        FunctionCallOutputContentItem::InputText { text } => ("input_text", text.as_str(), json::Json::Null),
        FunctionCallOutputContentItem::InputImage { image_url, detail } => {
            let detail = match detail {
                Some(detail) => json::text_value(detail.as_str()),
                None => json::Json::Null,
            };
            ("input_image", image_url.as_str(), detail)
        },
        FunctionCallOutputContentItem::InputAudio { audio_url } => {
            ("input_audio", audio_url.as_str(), json::Json::Null)
        },
        FunctionCallOutputContentItem::EncryptedContent { encrypted_content } => {
            ("encrypted_content", encrypted_content.as_str(), json::Json::Null)
        },
    }
}

/// An item as it is sent: its kind and what it carries, and an image's detail where it has one.
pub open spec fn wire_json(item: ItemView) -> json::JsonView {
    json::JsonView::Object(
        match item {
            ItemView::InputText { text } => seq![
                json::field("type"@, json::JsonView::Text("input_text"@)),
                json::field("text"@, json::JsonView::Text(text)),
            ],
            ItemView::InputImage { image_url, detail } => {
                let image = seq![
                    json::field("type"@, json::JsonView::Text("input_image"@)),
                    json::field("image_url"@, json::JsonView::Text(image_url)),
                ];
                match detail {
                    Some(detail) => image.push(json::field("detail"@, json::JsonView::Text(detail))),
                    None => image,
                }
            },
            ItemView::InputAudio { audio_url } => seq![
                json::field("type"@, json::JsonView::Text("input_audio"@)),
                json::field("audio_url"@, json::JsonView::Text(audio_url)),
            ],
            ItemView::EncryptedContent { encrypted_content } => seq![
                json::field("type"@, json::JsonView::Text("encrypted_content"@)),
                json::field("encrypted_content"@, json::JsonView::Text(encrypted_content)),
            ],
        },
    )
}

/// Several items as they are sent, in order.
pub open spec fn wire_items(items: Seq<ItemView>) -> Seq<json::JsonView> {
    items.map_values(|i: ItemView| wire_json(i))
}

fn item_wire_value(item: &FunctionCallOutputContentItem) -> (j: json::Json)
    ensures
        j@ == wire_json(item@),
{
    let mut members: Vec<json::Member> = Vec::new();
    match item {
        FunctionCallOutputContentItem::InputText { text } => {
            members.push(json::member("type", json::text_value("input_text")));
            members.push(json::member("text", json::text_value(text.as_str())));
        },
        FunctionCallOutputContentItem::InputImage { image_url, detail } => {
            members.push(json::member("type", json::text_value("input_image")));
            members.push(json::member("image_url", json::text_value(image_url.as_str())));
            if let Some(detail) = detail {
                members.push(json::member("detail", json::text_value(detail.as_str())));
            }
        },
        FunctionCallOutputContentItem::InputAudio { audio_url } => {
            members.push(json::member("type", json::text_value("input_audio")));
            members.push(json::member("audio_url", json::text_value(audio_url.as_str())));
        },
        FunctionCallOutputContentItem::EncryptedContent { encrypted_content } => {
            members.push(json::member("type", json::text_value("encrypted_content")));
            members.push(json::member("encrypted_content", json::text_value(encrypted_content.as_str())));
        },
    }
    let j = json::object(members);
    assert(j@->Object_0 =~= wire_json(item@)->Object_0);
    j
}

/// Several items as they are sent, in order.
pub fn content_items_json(items: &Vec<FunctionCallOutputContentItem>) -> (sent: Vec<json::Json>)
    ensures
        json::json_views(sent@) == wire_items(item_views(items@)),
{
    let mut sent: Vec<json::Json> = Vec::new();
    let mut i: usize = 0;
    while i < items.len()
        invariant
            i <= items@.len(),
            json::json_views(sent@) == wire_items(item_views(items@)).take(i as int),
        decreases items@.len() - i,
    {
        let ghost before = sent@;
        let j = item_wire_value(&items[i]);
        sent.push(j);
        i = i + 1;
        assert(json::json_views(sent@) =~= json::json_views(before).push(j@));
        assert(json::json_views(sent@) =~= wire_items(item_views(items@)).take(i as int));
    }
    assert(json::json_views(sent@) =~= wire_items(item_views(items@)));
    sent
}

/// The size of an output for the reducer's limits: the bytes of all sources, or the largest
/// `usize` where they are more.
pub fn estimate_payload_bytes(items: &Vec<FunctionCallOutputContentItem>) -> (total: usize)
    ensures
        total == (if source_bytes(item_views(items@)) <= usize::MAX {
            source_bytes(item_views(items@)) as int
        } else {
            usize::MAX as int
        }),
{
    let mut total: usize = 0;
    let mut i: usize = 0;
    let ghost views = item_views(items@);
    while i < items.len()
        invariant
            i <= items@.len(),
            views == item_views(items@),
            total == (if source_bytes(views.take(i as int)) <= usize::MAX {
                source_bytes(views.take(i as int)) as int
            } else {
                usize::MAX as int
            }),
        decreases items@.len() - i,
    {
        let bytes: usize = text::byte_count(item_source(&items[i]).1);
        assert(views.take(i as int + 1).drop_last() =~= views.take(i as int));
        total = total.saturating_add(bytes);
        i = i + 1;
    }
    assert(views.take(i as int) =~= views);
    total
}

/// Appends one item.
pub fn push_item(items: &mut Vec<FunctionCallOutputContentItem>, item: FunctionCallOutputContentItem)
    ensures
        item_views(final(items)@) == item_views(old(items)@).push(item@),
{
    let ghost before = items@;
    items.push(item);
    assert(item_views(items@) =~= item_views(before).push(item@));
}

/// Appends the second list of items to the first.
pub fn append_items(items: &mut Vec<FunctionCallOutputContentItem>, more: Vec<FunctionCallOutputContentItem>)
    ensures
        item_views(final(items)@) == item_views(old(items)@) + item_views(more@),
{
    let ghost before = items@;
    let mut rest = more;
    items.append(&mut rest);
    assert(item_views(items@) =~= item_views(before) + item_views(more@));
}

/// An item is sent as it is: its kind under the type, what it carries under the name that belongs to
/// the kind, and an image's detail where it has one.
pub proof fn law_an_item_is_sent_as_it_is(item: ItemView)
    ensures
        ({
            let sent = |key: Seq<char>| json::json_get(wire_json(item), key);
            match item {
                ItemView::InputText { text } => {
                    &&& sent("type"@) == Some(json::JsonView::Text("input_text"@))
                    &&& sent("text"@) == Some(json::JsonView::Text(text))
                },
                ItemView::InputImage { image_url, detail } => {
                    &&& sent("type"@) == Some(json::JsonView::Text("input_image"@))
                    &&& sent("image_url"@) == Some(json::JsonView::Text(image_url))
                    &&& detail matches Some(d) ==> sent("detail"@) == Some(json::JsonView::Text(d))
                    &&& detail is None ==> sent("detail"@) is None
                },
                ItemView::InputAudio { audio_url } => {
                    &&& sent("type"@) == Some(json::JsonView::Text("input_audio"@))
                    &&& sent("audio_url"@) == Some(json::JsonView::Text(audio_url))
                },
                ItemView::EncryptedContent { encrypted_content } => {
                    &&& sent("type"@) == Some(json::JsonView::Text("encrypted_content"@))
                    &&& sent("encrypted_content"@) == Some(json::JsonView::Text(encrypted_content))
                },
            }
        }),
{
    reveal_strlit("type");
    reveal_strlit("text");
    reveal_strlit("image_url");
    reveal_strlit("detail");
    reveal_strlit("audio_url");
    reveal_strlit("encrypted_content");
    assert("type"@.len() == 4 && "text"@.len() == 4 && "image_url"@.len() == 9 && "detail"@.len() == 6);
    assert("audio_url"@.len() == 9 && "encrypted_content"@.len() == 17);
    assert("type"@[1] != "text"@[1]);
    let members = wire_json(item)->Object_0;
    json::lemma_member_found(members, 0);
    json::lemma_member_found(members, 1);
    if let ItemView::InputImage { detail, .. } = item {
        if detail is Some {
            json::lemma_member_found(members, 2);
        } else {
            json::law_members_are_found_by_their_key(members, "detail"@);
        }
    }
}

/// Items are sent in their order, each of them once.
pub proof fn law_items_are_sent_in_order(items: Seq<ItemView>, i: int)
    requires
        0 <= i < items.len(),
    ensures
        wire_items(items).len() == items.len(),
        wire_items(items)[i] == wire_json(items[i]),
{
}

/// The bytes of several items are those of each of them together.
pub proof fn law_source_bytes_add_up(before: Seq<ItemView>, after: Seq<ItemView>, one: ItemView)
    ensures
        source_bytes(before + after) == source_bytes(before) + source_bytes(after),
        source_bytes(seq![one]) == encode_utf8(
            match one {
                ItemView::InputText { text } => text,
                ItemView::InputImage { image_url, .. } => image_url,
                ItemView::InputAudio { audio_url } => audio_url,
                ItemView::EncryptedContent { encrypted_content } => encrypted_content,
            },
        ).len(),
    decreases after.len(),
{
    assert(seq![one].drop_last() =~= Seq::<ItemView>::empty());
    assert(source_bytes(Seq::<ItemView>::empty()) == 0);
    if after.len() == 0 {
        assert(before + after =~= before);
    } else {
        assert((before + after).drop_last() =~= before + after.drop_last());
        law_source_bytes_add_up(before, after.drop_last(), one);
    }
}

} // verus!
