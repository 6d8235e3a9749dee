//! JSON values and their compact text.
use vstd::prelude::*;

use crate::text;

verus! {

/// A JSON value. The members of an object stand in the order in which they are written.
#[derive(Debug)]
pub enum Json {
    Null,
    Bool(bool),
    Int(i128),
    /// A number that is no integer, by its numeral.
    Float(String),
    Text(String),
    Array(Vec<Json>),
    Object(Vec<Member>),
}

/// One member of an object.
#[derive(Debug)]
pub struct Member {
    pub key: String,
    pub value: Json,
}

/// The value of a [`Json`].
pub enum JsonView {
    Null,
    Bool(bool),
    Int(int),
    Float(Seq<char>),
    Text(Seq<char>),
    Array(Seq<JsonView>),
    Object(Seq<MemberView>),
}

/// The value of a [`Member`].
pub struct MemberView {
    pub key: Seq<char>,
    pub value: JsonView,
}

impl View for Json {
    type V = JsonView;

    open spec fn view(&self) -> JsonView
        decreases self,
    {
        match self {
            Json::Null => JsonView::Null,
            Json::Bool(b) => JsonView::Bool(*b),
            Json::Int(n) => JsonView::Int(*n as int),
            Json::Float(t) => JsonView::Float(t@),
            Json::Text(t) => JsonView::Text(t@),
            Json::Array(items) => JsonView::Array(
                Seq::new(items@.len(), |i: int| if 0 <= i < items@.len() { items@[i].view() } else { JsonView::Null }),
            ),
            Json::Object(members) => JsonView::Object(
                Seq::new(
                    members@.len(),
                    |i: int|
                        if 0 <= i < members@.len() {
                            members@[i].view()
                        } else {
                            MemberView { key: Seq::empty(), value: JsonView::Null }
                        },
                ),
            ),
        }
    }
}

impl View for Member {
    type V = MemberView;

    open spec fn view(&self) -> MemberView
        decreases self,
    {
        MemberView { key: self.key@, value: self.value.view() }
    }
}

/// The values of several members.
pub open spec fn member_views(members: Seq<Member>) -> Seq<MemberView> {
    members.map_values(|m: Member| m@)
}

/// The values of several JSON values.
pub open spec fn json_views(items: Seq<Json>) -> Seq<JsonView> {
    items.map_values(|j: Json| j@)
}

/// One member, by its key and value.
pub open spec fn field(key: Seq<char>, value: JsonView) -> MemberView {
    MemberView { key, value }
}

/// The value of an optional text: the text, or null.
pub open spec fn text_or_null(text: Option<Seq<char>>) -> JsonView {
    match text {
        Some(t) => JsonView::Text(t),
        None => JsonView::Null,
    }
}

/// The value of an optional integer: the integer, or null.
pub open spec fn int_or_null(n: Option<int>) -> JsonView {
    match n {
        Some(n) => JsonView::Int(n),
        None => JsonView::Null,
    }
}

/// The value of an optional [`Json`].
pub open spec fn json_option(j: Option<Json>) -> Option<JsonView> {
    match j {
        Some(j) => Some(j@),
        None => None,
    }
}

/// The lower-case hexadecimal digit for `d`.
pub open spec fn hex_digit(d: nat) -> char {
    if d < 10 {
        (48 + d) as char
    } else {
        (87 + d) as char
    }
}

/// How a character is written inside a JSON string.
pub open spec fn escaped_char(c: char) -> Seq<char> {
    let u = c as u32 as nat;
    if c == '"' {
        seq!['\\', '"']
    } else if c == '\\' {
        seq!['\\', '\\']
    } else if u == 8 {
        seq!['\\', 'b']
    } else if u == 9 {
        seq!['\\', 't']
    } else if u == 10 {
        seq!['\\', 'n']
    } else if u == 12 {
        seq!['\\', 'f']
    } else if u == 13 {
        seq!['\\', 'r']
    } else if u < 32 {
        seq!['\\', 'u', '0', '0', hex_digit(u / 16), hex_digit(u % 16)]
    } else {
        seq![c]
    }
}

/// How a text is written inside a JSON string.
pub open spec fn escaped(s: Seq<char>) -> Seq<char>
    decreases s.len(),
{
    if s.len() == 0 {
        Seq::empty()
    } else {
        escaped(s.drop_last()) + escaped_char(s.last())
    }
}

/// A text as a JSON string.
pub open spec fn json_quoted(s: Seq<char>) -> Seq<char> {
    seq!['"'] + escaped(s) + seq!['"']
}

/// The compact text of a JSON value: no white space, members in order.
pub open spec fn json_text(v: JsonView) -> Seq<char>
    decreases v, 0nat,
{
    match v {
        JsonView::Null => "null"@,
        JsonView::Bool(b) => if b { "true"@ } else { "false"@ },
        JsonView::Int(n) => text::signed_decimal(n),
        JsonView::Float(numeral) => numeral,
        JsonView::Text(t) => json_quoted(t),
        JsonView::Array(items) => seq!['['] + items_text(items, items.len()) + seq![']'],
        JsonView::Object(members) => seq!['{'] + members_text(members, members.len()) + seq!['}'],
    }
}

/// The first `n` items, separated by commas.
pub open spec fn items_text(items: Seq<JsonView>, n: nat) -> Seq<char>
    decreases items, n,
{
    if n == 0 || n > items.len() {
        Seq::empty()
    } else if n == 1 {
        json_text(items[0])
    } else {
        items_text(items, (n - 1) as nat) + seq![','] + json_text(items[n - 1])
    }
}

/// The first `n` members, separated by commas.
pub open spec fn members_text(members: Seq<MemberView>, n: nat) -> Seq<char>
    decreases members, n,
{
    if n == 0 || n > members.len() {
        Seq::empty()
    } else if n == 1 {
        member_text(members[0])
    } else {
        members_text(members, (n - 1) as nat) + seq![','] + member_text(members[n - 1])
    }
}

/// A member's key, a colon and its value.
pub open spec fn member_text(m: MemberView) -> Seq<char>
    decreases m, 0nat,
{
    json_quoted(m.key) + seq![':'] + json_text(m.value)
}

/// The value of the first member with this key.
pub open spec fn find_member(members: Seq<MemberView>, key: Seq<char>) -> Option<JsonView>
    decreases members.len(),
{
    if members.len() == 0 {
        None
    } else if members[0].key == key {
        Some(members[0].value)
    } else {
        find_member(members.drop_first(), key)
    }
}

/// The value of an object's member with this key.
pub open spec fn json_get(v: JsonView, key: Seq<char>) -> Option<JsonView> {
    match v {
        JsonView::Object(members) => find_member(members, key),
        _ => None,
    }
}

/// Whether two values are the same, whatever the order of members, where no key of an object occurs
/// twice.
pub open spec fn same_value(a: JsonView, b: JsonView) -> bool
    decreases a, 0nat,
{
    match (a, b) {
        (JsonView::Array(xs), JsonView::Array(ys)) => xs.len() == ys.len() && same_items(xs, xs.len(), ys),
        (JsonView::Object(ms), JsonView::Object(ns)) => ms.len() == ns.len() && same_members(ms, ms.len(), ns),
        _ => a == b,
    }
}

/// Whether the first `n` items are those of the other list.
pub open spec fn same_items(xs: Seq<JsonView>, n: nat, ys: Seq<JsonView>) -> bool
    decreases xs, n,
{
    n == 0 || n > xs.len() || (same_items(xs, (n - 1) as nat, ys) && same_value(xs[n - 1], ys[n - 1]))
}

/// Whether the first `n` members are found among the others.
pub open spec fn same_members(ms: Seq<MemberView>, n: nat, ns: Seq<MemberView>) -> bool
    decreases ms, n,
{
    n == 0 || n > ms.len() || (same_members(ms, (n - 1) as nat, ns) && match find_member(ns, ms[n - 1].key) {
        Some(value) => same_value(ms[n - 1].value, value),
        None => false,
    })
}

/// One more member that is found among the others.
pub proof fn lemma_same_member(ms: Seq<MemberView>, i: nat, ns: Seq<MemberView>, value: JsonView)
    requires
        i < ms.len(),
        same_members(ms, i, ns),
        find_member(ns, ms[i as int].key) == Some(value),
        same_value(ms[i as int].value, value),
    ensures
        same_members(ms, i + 1, ns),
{
}

/// A value that holds no other values is the same as itself.
pub proof fn lemma_same_leaf(v: JsonView)
    requires
        !(v is Array),
        !(v is Object),
    ensures
        same_value(v, v),
{
}

/// Lists of the same length whose items are the same are the same.
pub proof fn lemma_same_items(xs: Seq<JsonView>, n: nat, ys: Seq<JsonView>)
    requires
        n <= xs.len(),
        forall|i: int| 0 <= i < n ==> same_value(#[trigger] xs[i], ys[i]),
    ensures
        same_items(xs, n, ys),
    decreases n,
{
    if n > 0 {
        lemma_same_items(xs, (n - 1) as nat, ys);
    }
}

/// The 64-bit signed integer that a value is.
pub open spec fn json_i64(v: JsonView) -> Option<int> {
    match v {
        JsonView::Int(n) => if i64::MIN <= n <= i64::MAX { Some(n) } else { None },
        _ => None,
    }
}

/// The text that a value is.
pub open spec fn json_str(v: JsonView) -> Option<Seq<char>> {
    match v {
        JsonView::Text(t) => Some(t),
        _ => None,
    }
}

proof fn lemma_array_view(items: Vec<Json>)
    ensures
        Json::Array(items)@ == JsonView::Array(json_views(items@)),
{
    let j = Json::Array(items);
    assert(j@->Array_0 =~= json_views(items@));
}

proof fn lemma_object_view(members: Vec<Member>)
    ensures
        Json::Object(members)@ == JsonView::Object(member_views(members@)),
{
    let j = Json::Object(members);
    assert(j@->Object_0 =~= member_views(members@));
}

/// What `serde_json` reads as the 64-bit integer under a key of a text: nothing where the text is
/// no JSON object, where it has no such member, or where the member is no such integer.
pub uninterp spec fn integer_argument(t: Seq<char>, key: Seq<char>) -> Option<int>;

/// Reads the integer under a key of a JSON text.
///
/// Calls `serde_json::from_str` on the text, `serde_json::Value::get` with the key on the value
/// and `serde_json::Value::as_i64` on the member. The contract claims that the result depends on
/// the text and the key alone; which values a text stands for is left to `serde_json`.
#[verifier::external_body]
pub(crate) fn read_integer_argument(t: &str, key: &str) -> (n: Option<i64>)
    ensures
        (match n {
            Some(n) => Some(n as int),
            None => None,
        }) == integer_argument(t@, key@),
{
    serde_json::from_str::<serde_json::Value>(t).ok()?.get(key)?.as_i64()
}

/// Whether a text is written inside a JSON string as it is, in one byte per character.
pub open spec fn plain(s: Seq<char>) -> bool {
    forall|i: int|
        0 <= i < s.len() ==> 0x20 <= (#[trigger] s[i]) as u32 <= 0x7e && s[i] != '"' && s[i] != '\\'
}

/// A plain text is quoted by the two quotes alone.
pub proof fn lemma_quoted_plain(s: Seq<char>)
    requires
        plain(s),
    ensures
        json_quoted(s) == seq!['"'] + s + seq!['"'],
        text::byte_len(json_quoted(s)) == s.len() + 2,
{
    lemma_escaped_plain(s);
    assert(text::all_ascii(json_quoted(s)));
    text::lemma_ascii_byte_len(json_quoted(s));
}

proof fn lemma_escaped_plain(s: Seq<char>)
    requires
        plain(s),
    ensures
        escaped(s) == s,
    decreases s.len(),
{
    if s.len() > 0 {
        assert(plain(s.drop_last())) by {
            assert forall|i: int| 0 <= i < s.drop_last().len() implies 0x20 <= (#[trigger] s.drop_last()[i]) as u32
                <= 0x7e && s.drop_last()[i] != '"' && s.drop_last()[i] != '\\' by {
                assert(s.drop_last()[i] == s[i]);
            }
        }
        lemma_escaped_plain(s.drop_last());
        assert(s.last() == s[s.len() - 1]);
        assert(escaped(s) =~= s);
    }
}

/// Escaping makes a text at most six times as long, and quoting adds two bytes.
pub proof fn lemma_quoted_bytes(s: Seq<char>)
    ensures
        text::byte_len(json_quoted(s)) <= 6 * text::byte_len(s) + 2,
{
    lemma_escaped_bytes(s);
    text::lemma_encode_concat(seq!['"'] + escaped(s), seq!['"']);
    text::lemma_encode_concat(seq!['"'], escaped(s));
    text::lemma_ascii_byte_len(seq!['"']);
}

proof fn lemma_escaped_bytes(s: Seq<char>)
    ensures
        text::byte_len(escaped(s)) <= 6 * text::byte_len(s),
    decreases s.len(),
{
    text::lemma_byte_len_empty();
    if s.len() > 0 {
        let c = s.last();
        lemma_escaped_bytes(s.drop_last());
        assert(s =~= s.drop_last().push(c));
        text::lemma_byte_len_push(s.drop_last(), c);
        text::lemma_scalar_width(c);
        text::lemma_encode_concat(escaped(s.drop_last()), escaped_char(c));
        if escaped_char(c) == seq![c] {
            text::lemma_byte_len_push(Seq::empty(), c);
            assert(Seq::<char>::empty().push(c) =~= seq![c]);
        } else {
            assert(text::all_ascii(escaped_char(c)));
            text::lemma_ascii_byte_len(escaped_char(c));
        }
    }
}

/// The bytes of a member's text.
pub open spec fn member_bytes(m: MemberView) -> nat {
    text::byte_len(json_quoted(m.key)) + 1 + text::byte_len(json_text(m.value))
}

/// The bytes of the first `n` members with the commas between them.
pub open spec fn members_bytes(members: Seq<MemberView>, n: nat) -> nat
    decreases n,
{
    if n == 0 || n > members.len() {
        0
    } else if n == 1 {
        member_bytes(members[0])
    } else {
        members_bytes(members, (n - 1) as nat) + 1 + member_bytes(members[n - 1])
    }
}

pub proof fn lemma_comma_bytes(a: Seq<char>, b: Seq<char>)
    ensures
        text::byte_len(a + seq![','] + b) == text::byte_len(a) + 1 + text::byte_len(b),
        text::byte_len(a + seq![':'] + b) == text::byte_len(a) + 1 + text::byte_len(b),
{
    text::lemma_encode_concat(a + seq![','], b);
    text::lemma_encode_concat(a, seq![',']);
    text::lemma_ascii_byte_len(seq![',']);
    text::lemma_encode_concat(a + seq![':'], b);
    text::lemma_encode_concat(a, seq![':']);
    text::lemma_ascii_byte_len(seq![':']);
}

proof fn lemma_members_bytes(members: Seq<MemberView>, n: nat)
    ensures
        text::byte_len(members_text(members, n)) == members_bytes(members, n),
    decreases n,
{
    text::lemma_byte_len_empty();
    if n > 0 && n <= members.len() {
        let m = members[n - 1];
        assert(member_text(m) == json_quoted(m.key) + seq![':'] + json_text(m.value));
        lemma_comma_bytes(json_quoted(m.key), json_text(m.value));
        if n > 1 {
            lemma_members_bytes(members, (n - 1) as nat);
            lemma_comma_bytes(members_text(members, (n - 1) as nat), member_text(m));
        }
    }
}

/// The bytes of an object's text.
pub proof fn lemma_object_bytes(members: Seq<MemberView>)
    ensures
        text::byte_len(json_text(JsonView::Object(members))) == 2 + members_bytes(members, members.len()),
{
    lemma_members_bytes(members, members.len());
    let inner = members_text(members, members.len());
    text::lemma_encode_concat(seq!['{'] + inner, seq!['}']);
    text::lemma_encode_concat(seq!['{'], inner);
    text::lemma_ascii_byte_len(seq!['{']);
    text::lemma_ascii_byte_len(seq!['}']);
}

/// The bytes of the text of an array with one item.
pub proof fn lemma_singleton_bytes(item: JsonView)
    ensures
        text::byte_len(json_text(JsonView::Array(seq![item]))) == 2 + text::byte_len(json_text(item)),
{
    let items = seq![item];
    assert(items_text(items, 1) == json_text(item));
    text::lemma_encode_concat(seq!['['] + items_text(items, 1), seq![']']);
    text::lemma_encode_concat(seq!['['], items_text(items, 1));
    text::lemma_ascii_byte_len(seq!['[']);
    text::lemma_ascii_byte_len(seq![']']);
}

/// A 32-bit integer is written with at most eleven bytes.
pub proof fn lemma_small_int_bytes(n: int)
    requires
        -0x8000_0000 <= n <= 0xffff_ffff,
    ensures
        text::byte_len(json_text(JsonView::Int(n))) <= 11,
{
    reveal_with_fuel(text::ten_to, 11);
    assert(text::ten_to(10) == 10_000_000_000);
    if n < 0 {
        text::lemma_decimal_len((-n) as nat, 10);
        text::lemma_ascii_byte_len(text::signed_decimal(n));
    } else {
        text::lemma_decimal_len(n as nat, 10);
        text::lemma_ascii_byte_len(text::signed_decimal(n));
    }
}

/// An array of these items.
pub fn array(items: Vec<Json>) -> (j: Json)
    ensures
        j@ == JsonView::Array(json_views(items@)),
{
    proof {
        lemma_array_view(items);
    }
    Json::Array(items)
}

/// An object of these members.
pub fn object(members: Vec<Member>) -> (j: Json)
    ensures
        j@ == JsonView::Object(member_views(members@)),
{
    proof {
        lemma_object_view(members);
    }
    Json::Object(members)
}

/// One member of an object.
pub fn member(key: &str, value: Json) -> (m: Member)
    ensures
        m@ == field(key@, value@),
{
    Member { key: key.to_string(), value }
}

/// A text as a JSON value.
pub fn text_value(t: &str) -> (j: Json)
    ensures
        j@ == JsonView::Text(t@),
{
    Json::Text(t.to_string())
}

/// Writes a text as a JSON string.
///
/// Calls `serde_json::to_string` on the text. The contract claims that the result is the text
/// between double quotes with the quote, the backslash and the control characters escaped, and
/// every other character left as it is.
#[verifier::external_body]
fn quote(t: &str) -> (quoted: String)
    ensures
        quoted@ == json_quoted(t@),
{
    serde_json::to_string(t).unwrap_or_default()
}

/// Appends the compact text of a value.
pub fn append_json(out: &mut String, v: &Json)
    ensures
        final(out)@ == old(out)@ + json_text(v@),
    decreases v,
{
    let ghost before = out@;
    match v {
        Json::Null => {
            out.append("null");
        },
        Json::Bool(b) => {
            if *b {
                out.append("true");
            } else {
                out.append("false");
            }
        },
        Json::Int(n) => {
            text::append_signed_decimal(out, *n);
        },
        Json::Float(numeral) => {
            out.append(numeral.as_str());
        },
        Json::Text(t) => {
            let quoted = quote(t.as_str());
            out.append(quoted.as_str());
        },
        Json::Array(items) => {
            proof {
                reveal_strlit("[");
                reveal_strlit(",");
                reveal_strlit("]");
                lemma_array_view(*items);
                assert("["@ =~= seq!['[']);
                assert(","@ =~= seq![',']);
                assert("]"@ =~= seq![']']);
            }
            out.append("[");
            let mut i: usize = 0;
            while i < items.len()
                invariant
                    i <= items@.len(),
                    v == Json::Array(*items),
                    v@ == JsonView::Array(json_views(items@)),
                    ","@ == seq![','],
                    out@ == before + seq!['['] + items_text(json_views(items@), i as nat),
                decreases items@.len() - i,
            {
                if i > 0 {
                    out.append(",");
                }
                append_json(out, &items[i]);
                i = i + 1;
                assert(out@ =~= before + seq!['['] + items_text(json_views(items@), i as nat));
            }
            out.append("]");
            assert(out@ =~= before + json_text(v@));
        },
        Json::Object(members) => {
            proof {
                reveal_strlit("{");
                reveal_strlit(",");
                reveal_strlit(":");
                reveal_strlit("}");
                lemma_object_view(*members);
                assert("{"@ =~= seq!['{']);
                assert(","@ =~= seq![',']);
                assert(":"@ =~= seq![':']);
                assert("}"@ =~= seq!['}']);
            }
            out.append("{");
            let mut i: usize = 0;
            while i < members.len()
                invariant
                    i <= members@.len(),
                    v == Json::Object(*members),
                    v@ == JsonView::Object(member_views(members@)),
                    ","@ == seq![','],
                    ":"@ == seq![':'],
                    out@ == before + seq!['{'] + members_text(member_views(members@), i as nat),
                decreases members@.len() - i,
            {
                if i > 0 {
                    out.append(",");
                }
                let quoted = quote(members[i].key.as_str());
                out.append(quoted.as_str());
                out.append(":");
                append_json(out, &members[i].value);
                assert(member_text(member_views(members@)[i as int]) == json_quoted(members@[i as int].key@) + seq![':']
                    + json_text(members@[i as int].value@));
                i = i + 1;
                assert(out@ =~= before + seq!['{'] + members_text(member_views(members@), i as nat));
            }
            out.append("}");
            assert(out@ =~= before + json_text(v@));
        },
    }
}

impl Json {
    /// The compact text of this value.
    pub fn to_text(&self) -> (out: String)
        ensures
            out@ == json_text(self@),
    {
        let mut out = String::new();
        append_json(&mut out, self);
        assert(out@ =~= json_text(self@));
        out
    }

    /// The value of this object's member with this key.
    pub fn get(&self, key: &str) -> (found: Option<&Json>)
        ensures
            match found {
                Some(value) => json_get(self@, key@) == Some(value@),
                None => json_get(self@, key@) is None,
            },
    {
        match self {
            Json::Object(members) => {
                proof {
                    lemma_object_view(*members);
                }
                let ghost views = member_views(members@);
                let mut i: usize = 0;
                assert(views.skip(0) =~= views);
                while i < members.len()
                    invariant
                        i <= members@.len(),
                        self@ == JsonView::Object(views),
                        views == member_views(members@),
                        find_member(views.skip(i as int), key@) == find_member(views, key@),
                    decreases members@.len() - i,
                {
                    assert(views.skip(i as int)[0] == members@[i as int]@);
                    if text::same_text(members[i].key.as_str(), key) {
                        assert(find_member(views.skip(i as int), key@) == Some(members@[i as int].value@));
                        return Some(&members[i].value);
                    }
                    assert(views.skip(i as int).drop_first() =~= views.skip(i as int + 1));
                    i = i + 1;
                }
                None
            },
            _ => None,
        }
    }

    /// The 64-bit signed integer that this value is.
    pub fn as_i64(&self) -> (n: Option<i64>)
        ensures
            match n {
                Some(n) => json_i64(self@) == Some(n as int),
                None => json_i64(self@) is None,
            },
    {
        match self {
            Json::Int(n) => {
                if -0x8000_0000_0000_0000 <= *n && *n <= 0x7fff_ffff_ffff_ffff {
                    Some(*n as i64)
                } else {
                    None
                }
            },
            _ => None,
        }
    }

    /// The text that this value is.
    pub fn as_str(&self) -> (t: Option<&str>)
        ensures
            match t {
                Some(t) => json_str(self@) == Some(t@),
                None => json_str(self@) is None,
            },
    {
        match self {
            Json::Text(t) => Some(t.as_str()),
            _ => None,
        }
    }

    /// A second value equal to this one.
    pub fn duplicate(&self) -> (copy: Json)
        ensures
            copy@ == self@,
        decreases self,
    {
        match self {
            Json::Null => Json::Null,
            Json::Bool(b) => Json::Bool(*b),
            Json::Int(n) => Json::Int(*n),
            Json::Float(numeral) => Json::Float(numeral.clone()),
            Json::Text(t) => Json::Text(t.clone()),
            Json::Array(items) => {
                let mut copies: Vec<Json> = Vec::new();
                let mut i: usize = 0;
                proof {
                    lemma_array_view(*items);
                }
                while i < items.len()
                    invariant
                        i <= items@.len(),
                        self == Json::Array(*items),
                        self@ == JsonView::Array(json_views(items@)),
                        json_views(copies@) == json_views(items@).take(i as int),
                    decreases items@.len() - i,
                {
                    let copy = items[i].duplicate();
                    assert(json_views(copies@.push(copy)) =~= json_views(copies@).push(copy@));
                    copies.push(copy);
                    i = i + 1;
                    assert(json_views(copies@) =~= json_views(items@).take(i as int));
                }
                proof {
                    lemma_array_view(copies);
                    assert(json_views(copies@) =~= json_views(items@));
                }
                Json::Array(copies)
            },
            Json::Object(members) => {
                let mut copies: Vec<Member> = Vec::new();
                let mut i: usize = 0;
                proof {
                    lemma_object_view(*members);
                }
                while i < members.len()
                    invariant
                        i <= members@.len(),
                        self == Json::Object(*members),
                        self@ == JsonView::Object(member_views(members@)),
                        member_views(copies@) == member_views(members@).take(i as int),
                    decreases members@.len() - i,
                {
                    let copy = Member { key: members[i].key.clone(), value: members[i].value.duplicate() };
                    assert(copy@ == members@[i as int]@);
                    assert(member_views(copies@.push(copy)) =~= member_views(copies@).push(copy@));
                    copies.push(copy);
                    i = i + 1;
                    assert(member_views(copies@) =~= member_views(members@).take(i as int));
                }
                proof {
                    lemma_object_view(copies);
                    assert(member_views(copies@) =~= member_views(members@));
                }
                Json::Object(copies)
            },
        }
    }

    /// Whether two values are the same, whatever the order of members.
    pub fn same(&self, other: &Json) -> (yes: bool)
        ensures
            yes == same_value(self@, other@),
        decreases self,
    {
        match (self, other) {
            (Json::Null, Json::Null) => true,
            (Json::Bool(a), Json::Bool(b)) => *a == *b,
            (Json::Int(a), Json::Int(b)) => *a == *b,
            (Json::Float(a), Json::Float(b)) => text::same_text(a.as_str(), b.as_str()),
            (Json::Text(a), Json::Text(b)) => text::same_text(a.as_str(), b.as_str()),
            (Json::Array(a), Json::Array(b)) => {
                proof {
                    lemma_array_view(*a);
                    lemma_array_view(*b);
                }
                let ghost xs = json_views(a@);
                let ghost ys = json_views(b@);
                if a.len() != b.len() {
                    return false;
                }
                let mut i: usize = 0;
                while i < a.len()
                    invariant
                        i <= a@.len(),
                        a@.len() == b@.len(),
                        xs == json_views(a@),
                        ys == json_views(b@),
                        self == Json::Array(*a),
                        self@ == JsonView::Array(xs),
                        other@ == JsonView::Array(ys),
                        same_items(xs, i as nat, ys),
                    decreases a@.len() - i,
                {
                    assert(xs[i as int] == a@[i as int]@ && ys[i as int] == b@[i as int]@);
                    if !a[i].same(&b[i]) {
                        proof {
                            lemma_other_item(xs, i as nat, xs.len(), ys);
                        }
                        return false;
                    }
                    i = i + 1;
                }
                true
            },
            (Json::Object(a), Json::Object(b)) => {
                proof {
                    lemma_object_view(*a);
                    lemma_object_view(*b);
                }
                let ghost ms = member_views(a@);
                let ghost ns = member_views(b@);
                if a.len() != b.len() {
                    return false;
                }
                let mut i: usize = 0;
                while i < a.len()
                    invariant
                        i <= a@.len(),
                        a@.len() == b@.len(),
                        ms == member_views(a@),
                        ns == member_views(b@),
                        self == Json::Object(*a),
                        self@ == JsonView::Object(ms),
                        other@ == JsonView::Object(ns),
                        same_members(ms, i as nat, ns),
                    decreases a@.len() - i,
                {
                    assert(ms[i as int] == a@[i as int]@);
                    let same = match other.get(a[i].key.as_str()) {
                        Some(value) => a[i].value.same(value),
                        None => false,
                    };
                    if !same {
                        proof {
                            lemma_other_member(ms, i as nat, ms.len(), ns);
                        }
                        return false;
                    }
                    i = i + 1;
                }
                true
            },
            _ => false,
        }
    }
}

proof fn lemma_other_item(xs: Seq<JsonView>, i: nat, n: nat, ys: Seq<JsonView>)
    requires
        i < n <= xs.len(),
        !same_value(xs[i as int], ys[i as int]),
    ensures
        !same_items(xs, n, ys),
    decreases n,
{
    if i < n - 1 {
        lemma_other_item(xs, i, (n - 1) as nat, ys);
    }
}

proof fn lemma_other_member(ms: Seq<MemberView>, i: nat, n: nat, ns: Seq<MemberView>)
    requires
        i < n <= ms.len(),
        match find_member(ns, ms[i as int].key) {
            Some(value) => !same_value(ms[i as int].value, value),
            None => true,
        },
    ensures
        !same_members(ms, n, ns),
    decreases n,
{
    if i < n - 1 {
        lemma_other_member(ms, i, (n - 1) as nat, ns);
    }
}

/// Appends one member.
pub fn push_member(members: &mut Vec<Member>, m: Member)
    ensures
        member_views(final(members)@) == member_views(old(members)@).push(m@),
{
    let ghost before = members@;
    members.push(m);
    assert(member_views(members@) =~= member_views(before).push(m@));
}

/// Several values, one for one.
pub fn duplicate_all(values: &Vec<Json>) -> (copies: Vec<Json>)
    ensures
        json_views(copies@) == json_views(values@),
{
    let mut copies: Vec<Json> = Vec::new();
    let mut i: usize = 0;
    while i < values.len()
        invariant
            i <= values@.len(),
            json_views(copies@) == json_views(values@).take(i as int),
        decreases values@.len() - i,
    {
        let ghost before = copies@;
        let copy = values[i].duplicate();
        copies.push(copy);
        i = i + 1;
        assert(json_views(copies@) =~= json_views(before).push(copy@));
        assert(json_views(copies@) =~= json_views(values@).take(i as int));
    }
    assert(json_views(copies@) =~= json_views(values@));
    copies
}

/// Appends the second list of members to the first.
pub fn append_members(members: &mut Vec<Member>, more: Vec<Member>)
    ensures
        member_views(final(members)@) == member_views(old(members)@) + member_views(more@),
{
    let ghost before = members@;
    let mut rest = more;
    members.append(&mut rest);
    assert(member_views(members@) =~= member_views(before) + member_views(more@));
}

/// A member is found by its key: its value is that of the first member with the key, and nothing is
/// found where no member has it.
pub proof fn law_members_are_found_by_their_key(members: Seq<MemberView>, key: Seq<char>)
    ensures
        forall|i: int|
            0 <= i < members.len() && #[trigger] members[i].key == key && (forall|j: int|
                0 <= j < i ==> (#[trigger] members[j]).key != key) ==> json_get(JsonView::Object(members), key)
                == Some(members[i].value),
        (forall|i: int| 0 <= i < members.len() ==> (#[trigger] members[i]).key != key) ==> json_get(
            JsonView::Object(members),
            key,
        ) is None,
    decreases members.len(),
{
    if members.len() > 0 {
        let rest = members.drop_first();
        law_members_are_found_by_their_key(rest, key);
        assert forall|i: int|
            0 <= i < members.len() && #[trigger] members[i].key == key && (forall|j: int|
                0 <= j < i ==> (#[trigger] members[j]).key != key) implies json_get(JsonView::Object(members), key)
            == Some(members[i].value) by {
            if i > 0 {
                assert(members[0].key != key);
                assert(rest[i - 1] == members[i]);
                assert forall|j: int| 0 <= j < i - 1 implies (#[trigger] rest[j]).key != key by {
                    assert(rest[j] == members[j + 1]);
                }
                assert(json_get(JsonView::Object(rest), key) == Some(rest[i - 1].value));
            }
        }
        if forall|i: int| 0 <= i < members.len() ==> (#[trigger] members[i]).key != key {
            assert(members[0].key != key);
            assert forall|j: int| 0 <= j < rest.len() implies (#[trigger] rest[j]).key != key by {
                assert(rest[j] == members[j + 1]);
            }
            assert(json_get(JsonView::Object(rest), key) is None);
        }
    }
}

/// The member at a place is found by its key where no member before it has the same.
pub proof fn lemma_member_found(members: Seq<MemberView>, i: int)
    requires
        0 <= i < members.len(),
        forall|j: int| 0 <= j < i ==> (#[trigger] members[j]).key != members[i].key,
    ensures
        json_get(JsonView::Object(members), members[i].key) == Some(members[i].value),
{
    law_members_are_found_by_their_key(members, members[i].key);
}

/// What is found by a key in two lists of members together is what is found in the first, or else in
/// the second.
pub proof fn lemma_member_of_either(first: Seq<MemberView>, second: Seq<MemberView>, key: Seq<char>)
    ensures
        json_get(JsonView::Object(first + second), key) == (match json_get(JsonView::Object(first), key) {
            Some(value) => Some(value),
            None => json_get(JsonView::Object(second), key),
        }),
    decreases first.len(),
{
    if first.len() == 0 {
        assert(first + second =~= second);
    } else {
        assert((first + second).drop_first() =~= first.drop_first() + second);
        lemma_member_of_either(first.drop_first(), second, key);
        assert(json_get(JsonView::Object(first.drop_first()), key) == find_member(first.drop_first(), key));
        assert(json_get(JsonView::Object(first.drop_first() + second), key) == find_member(
            first.drop_first() + second,
            key,
        ));
    }
}

proof fn lemma_each_item_same(xs: Seq<JsonView>, n: nat, ys: Seq<JsonView>)
    requires
        n <= xs.len(),
    ensures
        same_items(xs, n, ys) <==> forall|i: int| 0 <= i < n ==> same_value(#[trigger] xs[i], ys[i]),
    decreases n,
{
    if n > 0 {
        lemma_each_item_same(xs, (n - 1) as nat, ys);
    }
}

proof fn lemma_each_member_same(ms: Seq<MemberView>, n: nat, ns: Seq<MemberView>)
    requires
        n <= ms.len(),
    ensures
        same_members(ms, n, ns) <==> forall|i: int| 0 <= i < n ==> is_found_among(#[trigger] ms[i], ns),
    decreases n,
{
    if n > 0 {
        lemma_each_member_same(ms, (n - 1) as nat, ns);
        assert(json_get(JsonView::Object(ns), ms[n - 1].key) == find_member(ns, ms[n - 1].key));
    }
}

/// Whether a member's key is found among others, with the same value.
pub open spec fn is_found_among(m: MemberView, others: Seq<MemberView>) -> bool {
    json_get(JsonView::Object(others), m.key) matches Some(value) && same_value(m.value, value)
}

/// Two values are the same exactly where they are alike in every part: lists item by item and in order,
/// objects member by member and in any order, and anything else as it is.
pub proof fn law_values_are_the_same_part_by_part(a: JsonView, b: JsonView)
    ensures
        same_value(a, b) <==> match (a, b) {
            (JsonView::Array(xs), JsonView::Array(ys)) => xs.len() == ys.len() && forall|i: int|
                0 <= i < xs.len() ==> same_value(#[trigger] xs[i], ys[i]),
            (JsonView::Object(ms), JsonView::Object(ns)) => ms.len() == ns.len() && forall|i: int|
                0 <= i < ms.len() ==> is_found_among(#[trigger] ms[i], ns),
            _ => a == b,
        },
{
    match (a, b) {
        (JsonView::Array(xs), JsonView::Array(ys)) => {
            lemma_each_item_same(xs, xs.len(), ys);
        },
        (JsonView::Object(ms), JsonView::Object(ns)) => {
            lemma_each_member_same(ms, ms.len(), ns);
        },
        _ => {},
    }
}

/// A list is written as its items in order between brackets, and one more item follows a comma. An
/// object is written as its members in order between braces, each as its key, a colon and its value,
/// and one more member follows a comma.
pub proof fn law_lists_and_objects_are_written_in_order(
    items: Seq<JsonView>,
    item: JsonView,
    members: Seq<MemberView>,
    member: MemberView,
)
    ensures
        json_text(JsonView::Array(Seq::empty())) == seq!['[', ']'],
        json_text(JsonView::Object(Seq::empty())) == seq!['{', '}'],
        json_text(JsonView::Array(seq![item])) == seq!['['] + json_text(item) + seq![']'],
        json_text(JsonView::Object(seq![member])) == seq!['{'] + json_quoted(member.key) + seq![':'] + json_text(
            member.value,
        ) + seq!['}'],
        items.len() > 0 ==> json_text(JsonView::Array(items.push(item))) == json_text(
            JsonView::Array(items),
        ).drop_last() + seq![','] + json_text(item) + seq![']'],
        members.len() > 0 ==> json_text(JsonView::Object(members.push(member))) == json_text(
            JsonView::Object(members),
        ).drop_last() + seq![','] + json_quoted(member.key) + seq![':'] + json_text(member.value) + seq!['}'],
{
    assert(items_text(Seq::<JsonView>::empty(), 0) =~= Seq::<char>::empty());
    assert(members_text(Seq::<MemberView>::empty(), 0) =~= Seq::<char>::empty());
    assert(json_text(JsonView::Array(Seq::empty())) =~= seq!['[', ']']);
    assert(json_text(JsonView::Object(Seq::empty())) =~= seq!['{', '}']);
    assert(items_text(seq![item], 1) == json_text(item));
    assert(members_text(seq![member], 1) == member_text(member));
    assert(json_text(JsonView::Object(seq![member])) =~= seq!['{'] + json_quoted(member.key) + seq![':'] + json_text(
        member.value,
    ) + seq!['}']);
    if items.len() > 0 {
        let more = items.push(item);
        lemma_items_text_of_prefix(items, item, items.len());
        assert(more[items.len() as int] == item);
        assert(json_text(JsonView::Array(more)) =~= json_text(JsonView::Array(items)).drop_last() + seq![',']
            + json_text(item) + seq![']']);
    }
    if members.len() > 0 {
        let more = members.push(member);
        lemma_members_text_of_prefix(members, member, members.len());
        assert(more[members.len() as int] == member);
        assert(json_text(JsonView::Object(more)) =~= json_text(JsonView::Object(members)).drop_last() + seq![',']
            + json_quoted(member.key) + seq![':'] + json_text(member.value) + seq!['}']);
    }
}

proof fn lemma_items_text_of_prefix(items: Seq<JsonView>, item: JsonView, n: nat)
    requires
        n <= items.len(),
    ensures
        items_text(items.push(item), n) == items_text(items, n),
    decreases n,
{
    if n > 0 {
        lemma_items_text_of_prefix(items, item, (n - 1) as nat);
        assert(items.push(item)[n - 1] == items[n - 1]);
        assert(items.push(item)[0] == items[0]);
    }
}

proof fn lemma_members_text_of_prefix(members: Seq<MemberView>, member: MemberView, n: nat)
    requires
        n <= members.len(),
    ensures
        members_text(members.push(member), n) == members_text(members, n),
    decreases n,
{
    if n > 0 {
        lemma_members_text_of_prefix(members, member, (n - 1) as nat);
        assert(members.push(member)[n - 1] == members[n - 1]);
        assert(members.push(member)[0] == members[0]);
    }
}

} // verus!
