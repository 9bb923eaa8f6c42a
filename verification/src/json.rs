//! JSON values.
use vstd::prelude::*;

use crate::text;

verus! {

/// A JSON value.
#[derive(Debug)]
pub enum Json {
    Null,
    Bool(bool),
    /// A number, as an unsigned 64-bit integer where it is one.
    Number(Option<u64>),
    Text(String),
    List(Vec<Json>),
    /// An object: its fields with their names.
    Object(Vec<(String, Json)>),
}

/// The contents of a [`Json`].
pub enum JsonView {
    Null,
    Bool(bool),
    Number(Option<u64>),
    Text(Seq<char>),
    List(Seq<JsonView>),
    Object(Seq<(Seq<char>, JsonView)>),
}

impl Json {
    /// The contents.
    pub open spec fn model(self) -> JsonView
        decreases self,
    {
        match self {
            Json::Null => JsonView::Null,
            Json::Bool(b) => JsonView::Bool(b),
            Json::Number(n) => JsonView::Number(n),
            Json::Text(s) => JsonView::Text(s@),
            Json::List(items) => JsonView::List(
                Seq::new(
                    items@.len(),
                    |i: int|
                        if 0 <= i < items@.len() {
                            items@[i].model()
                        } else {
                            JsonView::Null
                        },
                ),
            ),
            Json::Object(fields) => JsonView::Object(
                Seq::new(
                    fields@.len(),
                    |i: int|
                        if 0 <= i < fields@.len() {
                            (fields@[i].0@, fields@[i].1.model())
                        } else {
                            (Seq::empty(), JsonView::Null)
                        },
                ),
            ),
        }
    }
}

/// The value of the first field of a name, from field `i` on.
pub open spec fn field_from(fields: Seq<(Seq<char>, JsonView)>, key: Seq<char>, i: int) -> Option<
    JsonView,
>
    decreases fields.len() - i,
{
    if i < 0 || i >= fields.len() {
        None
    } else if fields[i].0 == key {
        Some(fields[i].1)
    } else {
        field_from(fields, key, i + 1)
    }
}

impl JsonView {
    /// The field of a name; only an object has fields.
    pub open spec fn field(self, key: Seq<char>) -> Option<JsonView> {
        match self {
            JsonView::Object(fields) => field_from(fields, key, 0),
            _ => None,
        }
    }

    /// The text, where the value is one.
    pub open spec fn as_text(self) -> Option<Seq<char>> {
        match self {
            JsonView::Text(s) => Some(s),
            _ => None,
        }
    }

    /// The unsigned 64-bit integer, where the value is one.
    pub open spec fn as_number(self) -> Option<u64> {
        match self {
            JsonView::Number(n) => n,
            _ => None,
        }
    }

    /// The truth value, where the value is one.
    pub open spec fn as_truth(self) -> Option<bool> {
        match self {
            JsonView::Bool(b) => Some(b),
            _ => None,
        }
    }

    /// The text in the field of a name.
    pub open spec fn text_at(self, key: Seq<char>) -> Option<Seq<char>> {
        match self.field(key) {
            Some(v) => v.as_text(),
            None => None,
        }
    }

    /// The unsigned 64-bit integer in the field of a name.
    pub open spec fn number_at(self, key: Seq<char>) -> Option<u64> {
        match self.field(key) {
            Some(v) => v.as_number(),
            None => None,
        }
    }

    /// The truth value in the field of a name.
    pub open spec fn truth_at(self, key: Seq<char>) -> Option<bool> {
        match self.field(key) {
            Some(v) => v.as_truth(),
            None => None,
        }
    }

    /// The text at a place in a list.
    pub open spec fn text_of_item(self, i: int) -> Option<Seq<char>> {
        match self {
            JsonView::List(items) => if 0 <= i < items.len() {
                items[i].as_text()
            } else {
                None
            },
            _ => None,
        }
    }

    /// The items, where the value is a list.
    pub open spec fn items(self) -> Option<Seq<JsonView>> {
        match self {
            JsonView::List(items) => Some(items),
            _ => None,
        }
    }
}

impl Json {
    /// The field of a name; only an object has fields.
    pub fn get(&self, key: &str) -> (r: Option<&Json>)
        ensures
            match r {
                Some(v) => self.model().field(key@) == Some(v.model()),
                None => self.model().field(key@) is None,
            },
    {
        match self {
            Json::Object(fields) => {
                let ghost views = self.model()->Object_0;
                let mut i: usize = 0;
                while i < fields.len()
                    invariant
                        i <= fields@.len(),
                        views == self.model()->Object_0,
                        *self == Json::Object(*fields),
                        self.model().field(key@) == field_from(views, key@, i as int),
                    decreases fields.len() - i,
                {
                    assert(views[i as int] == (fields@[i as int].0@, fields@[i as int].1.model()));
                    if text::is_same(fields[i].0.as_str(), key) {
                        return Some(&fields[i].1);
                    }
                    i += 1;
                }
                None
            },
            _ => None,
        }
    }

    /// The text, where the value is one.
    pub fn as_str(&self) -> (r: Option<&str>)
        ensures
            match r {
                Some(s) => self.model().as_text() == Some(s@),
                None => self.model().as_text() is None,
            },
    {
        match self {
            Json::Text(s) => Some(s.as_str()),
            _ => None,
        }
    }

    /// The unsigned 64-bit integer, where the value is one.
    pub fn as_u64(&self) -> (r: Option<u64>)
        ensures
            r == self.model().as_number(),
    {
        match self {
            Json::Number(n) => *n,
            _ => None,
        }
    }

    /// The truth value, where the value is one.
    pub fn as_bool(&self) -> (r: Option<bool>)
        ensures
            r == self.model().as_truth(),
    {
        match self {
            Json::Bool(b) => Some(*b),
            _ => None,
        }
    }

    /// The text in the field of a name.
    pub fn text_at(&self, key: &str) -> (r: Option<&str>)
        ensures
            match r {
                Some(s) => self.model().text_at(key@) == Some(s@),
                None => self.model().text_at(key@) is None,
            },
    {
        match self.get(key) {
            Some(v) => v.as_str(),
            None => None,
        }
    }

    /// The unsigned 64-bit integer in the field of a name.
    pub fn number_at(&self, key: &str) -> (r: Option<u64>)
        ensures
            r == self.model().number_at(key@),
    {
        match self.get(key) {
            Some(v) => v.as_u64(),
            None => None,
        }
    }

    /// The truth value in the field of a name.
    pub fn truth_at(&self, key: &str) -> (r: Option<bool>)
        ensures
            r == self.model().truth_at(key@),
    {
        match self.get(key) {
            Some(v) => v.as_bool(),
            None => None,
        }
    }

    /// The text at a place in a list.
    pub fn text_of_item(&self, i: usize) -> (r: Option<&str>)
        ensures
            match r {
                Some(s) => self.model().text_of_item(i as int) == Some(s@),
                None => self.model().text_of_item(i as int) is None,
            },
    {
        match self {
            Json::List(items) => if i < items.len() {
                assert(self.model()->List_0[i as int] == items@[i as int].model());
                items[i].as_str()
            } else {
                None
            },
            _ => None,
        }
    }

    /// The items, where the value is a list.
    pub fn items(&self) -> (r: Option<&Vec<Json>>)
        ensures
            match (r, self.model().items()) {
                (Some(items), Some(views)) => items@.len() == views.len() && forall|i: int|
                    0 <= i < views.len() ==> #[trigger] views[i] == items@[i].model(),
                (None, None) => true,
                _ => false,
            },
    {
        match self {
            Json::List(items) => Some(items),
            _ => None,
        }
    }

    /// The value that a text stands for, where it is well-formed.
    pub fn parse(text: &str) -> (r: Option<Json>)
        ensures
            match (r, json_text(text@)) {
                (Some(v), Some(view)) => v.model() == view,
                (None, None) => true,
                _ => false,
            },
    {
        match value_of(text) {
            Some(v) => Some(convert(v)),
            None => None,
        }
    }
}

/// Whether a character may stand between the parts of a JSON text.
pub open spec fn is_blank(c: char) -> bool {
    c == ' ' || c == '\n' || c == '\t' || c == '\r'
}

/// What is known of a JSON text up to some place: its first character that is no blank, how many
/// brackets are open, whether the place is inside a quoted text and behind a backslash there, the
/// parts between the outer brackets that have ended, and the one that has not.
#[verifier::ext_equal]
pub struct Outlining {
    pub lead: Option<char>,
    pub depth: nat,
    pub quoted: bool,
    pub escaped: bool,
    pub done: Seq<Seq<char>>,
    pub open: Seq<char>,
}

impl Outlining {
    /// Before the first character.
    pub open spec fn start() -> Outlining {
        Outlining {
            lead: None,
            depth: 0,
            quoted: false,
            escaped: false,
            done: Seq::empty(),
            open: Seq::empty(),
        }
    }

    /// With a character that belongs to the open part, where there is one.
    pub open spec fn kept(self, c: char) -> Outlining {
        if self.depth > 0 {
            Outlining { open: self.open.push(c), ..self }
        } else {
            self
        }
    }

    /// With the open part ended.
    pub open spec fn ended(self) -> Outlining {
        Outlining { done: self.done.push(self.open), open: Seq::empty(), ..self }
    }

    /// Behind one more character. Brackets, commas and colons count outside quoted texts only;
    /// commas and colons part what stands directly between the outer brackets.
    pub open spec fn next(self, c: char) -> Outlining {
        let s = Outlining {
            lead: if self.lead is None && !is_blank(c) {
                Some(c)
            } else {
                self.lead
            },
            ..self
        };
        if s.quoted {
            Outlining {
                quoted: s.escaped || c != '"',
                escaped: !s.escaped && c == '\\',
                ..s.kept(c)
            }
        } else if c == '"' {
            Outlining { quoted: true, ..s.kept(c) }
        } else if c == '{' || c == '[' {
            Outlining { depth: s.depth + 1, ..s.kept(c) }
        } else if c == '}' || c == ']' {
            if s.depth > 1 {
                Outlining { depth: (s.depth - 1) as nat, ..s.kept(c) }
            } else if s.depth == 1 {
                Outlining { depth: 0, ..s.ended() }
            } else {
                s
            }
        } else if s.depth == 1 && (c == ',' || c == ':') {
            s.ended()
        } else {
            s.kept(c)
        }
    }
}

/// What is known of a JSON text at its end.
pub open spec fn outlined(text: Seq<char>) -> Outlining
    decreases text.len(),
{
    if text.len() == 0 {
        Outlining::start()
    } else {
        outlined(text.drop_last()).next(text.last())
    }
}

/// The outline of a JSON text: its first character that is no blank, and what stands between the
/// outer brackets, parted by commas and colons. For an object that is each name and each value,
/// for a list each item.
pub struct Outline {
    pub lead: Option<char>,
    pub parts: Vec<String>,
}

/// Reads the outline of a JSON text.
pub fn outline(json: &str) -> (r: Outline)
    ensures
        r.lead == outlined(json@).lead,
        r.parts.deep_view() == outlined(json@).done,
{
    let chars: Vec<char> = text::chars_of(json);
    let mut lead: Option<char> = None;
    let mut depth: usize = 0;
    let mut quoted = false;
    let mut escaped = false;
    let mut done: Vec<String> = Vec::new();
    let mut open = String::new();
    let mut i: usize = 0;
    assert(json@.take(0) =~= Seq::empty());
    assert(done.deep_view() =~= Seq::empty());
    assert(open@ =~= Seq::empty());
    while i < chars.len()
        invariant
            chars@ == json@,
            i <= chars@.len(),
            depth <= i,
            outlined(json@.take(i as int)) == (Outlining {
                lead,
                depth: depth as nat,
                quoted,
                escaped,
                done: done.deep_view(),
                open: open@,
            }),
        decreases chars.len() - i,
    {
        let c: char = chars[i];
        proof {
            assert(json@.take(i + 1).drop_last() =~= json@.take(i as int));
            assert(json@.take(i + 1).last() == c);
        }
        if lead.is_none() && c != ' ' && c != '\n' && c != '\t' && c != '\r' {
            lead = Some(c);
        }
        let inside = depth > 0;
        let mut ends = false;
        if quoted {
            quoted = escaped || c != '"';
            escaped = !escaped && c == '\\';
        } else if c == '"' {
            quoted = true;
        } else if c == '{' || c == '[' {
            depth += 1;
        } else if c == '}' || c == ']' {
            ends = depth == 1;
            if depth > 0 {
                depth -= 1;
            }
        } else {
            ends = depth == 1 && (c == ',' || c == ':');
        }
        let ghost parts = done.deep_view();
        let ghost part = open@;
        if ends {
            done.push(open);
            open = String::new();
            assert(done.deep_view() =~= parts.push(part));
            assert(open@ =~= Seq::empty());
        } else if inside {
            open.push(c);
        }
        i += 1;
    }
    assert(json@.take(i as int) =~= json@);
    Outline { lead, parts: done }
}

/// A value of the JSON parser.
#[verifier::external_type_specification]
#[verifier::external_body]
pub struct ExValue(serde_json::Value);

/// What `serde_json::from_str` reads from a text, or none where the text is not well-formed.
pub uninterp spec fn json_text(text: Seq<char>) -> Option<JsonView>;

/// What a `serde_json::Value` holds.
pub uninterp spec fn json_value(v: serde_json::Value) -> JsonView;

/// `serde_json::from_str` reads one JSON value from a text. What it reads is named by
/// [`json_text`]; it depends on the text alone.
#[verifier::external_body]
fn value_of(text: &str) -> (r: Option<serde_json::Value>)
    ensures
        match r {
            Some(v) => json_text(text@) == Some(json_value(v)),
            None => json_text(text@) is None,
        },
{
    serde_json::from_str(text).ok()
}

/// Whether `serde_json::from_str` can read over a text: whether its brackets, commas, colons,
/// names, quoted texts and numbers stand as in a JSON text, whatever the numbers and the escaped
/// characters are, and however deep the brackets go.
pub uninterp spec fn json_shape(text: Seq<char>) -> bool;

/// `serde_json::from_str`, asked for `serde::de::IgnoredAny`, reads over a text and keeps nothing
/// of it. Whether it can is named by [`json_shape`]; it depends on the text alone.
#[verifier::external_body]
pub(crate) fn is_shaped(text: &str) -> (r: bool)
    ensures
        r == json_shape(text@),
{
    serde_json::from_str::<serde::de::IgnoredAny>(text).is_ok()
}

/// Moves the contents of a `serde_json::Value`, named by [`json_value`], into a [`Json`], variant
/// by variant. A number keeps what `serde_json::Number::as_u64` gives.
#[verifier::external_body]
fn convert(v: serde_json::Value) -> (r: Json)
    ensures
        r.model() == json_value(v),
{
    match v {
        serde_json::Value::Null => Json::Null,
        serde_json::Value::Bool(b) => Json::Bool(b),
        serde_json::Value::Number(n) => Json::Number(n.as_u64()),
        serde_json::Value::String(s) => Json::Text(s),
        serde_json::Value::Array(a) => Json::List(a.into_iter().map(convert).collect()),
        serde_json::Value::Object(o) => {
            Json::Object(o.into_iter().map(|(k, x)| (k, convert(x))).collect())
        },
    }
}

/// A field of an object is the first with its name; a name that none has gives nothing, and so does
/// a value that is no object.
pub proof fn fields_are_found_by_name(
    fields: Seq<(Seq<char>, JsonView)>,
    key: Seq<char>,
    i: int,
)
    ensures
        0 <= i < fields.len() && fields[i].0 == key && (forall|j: int|
            0 <= j < i ==> (#[trigger] fields[j]).0 != key) ==> JsonView::Object(fields).field(key)
            == Some(fields[i].1),
        (forall|j: int| 0 <= j < fields.len() ==> (#[trigger] fields[j]).0 != key)
            ==> JsonView::Object(fields).field(key) is None,
        JsonView::Null.field(key) is None,
{
    if 0 <= i < fields.len() && fields[i].0 == key && (forall|j: int|
        0 <= j < i ==> (#[trigger] fields[j]).0 != key) {
        lemma_field_from(fields, key, 0, i);
    }
    if forall|j: int| 0 <= j < fields.len() ==> (#[trigger] fields[j]).0 != key {
        lemma_field_from(fields, key, 0, fields.len() as int);
    }
}

/// Fields with other names are passed over.
proof fn lemma_field_from(
    fields: Seq<(Seq<char>, JsonView)>,
    key: Seq<char>,
    from: int,
    to: int,
)
    requires
        0 <= from <= to <= fields.len(),
        forall|j: int| from <= j < to ==> (#[trigger] fields[j]).0 != key,
    ensures
        field_from(fields, key, from) == field_from(fields, key, to),
    decreases to - from,
{
    if from < to {
        lemma_field_from(fields, key, from + 1, to);
    }
}

/// A text, a number or a truth value is read only from a field that holds one.
pub proof fn fields_are_read_by_kind(v: JsonView, key: Seq<char>)
    ensures
        match v.field(key) {
            Some(JsonView::Text(s)) => v.text_at(key) == Some(s) && v.number_at(key) is None
                && v.truth_at(key) is None,
            Some(JsonView::Number(n)) => v.number_at(key) == n && v.text_at(key) is None
                && v.truth_at(key) is None,
            Some(JsonView::Bool(b)) => v.truth_at(key) == Some(b) && v.text_at(key) is None
                && v.number_at(key) is None,
            _ => v.text_at(key) is None && v.number_at(key) is None && v.truth_at(key) is None,
        },
{
}

/// An outline after some more text.
spec fn continued(start: Outlining, text: Seq<char>) -> Outlining
    decreases text.len(),
{
    if text.len() == 0 {
        start
    } else {
        continued(start, text.drop_last()).next(text.last())
    }
}

/// Outlining two texts one after the other is outlining them joined.
proof fn lemma_continued(a: Seq<char>, b: Seq<char>)
    ensures
        outlined(a + b) == continued(outlined(a), b),
    decreases b.len(),
{
    if b.len() == 0 {
        assert(a + b =~= a);
    } else {
        lemma_continued(a, b.drop_last());
        assert((a + b).drop_last() =~= a + b.drop_last());
        assert((a + b).last() == b.last());
    }
}

/// Whether a character means nothing to the structure of a text.
pub open spec fn is_plain(c: char) -> bool {
    c != '"' && c != '{' && c != '}' && c != '[' && c != ']' && c != ',' && c != ':'
}

/// Plain text is kept as it is in the part that is open.
proof fn lemma_plain(start: Outlining, text: Seq<char>)
    requires
        start.depth > 0,
        !start.quoted,
        start.lead is Some,
        forall|i: int| 0 <= i < text.len() ==> is_plain(#[trigger] text[i]),
    ensures
        continued(start, text) == (Outlining { open: start.open + text, ..start }),
    decreases text.len(),
{
    if text.len() == 0 {
        assert(start.open + text =~= start.open);
    } else {
        lemma_plain(start, text.drop_last());
        assert(is_plain(text[text.len() - 1]));
        assert(start.open + text =~= (start.open + text.drop_last()).push(text.last()));
    }
}

/// Text in quotes is kept as it is in the part that is open.
proof fn lemma_quoted(start: Outlining, text: Seq<char>)
    requires
        start.depth > 0,
        start.quoted,
        !start.escaped,
        start.lead is Some,
        forall|i: int|
            0 <= i < text.len() ==> (#[trigger] text[i]) != '"' && text[i] != '\\',
    ensures
        continued(start, text) == (Outlining { open: start.open + text, ..start }),
    decreases text.len(),
{
    if text.len() == 0 {
        assert(start.open + text =~= start.open);
    } else {
        lemma_quoted(start, text.drop_last());
        assert(text[text.len() - 1] == text.last());
        assert(start.open + text =~= (start.open + text.drop_last()).push(text.last()));
    }
}

/// A list is taken apart at its commas, and an object at its colons and commas; what stands first
/// tells which of them it is.
pub proof fn parts_are_separated(a: Seq<char>, b: Seq<char>)
    requires
        forall|i: int| 0 <= i < a.len() ==> is_plain(#[trigger] a[i]),
        forall|i: int| 0 <= i < b.len() ==> is_plain(#[trigger] b[i]),
    ensures
        outlined(seq!['['] + a + seq![','] + b + seq![']']).done == seq![a, b],
        outlined(seq!['['] + a + seq![','] + b + seq![']']).lead == Some('['),
        outlined(seq!['{'] + a + seq![':'] + b + seq!['}']).done == seq![a, b],
        outlined(seq!['{'] + a + seq![':'] + b + seq!['}']).lead == Some('{'),
{
    lemma_two_parts('[', a, ',', b, ']');
    lemma_two_parts('{', a, ':', b, '}');
}

/// The outline of two parts between brackets.
proof fn lemma_two_parts(open: char, a: Seq<char>, middle: char, b: Seq<char>, close: char)
    requires
        open == '[' || open == '{',
        middle == ',' || middle == ':',
        close == ']' || close == '}',
        forall|i: int| 0 <= i < a.len() ==> is_plain(#[trigger] a[i]),
        forall|i: int| 0 <= i < b.len() ==> is_plain(#[trigger] b[i]),
    ensures
        outlined(seq![open] + a + seq![middle] + b + seq![close]).done == seq![a, b],
        outlined(seq![open] + a + seq![middle] + b + seq![close]).lead == Some(open),
{
    reveal_with_fuel(continued, 2);
    reveal_with_fuel(outlined, 2);
    let s1 = seq![open];
    assert(s1.drop_last() =~= Seq::empty());
    let o1 = outlined(s1);
    assert(o1.depth == 1 && !o1.quoted && o1.lead == Some(open));
    assert(o1.open =~= Seq::empty() && o1.done =~= Seq::empty());
    lemma_continued(s1, a);
    lemma_plain(o1, a);
    assert(o1.open + a =~= a);
    let s2 = s1 + a;
    lemma_continued(s2, seq![middle]);
    assert(seq![middle].drop_last() =~= Seq::empty());
    let s3 = s2 + seq![middle];
    let o3 = outlined(s3);
    assert(o3.done =~= seq![a]);
    assert(o3.open =~= Seq::empty());
    lemma_continued(s3, b);
    lemma_plain(o3, b);
    assert(o3.open + b =~= b);
    let s4 = s3 + b;
    lemma_continued(s4, seq![close]);
    assert(seq![close].drop_last() =~= Seq::empty());
    assert(outlined(s4 + seq![close]).done =~= seq![a, b]);
}

/// A text in quotes is one part, with its quotes, whatever separators and brackets it holds; and so
/// is a list or an object within.
pub proof fn quotes_and_brackets_hold_together(text: Seq<char>, a: Seq<char>, b: Seq<char>)
    requires
        forall|i: int|
            0 <= i < text.len() ==> (#[trigger] text[i]) != '"' && text[i] != '\\',
        forall|i: int| 0 <= i < a.len() ==> is_plain(#[trigger] a[i]),
        forall|i: int| 0 <= i < b.len() ==> is_plain(#[trigger] b[i]),
    ensures
        outlined(seq!['[', '"'] + text + seq!['"', ']']).done == seq![
            seq!['"'] + text + seq!['"'],
        ],
        outlined(seq!['[', '['] + a + seq![','] + b + seq![']', ']']).done == seq![
            seq!['['] + a + seq![','] + b + seq![']'],
        ],
{
    reveal_with_fuel(continued, 3);
    reveal_with_fuel(outlined, 3);
    let s1 = seq!['[', '"'];
    assert(s1.drop_last() =~= seq!['[']);
    assert(seq!['['].drop_last() =~= Seq::empty());
    let o1 = outlined(s1);
    assert(o1.quoted && !o1.escaped && o1.depth == 1);
    assert(o1.open =~= seq!['"']);
    lemma_continued(s1, text);
    lemma_quoted(o1, text);
    let s2 = s1 + text;
    let tail = seq!['"', ']'];
    lemma_continued(s2, tail);
    assert(tail.drop_last() =~= seq!['"']);
    assert(seq!['"'].drop_last() =~= Seq::empty());
    assert(outlined(s2 + tail).done =~= seq![seq!['"'] + text + seq!['"']]) by {
        assert((o1.open + text).push('"') =~= seq!['"'] + text + seq!['"']);
    }
    let t1 = seq!['[', '['];
    assert(t1.drop_last() =~= seq!['[']);
    let p1 = outlined(t1);
    assert(p1.depth == 2 && !p1.quoted);
    assert(p1.open =~= seq!['[']);
    lemma_continued(t1, a);
    lemma_plain(p1, a);
    let t2 = t1 + a;
    lemma_continued(t2, seq![',']);
    assert(seq![','].drop_last() =~= Seq::empty());
    let t3 = t2 + seq![','];
    let p3 = outlined(t3);
    assert(p3.depth == 2 && !p3.quoted && p3.done =~= Seq::empty());
    assert(p3.open =~= seq!['['] + a + seq![',']);
    lemma_continued(t3, b);
    lemma_plain(p3, b);
    let t4 = t3 + b;
    let end = seq![']', ']'];
    lemma_continued(t4, end);
    assert(end.drop_last() =~= seq![']']);
    assert(seq![']'].drop_last() =~= Seq::empty());
    assert((p3.open + b).push(']') =~= seq!['['] + a + seq![','] + b + seq![']']);
    assert(outlined(t4 + end).done =~= seq![seq!['['] + a + seq![','] + b + seq![']']]);
}

/// Blanks in front are passed over; the first other character is what a text starts with.
pub proof fn blanks_are_passed_over(c: char, rest: Seq<char>)
    ensures
        ({
            let blank = c == ' ' || c == '\n' || c == '\t' || c == '\r';
            &&& blank ==> outlined(seq![c]) == outlined(Seq::empty())
            &&& !blank ==> outlined(seq![c] + rest).lead == Some(c)
        }),
    decreases rest.len(),
{
    reveal_with_fuel(outlined, 2);
    assert(seq![c].drop_last() =~= Seq::empty());
    if rest.len() > 0 {
        blanks_are_passed_over(c, rest.drop_last());
        assert((seq![c] + rest).drop_last() =~= seq![c] + rest.drop_last());
    } else {
        assert(seq![c] + rest =~= seq![c]);
    }
}

} // verus!
