//! JSON values, as the controller and the release list send them.
use vstd::prelude::*;

use crate::text::same;

verus! {

/// A JSON number. A number with a fraction or an exponent is carried by the bits of
/// its floating-point value, with negative zero written as zero.
#[derive(Clone, Copy, Debug, PartialEq, Eq, Structural)]
pub enum Number {
    Unsigned(u64),
    Negative(i64),
    Real(u64),
}

/// A JSON value. Where an object names a key twice, the later entry counts.
#[derive(Debug)]
pub enum Json {
    Null,
    Bool(bool),
    Number(Number),
    Text(String),
    Array(Vec<Json>),
    Object(Vec<(String, Json)>),
}

/// What a JSON value says: objects are maps, arrays are sequences.
pub enum JsonView {
    Null,
    Bool(bool),
    Number(Number),
    Text(Seq<char>),
    Array(Seq<JsonView>),
    Object(Map<Seq<char>, JsonView>),
}

impl View for Json {
    type V = JsonView;

    open spec fn view(&self) -> JsonView {
        json_view(*self)
    }
}

/// What a JSON value says.
pub open spec fn json_view(j: Json) -> JsonView
    decreases j,
{
    match j {
        Json::Null => JsonView::Null,
        Json::Bool(b) => JsonView::Bool(b),
        Json::Number(n) => JsonView::Number(n),
        Json::Text(s) => JsonView::Text(s@),
        Json::Array(v) => JsonView::Array(items_view(v@)),
        Json::Object(v) => JsonView::Object(fields_view(v@)),
    }
}

/// What the items of an array say.
pub open spec fn items_view(s: Seq<Json>) -> Seq<JsonView>
    decreases s,
{
    if s.len() == 0 {
        Seq::empty()
    } else {
        items_view(s.drop_last()).push(json_view(s.last()))
    }
}

/// What the entries of an object say.
pub open spec fn fields_view(s: Seq<(String, Json)>) -> Map<Seq<char>, JsonView>
    decreases s,
{
    if s.len() == 0 {
        Map::empty()
    } else {
        fields_view(s.drop_last()).insert(s.last().0@, json_view(s.last().1))
    }
}

/// The value of an object under a key; null where there is no object or no such key.
pub open spec fn field(v: JsonView, key: Seq<char>) -> JsonView {
    match v {
        JsonView::Object(m) => if m.dom().contains(key) {
            m[key]
        } else {
            JsonView::Null
        },
        _ => JsonView::Null,
    }
}

/// The text of a string value.
pub open spec fn text_of(v: JsonView) -> Option<Seq<char>> {
    match v {
        JsonView::Text(s) => Some(s),
        _ => None,
    }
}

/// An object with one more entry.
pub open spec fn with_field(v: JsonView, key: Seq<char>, value: JsonView) -> JsonView {
    match v {
        JsonView::Object(m) => JsonView::Object(m.insert(key, value)),
        _ => JsonView::Object(Map::empty().insert(key, value)),
    }
}

/// The value without the object entries that are null, at any depth. Null items of
/// arrays stay.
pub open spec fn strip(v: JsonView) -> JsonView
    decreases v,
{
    match v {
        JsonView::Array(s) => JsonView::Array(
            Seq::new(
                s.len(),
                |i: int|
                    if 0 <= i < s.len() {
                        strip(s[i])
                    } else {
                        JsonView::Null
                    },
            ),
        ),
        JsonView::Object(m) => JsonView::Object(
            Map::new(
                |k: Seq<char>| m.dom().contains(k) && m[k] != JsonView::Null,
                |k: Seq<char>|
                    if m.dom().contains(k) {
                        strip(m[k])
                    } else {
                        JsonView::Null
                    },
            ),
        ),
        _ => v,
    }
}

/// The last entry with a key, or -1.
spec fn last_entry(s: Seq<(String, Json)>, key: Seq<char>) -> int
    decreases s.len(),
{
    if s.len() == 0 {
        -1
    } else if s.last().0@ == key {
        s.len() - 1
    } else {
        last_entry(s.drop_last(), key)
    }
}

/// The last entry with a key is the one that counts.
proof fn lemma_last_entry(s: Seq<(String, Json)>, key: Seq<char>)
    ensures
        -1 <= last_entry(s, key) < s.len(),
        fields_view(s).dom().contains(key) <==> last_entry(s, key) >= 0,
        last_entry(s, key) >= 0 ==> {
            &&& s[last_entry(s, key)].0@ == key
            &&& fields_view(s)[key] == json_view(s[last_entry(s, key)].1)
        },
        forall|i: int| last_entry(s, key) < i < s.len() ==> #[trigger] s[i].0@ != key,
    decreases s.len(),
{
    if s.len() > 0 {
        lemma_last_entry(s.drop_last(), key);
        let prev = s.drop_last();
        assert forall|i: int| last_entry(s, key) < i < s.len() implies #[trigger] s[i].0@ != key by {
            if i < s.len() - 1 {
                assert(prev[i].0@ != key);
            }
        }
    }
}

/// Each item of an array says what it says on its own.
pub proof fn lemma_items_view(s: Seq<Json>)
    ensures
        items_view(s).len() == s.len(),
        forall|i: int| 0 <= i < s.len() ==> #[trigger] items_view(s)[i] == json_view(s[i]),
    decreases s.len(),
{
    if s.len() > 0 {
        lemma_items_view(s.drop_last());
        assert forall|i: int| 0 <= i < s.len() implies #[trigger] items_view(s)[i] == json_view(s[i]) by {
            if i < s.len() - 1 {
                assert(items_view(s.drop_last())[i] == json_view(s.drop_last()[i]));
            }
        }
    }
}

/// The index of the entry that counts for a key.
fn find(v: &Vec<(String, Json)>, key: &str) -> (r: Option<usize>)
    ensures
        match r {
            Some(i) => i < v.len() && i == last_entry(v@, key@),
            None => last_entry(v@, key@) == -1,
        },
{
    let mut found: Option<usize> = None;
    for i in 0..v.len()
        invariant
            match found {
                Some(j) => j < i && j == last_entry(v@.take(i as int), key@),
                None => last_entry(v@.take(i as int), key@) == -1,
            },
    {
        assert(v@.take(i + 1).drop_last() == v@.take(i as int));
        if same(v[i].0.as_str(), key) {
            found = Some(i);
        }
    }
    assert(v@.take(v@.len() as int) == v@);
    found
}

impl Json {
    /// An object without entries.
    pub fn object() -> (r: Json)
        ensures
            r@ == JsonView::Object(Map::empty()),
    {
        Json::Object(Vec::new())
    }

    /// A string value.
    pub fn text(s: &str) -> (r: Json)
        ensures
            r@ == JsonView::Text(s@),
    {
        Json::Text(s.to_owned())
    }

    /// A string value, or null.
    pub fn optional_text(s: &Option<String>) -> (r: Json)
        ensures
            r@ == match *s {
                Some(t) => JsonView::Text(t@),
                None => JsonView::Null,
            },
    {
        match s {
            Some(t) => Json::Text(t.clone()),
            None => Json::Null,
        }
    }

    /// A number that is not negative.
    pub fn unsigned(n: u64) -> (r: Json)
        ensures
            r@ == JsonView::Number(Number::Unsigned(n)),
    {
        Json::Number(Number::Unsigned(n))
    }

    /// A number.
    pub fn signed(n: i64) -> (r: Json)
        ensures
            r@ == JsonView::Number(
                if n < 0 {
                    Number::Negative(n)
                } else {
                    Number::Unsigned(n as u64)
                },
            ),
    {
        if n < 0 {
            Json::Number(Number::Negative(n))
        } else {
            Json::Number(Number::Unsigned(n as u64))
        }
    }

    /// This object with one more entry.
    pub fn with(self, key: &str, value: Json) -> (r: Json)
        requires
            self is Object,
        ensures
            r@ == with_field(self@, key@, value@),
            r is Object,
    {
        let mut out = self;
        out.set(key, value);
        out
    }

    /// Sets an entry of an object; null becomes an object first.
    pub fn set(&mut self, key: &str, value: Json)
        requires
            *old(self) is Object || *old(self) is Null,
        ensures
            final(self)@ == with_field(old(self)@, key@, value@),
            *final(self) is Object,
    {
        let mut entries: Vec<(String, Json)> = Vec::new();
        let mut old_value = Json::Null;
        std::mem::swap(self, &mut old_value);
        if let Json::Object(v) = old_value {
            entries = v;
        }
        let ghost before = entries@;
        assert(with_field(old(self)@, key@, value@) == JsonView::Object(
            fields_view(before).insert(key@, value@),
        ));
        entries.push((key.to_owned(), value));
        assert(entries@.drop_last() == before);
        *self = Json::Object(entries);
    }

    /// The value under a key; null where there is no object or no such key.
    pub fn field(&self, key: &str) -> (r: &Json)
        ensures
            r@ == field(self@, key@),
    {
        match self {
            Json::Object(v) => {
                proof {
                    lemma_last_entry(v@, key@);
                }
                match find(v, key) {
                    Some(i) => &v[i].1,
                    None => &Json::Null,
                }
            },
            _ => &Json::Null,
        }
    }

    /// The text of a string value.
    pub fn as_str(&self) -> (r: Option<&str>)
        ensures
            text_of(self@) == match r {
                Some(s) => Some(s@),
                None => None,
            },
    {
        match self {
            Json::Text(s) => Some(s.as_str()),
            _ => None,
        }
    }

    /// The items of an array.
    pub fn as_array(&self) -> (r: Option<&Vec<Json>>)
        ensures
            match r {
                Some(v) => self@ == JsonView::Array(items_view(v@)),
                None => !(self@ is Array),
            },
    {
        match self {
            Json::Array(v) => Some(v),
            _ => None,
        }
    }

    /// The value of a number that is a non-negative integer.
    pub fn as_u64(&self) -> (r: Option<u64>)
        ensures
            r == match self@ {
                JsonView::Number(Number::Unsigned(n)) => Some(n),
                _ => None,
            },
    {
        match self {
            Json::Number(Number::Unsigned(n)) => Some(*n),
            _ => None,
        }
    }

    /// Whether the value is null.
    pub fn is_null(&self) -> (r: bool)
        ensures
            r == (self@ == JsonView::Null),
    {
        match self {
            Json::Null => true,
            _ => false,
        }
    }

    /// Whether the value is an object.
    pub fn is_object(&self) -> (r: bool)
        ensures
            r == (self@ is Object),
            r == (self is Object),
    {
        match self {
            Json::Object(_) => true,
            _ => false,
        }
    }

    /// Whether the value is `true`.
    pub fn is_true(&self) -> (r: bool)
        ensures
            r == (self@ == JsonView::Bool(true)),
    {
        match self {
            Json::Bool(b) => *b,
            _ => false,
        }
    }

    /// Whether the value is the given string.
    pub fn is_text(&self, s: &str) -> (r: bool)
        ensures
            r == (self@ == JsonView::Text(s@)),
    {
        match self {
            Json::Text(t) => same(t.as_str(), s),
            _ => false,
        }
    }

    /// Another value that says the same.
    pub fn copy(&self) -> (r: Json)
        ensures
            r@ == self@,
            r is Object == (*self is Object),
        decreases self,
    {
        match self {
            Json::Null => Json::Null,
            Json::Bool(b) => Json::Bool(*b),
            Json::Number(n) => Json::Number(*n),
            Json::Text(s) => Json::Text(s.clone()),
            Json::Array(v) => Json::Array(copy_items(v)),
            Json::Object(v) => Json::Object(copy_fields(v)),
        }
    }

    /// Whether two values say the same.
    pub fn equals(&self, other: &Json) -> (r: bool)
        ensures
            r == (self@ == other@),
        decreases self,
    {
        match (self, other) {
            (Json::Null, Json::Null) => true,
            (Json::Bool(a), Json::Bool(b)) => *a == *b,
            (Json::Number(a), Json::Number(b)) => *a == *b,
            (Json::Text(a), Json::Text(b)) => *a == *b,
            (Json::Array(a), Json::Array(b)) => equal_items(a, b),
            (Json::Object(a), Json::Object(b)) => equal_fields(a, b),
            _ => false,
        }
    }
}

/// Items that say the same.
pub fn copy_items(v: &Vec<Json>) -> (out: Vec<Json>)
    ensures
        items_view(out@) == items_view(v@),
    decreases v,
{
    let mut out: Vec<Json> = Vec::new();
    let mut i: usize = 0;
    while i < v.len()
        invariant
            i <= v.len(),
            items_view(out@) == items_view(v@.take(i as int)),
        decreases v.len() - i,
    {
        let item = v[i].copy();
        let ghost before = out@;
        out.push(item);
        i += 1;
        assert(v@.take(i as int).drop_last() == v@.take(i - 1));
        assert(out@.drop_last() == before);
    }
    assert(v@.take(i as int) == v@);
    out
}

fn copy_fields(v: &Vec<(String, Json)>) -> (out: Vec<(String, Json)>)
    ensures
        fields_view(out@) == fields_view(v@),
    decreases v,
{
    let mut out: Vec<(String, Json)> = Vec::new();
    let mut i: usize = 0;
    while i < v.len()
        invariant
            i <= v.len(),
            fields_view(out@) == fields_view(v@.take(i as int)),
        decreases v.len() - i,
    {
        let value = v[i].1.copy();
        let key = v[i].0.clone();
        let ghost before = out@;
        out.push((key, value));
        i += 1;
        assert(v@.take(i as int).drop_last() == v@.take(i - 1));
        assert(out@.drop_last() == before);
    }
    assert(v@.take(i as int) == v@);
    out
}

fn equal_items(a: &Vec<Json>, b: &Vec<Json>) -> (r: bool)
    ensures
        r == (items_view(a@) == items_view(b@)),
    decreases a,
{
    proof {
        lemma_items_view(a@);
        lemma_items_view(b@);
    }
    if a.len() != b.len() {
        return false;
    }
    let mut i: usize = 0;
    while i < a.len()
        invariant
            i <= a.len(),
            a.len() == b.len(),
            items_view(a@).len() == a.len(),
            items_view(b@).len() == b.len(),
            forall|j: int| 0 <= j < a.len() ==> #[trigger] items_view(a@)[j] == json_view(a@[j]),
            forall|j: int| 0 <= j < b.len() ==> #[trigger] items_view(b@)[j] == json_view(b@[j]),
            forall|j: int| 0 <= j < i ==> items_view(a@)[j] == items_view(b@)[j],
        decreases a.len() - i,
    {
        if !a[i].equals(&b[i]) {
            assert(items_view(a@)[i as int] != items_view(b@)[i as int]);
            return false;
        }
        assert(items_view(a@)[i as int] == items_view(b@)[i as int]);
        i += 1;
    }
    assert(items_view(a@) == items_view(b@));
    true
}

fn equal_fields(a: &Vec<(String, Json)>, b: &Vec<(String, Json)>) -> (r: bool)
    ensures
        r == (fields_view(a@) == fields_view(b@)),
    decreases a,
{
    let mut i: usize = 0;
    while i < a.len()
        invariant
            i <= a.len(),
            forall|j: int|
                #![trigger a@[j]]
                0 <= j < i ==> {
                    &&& fields_view(b@).dom().contains(a@[j].0@)
                    &&& fields_view(b@)[a@[j].0@] == fields_view(a@)[a@[j].0@]
                },
        decreases a.len() - i,
    {
        let key = a[i].0.as_str();
        proof {
            lemma_last_entry(a@, key@);
            lemma_last_entry(b@, key@);
            assert(a@[i as int].0@ == key@);
        }
        match (find(a, key), find(b, key)) {
            (Some(m), Some(n)) => {
                if !a[m].1.equals(&b[n].1) {
                    return false;
                }
            },
            _ => {
                return false;
            },
        }
        i += 1;
    }
    let mut k: usize = 0;
    while k < b.len()
        invariant
            k <= b.len(),
            forall|j: int|
                #![trigger b@[j]]
                0 <= j < k ==> fields_view(a@).dom().contains(b@[j].0@),
        decreases b.len() - k,
    {
        let key = b[k].0.as_str();
        proof {
            lemma_last_entry(a@, key@);
            lemma_last_entry(b@, key@);
            assert(b@[k as int].0@ == key@);
        }
        if find(a, key).is_none() {
            return false;
        }
        k += 1;
    }
    proof {
        let va = fields_view(a@);
        let vb = fields_view(b@);
        assert forall|key: Seq<char>| #[trigger] va.dom().contains(key) implies vb.dom().contains(key) && va[key]
            == vb[key] by {
            lemma_last_entry(a@, key);
            assert(a@[last_entry(a@, key)].0@ == key);
        }
        assert forall|key: Seq<char>| #[trigger] vb.dom().contains(key) implies va.dom().contains(key) by {
            lemma_last_entry(b@, key);
            assert(b@[last_entry(b@, key)].0@ == key);
        }
        assert(va =~= vb);
    }
    true
}

/// The value without the object entries that are null, at any depth: the controller
/// may write an absent optional field as an explicit null.
pub fn without_nulls(value: &Json) -> (r: Json)
    ensures
        r@ == strip(value@),
    decreases value,
{
    match value {
        Json::Array(v) => {
            let out = strip_items(v);
            proof {
                lemma_items_view(v@);
                assert(items_view(out@) =~= strip(value@)->Array_0);
            }
            Json::Array(out)
        },
        Json::Object(v) => {
            let out = strip_fields(v);
            proof {
                assert(fields_view(out@) =~= strip(value@)->Object_0);
            }
            Json::Object(out)
        },
        _ => value.copy(),
    }
}

fn strip_items(v: &Vec<Json>) -> (out: Vec<Json>)
    ensures
        items_view(out@).len() == v.len(),
        forall|j: int| 0 <= j < v.len() ==> #[trigger] items_view(out@)[j] == strip(json_view(v@[j])),
    decreases v,
{
    let mut out: Vec<Json> = Vec::new();
    let mut i: usize = 0;
    while i < v.len()
        invariant
            i <= v.len(),
            items_view(out@).len() == i,
            forall|j: int| 0 <= j < i ==> #[trigger] items_view(out@)[j] == strip(json_view(v@[j])),
        decreases v.len() - i,
    {
        let item = without_nulls(&v[i]);
        let ghost before = out@;
        out.push(item);
        i += 1;
        assert(out@.drop_last() == before);
    }
    out
}

fn strip_fields(v: &Vec<(String, Json)>) -> (out: Vec<(String, Json)>)
    ensures
        forall|k: Seq<char>|
            #![trigger fields_view(out@).dom().contains(k)]
            fields_view(out@).dom().contains(k) <==> fields_view(v@).dom().contains(k) && fields_view(v@)[k]
                != JsonView::Null,
        forall|k: Seq<char>|
            #![trigger fields_view(out@)[k]]
            fields_view(out@).dom().contains(k) ==> fields_view(out@)[k] == strip(fields_view(v@)[k]),
    decreases v,
{
    let mut out: Vec<(String, Json)> = Vec::new();
    let mut i: usize = 0;
    while i < v.len()
        invariant
            i <= v.len(),
            forall|k: Seq<char>|
                #![trigger fields_view(out@).dom().contains(k)]
                fields_view(out@).dom().contains(k) <==> (0 <= last_entry(v@, k) < i && json_view(
                    v@[last_entry(v@, k)].1,
                ) != JsonView::Null),
            forall|k: Seq<char>|
                #![trigger fields_view(out@)[k]]
                fields_view(out@).dom().contains(k) ==> fields_view(out@)[k] == strip(
                    json_view(v@[last_entry(v@, k)].1),
                ),
        decreases v.len() - i,
    {
        let key = v[i].0.as_str();
        proof {
            lemma_last_entry(v@, key@);
            assert forall|k: Seq<char>| #[trigger] last_entry(v@, k) == i implies k == key@ by {
                lemma_last_entry(v@, k);
            }
        }
        let counts = match find(v, key) {
            Some(j) => j == i,
            None => false,
        };
        let ghost before = out@;
        if counts && !v[i].1.is_null() {
            let value = without_nulls(&v[i].1);
            out.push((v[i].0.clone(), value));
            assert(out@.drop_last() == before);
        }
        proof {
            assert forall|k: Seq<char>|
                #![trigger fields_view(out@).dom().contains(k)]
                #![trigger fields_view(out@)[k]]
                true implies (fields_view(out@).dom().contains(k) <==> (0 <= last_entry(v@, k) < i + 1
                && json_view(v@[last_entry(v@, k)].1) != JsonView::Null)) && (fields_view(out@).dom().contains(k)
                ==> fields_view(out@)[k] == strip(json_view(v@[last_entry(v@, k)].1))) by {
                lemma_last_entry(v@, k);
                assert(fields_view(before).dom().contains(k) <==> (0 <= last_entry(v@, k) < i && json_view(
                    v@[last_entry(v@, k)].1,
                ) != JsonView::Null));
            }
        }
        i += 1;
    }
    proof {
        assert forall|k: Seq<char>| #![trigger last_entry(v@, k)] true implies (last_entry(v@, k) >= 0
            <==> fields_view(v@).dom().contains(k)) && (last_entry(v@, k) >= 0 ==> fields_view(v@)[k]
            == json_view(v@[last_entry(v@, k)].1)) && last_entry(v@, k) < v.len() by {
            lemma_last_entry(v@, k);
        }
    }
    out
}

/// An entry that is set is found under its key, and other entries are found as before.
pub proof fn law_entries_are_found_under_their_key(v: JsonView, key: Seq<char>, value: JsonView, other: Seq<char>)
    ensures
        field(with_field(v, key, value), key) == value,
        other != key && v is Object ==> field(with_field(v, key, value), other) == field(v, other),
        other != key && !(v is Object) ==> field(with_field(v, key, value), other) == JsonView::Null,
        !(v is Object) ==> field(v, key) == JsonView::Null,
{
}

/// Dropping nulls takes exactly the null entries out of objects, at any depth; items of arrays
/// stay where they are, and everything else is left as it is.
pub proof fn law_only_null_entries_are_dropped(v: JsonView, key: Seq<char>, i: int)
    ensures
        v matches JsonView::Object(m) ==> {
            &&& strip(v) is Object
            &&& strip(v)->Object_0.dom().contains(key) <==> m.dom().contains(key) && m[key] != JsonView::Null
            &&& m.dom().contains(key) && m[key] != JsonView::Null ==> strip(v)->Object_0[key] == strip(m[key])
        },
        v matches JsonView::Array(s) ==> {
            &&& strip(v) is Array
            &&& strip(v)->Array_0.len() == s.len()
            &&& 0 <= i < s.len() ==> strip(v)->Array_0[i] == strip(s[i])
        },
        !(v is Object) && !(v is Array) ==> strip(v) == v,
{
}

} // verus!
