//! JSON values, as requests and replies carry them.
//!
//! The text form is `serde_json`'s business; what the rest of the library
//! reads and builds is the plain [`Json`] value, whose model is [`JsonView`].

use crate::text::{decimal, same};
use vstd::prelude::*;

verus! {

/// A JSON value. A number that is no unsigned 64-bit integer is kept as its
/// text. Where a key occurs twice among the members of an object, the later
/// one counts.
#[derive(Debug)]
pub enum Json {
    Null,
    Bool(bool),
    Natural(u64),
    Numeral(String),
    Text(String),
    List(Vec<Json>),
    Object(Vec<(String, Json)>),
}

/// What a JSON value is, whatever the order of its members.
#[verifier::ext_equal]
pub enum JsonView {
    Null,
    Bool(bool),
    Natural(u64),
    Numeral(Seq<char>),
    Text(Seq<char>),
    List(Seq<JsonView>),
    Object(Map<Seq<char>, JsonView>),
}

impl JsonView {
    /// The object without members.
    pub open spec fn object() -> JsonView {
        JsonView::Object(Map::empty())
    }

    /// The object with one more member.
    pub open spec fn with(self, key: Seq<char>, value: JsonView) -> JsonView {
        match self {
            JsonView::Object(m) => JsonView::Object(m.insert(key, value)),
            _ => self,
        }
    }

    /// The member of that name, where this is an object that has one.
    pub open spec fn member(self, key: Seq<char>) -> Option<JsonView> {
        match self {
            JsonView::Object(m) => if m.contains_key(key) {
                Some(m[key])
            } else {
                None
            },
            _ => None,
        }
    }

    pub open spec fn as_text(self) -> Option<Seq<char>> {
        match self {
            JsonView::Text(s) => Some(s),
            _ => None,
        }
    }

    pub open spec fn as_natural(self) -> Option<u64> {
        match self {
            JsonView::Natural(n) => Some(n),
            _ => None,
        }
    }

    pub open spec fn as_bool(self) -> Option<bool> {
        match self {
            JsonView::Bool(b) => Some(b),
            _ => None,
        }
    }

    pub open spec fn as_list(self) -> Option<Seq<JsonView>> {
        match self {
            JsonView::List(l) => Some(l),
            _ => None,
        }
    }

    /// The text of the member of that name, where it is a text.
    pub open spec fn text_member(self, key: Seq<char>) -> Option<Seq<char>> {
        match self.member(key) {
            Some(v) => v.as_text(),
            None => None,
        }
    }

    pub open spec fn natural_member(self, key: Seq<char>) -> Option<u64> {
        match self.member(key) {
            Some(v) => v.as_natural(),
            None => None,
        }
    }

    pub open spec fn bool_member(self, key: Seq<char>) -> Option<bool> {
        match self.member(key) {
            Some(v) => v.as_bool(),
            None => None,
        }
    }
}

/// A text, or null where there is none.
pub open spec fn text_or_null(s: Option<Seq<char>>) -> JsonView {
    match s {
        Some(x) => JsonView::Text(x),
        None => JsonView::Null,
    }
}

/// A number, or null where there is none.
pub open spec fn natural_or_null(n: Option<u64>) -> JsonView {
    match n {
        Some(x) => JsonView::Natural(x),
        None => JsonView::Null,
    }
}

/// The list of these texts.
pub open spec fn text_list(v: Seq<Seq<char>>) -> JsonView {
    JsonView::List(Seq::new(v.len(), |i: int| JsonView::Text(v[i])))
}

/// The models of the elements.
pub open spec fn list_view(v: Seq<Json>) -> Seq<JsonView>
    decreases v,
{
    if v.len() == 0 {
        Seq::empty()
    } else {
        list_view(v.drop_last()).push(v.last().view())
    }
}

/// The members that the pairs make, a later one in place of an earlier one.
pub open spec fn members_view(v: Seq<(String, Json)>) -> Map<Seq<char>, JsonView>
    decreases v,
{
    if v.len() == 0 {
        Map::empty()
    } else {
        members_view(v.drop_last()).insert(v.last().0@, v.last().1.view())
    }
}

impl View for Json {
    type V = JsonView;

    open spec fn view(&self) -> JsonView
        decreases self,
    {
        match self {
            Json::Null => JsonView::Null,
            Json::Bool(b) => JsonView::Bool(*b),
            Json::Natural(n) => JsonView::Natural(*n),
            Json::Numeral(s) => JsonView::Numeral(s@),
            Json::Text(s) => JsonView::Text(s@),
            Json::List(v) => JsonView::List(list_view(v@)),
            Json::Object(v) => JsonView::Object(members_view(v@)),
        }
    }
}

/// Each element has its model at its place.
pub proof fn lemma_list_view(v: Seq<Json>)
    ensures
        list_view(v).len() == v.len(),
        forall|i: int| 0 <= i < v.len() ==> #[trigger] list_view(v)[i] == v[i]@,
    decreases v.len(),
{
    reveal_with_fuel(list_view, 2);
    if v.len() > 0 {
        lemma_list_view(v.drop_last());
        assert forall|i: int| 0 <= i < v.len() implies #[trigger] list_view(v)[i] == v[i]@ by {
            if i < v.len() - 1 {
                assert(v.drop_last()[i] == v[i]);
            }
        }
    }
}

/// The last pair with a key gives the member of that name.
pub proof fn lemma_member(v: Seq<(String, Json)>, key: Seq<char>, i: int)
    requires
        -1 <= i < v.len(),
        i >= 0 ==> v[i].0@ == key,
        forall|j: int| i < j < v.len() ==> (#[trigger] v[j]).0@ != key,
    ensures
        members_view(v).contains_key(key) <==> i >= 0,
        i >= 0 ==> members_view(v)[key] == v[i].1@,
    decreases v.len(),
{
    reveal_with_fuel(members_view, 2);
    if v.len() > 0 && i < v.len() - 1 {
        let t = v.drop_last();
        assert forall|j: int| i < j < t.len() implies (#[trigger] t[j]).0@ != key by {
            assert(t[j] == v[j]);
        }
        assert(i >= 0 ==> t[i] == v[i]);
        assert(v[v.len() - 1].0@ != key);
        lemma_member(t, key, i);
    }
}

impl Json {
    /// The object without members.
    pub fn object() -> (r: Json)
        ensures
            r@ == JsonView::object(),
            r is Object,
    {
        Json::Object(Vec::new())
    }

    /// The object with one more member.
    pub fn with(self, key: &str, value: Json) -> (r: Json)
        requires
            self is Object,
        ensures
            r@ == self@.with(key@, value@),
            r is Object,
    {
        match self {
            Json::Object(v) => {
                let mut v = v;
                let ghost old_v = v@;
                v.push((key.to_owned(), value));
                assert(v@.drop_last() == old_v);
                Json::Object(v)
            },
            other => other,
        }
    }

    /// A text.
    pub fn text(s: &str) -> (r: Json)
        ensures
            r@ == JsonView::Text(s@),
    {
        Json::Text(s.to_owned())
    }

    /// A text, or null where there is none.
    pub fn text_or_null(s: &Option<String>) -> (r: Json)
        ensures
            r@ == text_or_null(crate::text::text_opt(*s)),
    {
        match s {
            Some(x) => Json::text(x.as_str()),
            None => Json::Null,
        }
    }

    /// The list of these texts.
    pub fn texts(v: &Vec<String>) -> (r: Json)
        ensures
            r@ == text_list(crate::text::texts(v@)),
    {
        let mut out: Vec<Json> = Vec::new();
        let mut i: usize = 0;
        while i < v.len()
            invariant
                i <= v@.len(),
                out@.len() == i,
                forall|j: int| 0 <= j < i ==> (#[trigger] out@[j])@ == JsonView::Text(v@[j]@),
            decreases v@.len() - i,
        {
            out.push(Json::text(v[i].as_str()));
            i = i + 1;
        }
        proof {
            lemma_list_view(out@);
            assert(list_view(out@) == Seq::new(v@.len(), |i: int| JsonView::Text(crate::text::texts(v@)[i])));
        }
        Json::List(out)
    }

    /// The member of that name, where this is an object that has one.
    pub fn get(&self, key: &str) -> (r: Option<&Json>)
        ensures
            match r {
                Some(v) => self@.member(key@) == Some(v@),
                None => self@.member(key@) is None,
            },
    {
        match self {
            Json::Object(v) => {
                let mut i: usize = v.len();
                while i > 0
                    invariant
                        i <= v@.len(),
                        self == Json::Object(*v),
                        forall|j: int| i <= j < v@.len() ==> (#[trigger] v@[j]).0@ != key@,
                    decreases i,
                {
                    if same(v[i - 1].0.as_str(), key) {
                        proof {
                            lemma_member(v@, key@, i - 1);
                        }
                        return Some(&v[i - 1].1);
                    }
                    i = i - 1;
                }
                proof {
                    lemma_member(v@, key@, -1);
                }
                None
            },
            _ => None,
        }
    }

    pub fn as_str(&self) -> (r: Option<&str>)
        ensures
            crate::text::str_opt(r) == self@.as_text(),
    {
        match self {
            Json::Text(s) => Some(s.as_str()),
            _ => None,
        }
    }

    pub fn as_u64(&self) -> (r: Option<u64>)
        ensures
            r == self@.as_natural(),
    {
        match self {
            Json::Natural(n) => Some(*n),
            _ => None,
        }
    }

    pub fn as_bool(&self) -> (r: Option<bool>)
        ensures
            r == self@.as_bool(),
    {
        match self {
            Json::Bool(b) => Some(*b),
            _ => None,
        }
    }

    /// The elements, where this is a list.
    pub fn as_list(&self) -> (r: Option<&Vec<Json>>)
        ensures
            match r {
                Some(v) => self@.as_list() == Some(list_view(v@)),
                None => self@.as_list() is None,
            },
    {
        match self {
            Json::List(v) => Some(v),
            _ => None,
        }
    }

    /// The text of the member of that name, where it is a text.
    pub fn text_member(&self, key: &str) -> (r: Option<&str>)
        ensures
            crate::text::str_opt(r) == self@.text_member(key@),
    {
        match self.get(key) {
            Some(v) => v.as_str(),
            None => None,
        }
    }

    pub fn natural_member(&self, key: &str) -> (r: Option<u64>)
        ensures
            r == self@.natural_member(key@),
    {
        match self.get(key) {
            Some(v) => v.as_u64(),
            None => None,
        }
    }

    pub fn bool_member(&self, key: &str) -> (r: Option<bool>)
        ensures
            r == self@.bool_member(key@),
    {
        match self.get(key) {
            Some(v) => v.as_bool(),
            None => None,
        }
    }
}

impl Clone for Json {
    fn clone(&self) -> (r: Self)
        ensures
            r@ == self@,
        decreases self,
    {
        match self {
            Json::Null => Json::Null,
            Json::Bool(b) => Json::Bool(*b),
            Json::Natural(n) => Json::Natural(*n),
            Json::Numeral(s) => Json::Numeral(s.clone()),
            Json::Text(s) => Json::Text(s.clone()),
            Json::List(v) => {
                let mut out: Vec<Json> = Vec::new();
                let mut i: usize = 0;
                while i < v.len()
                    invariant
                        self == Json::List(*v),
                        i <= v@.len(),
                        out@.len() == i,
                        forall|j: int| 0 <= j < i ==> (#[trigger] out@[j])@ == v@[j]@,
                    decreases v@.len() - i,
                {
                    proof {
                        assert(decreases_to!(*self => self->List_0));
                        assert(decreases_to!(self->List_0 => self->List_0@));
                        assert(decreases_to!(v@ => v@[i as int]));
                    }
                    let x = v[i].clone();
                    out.push(x);
                    i = i + 1;
                }
                proof {
                    lemma_list_view(out@);
                    lemma_list_view(v@);
                    assert(list_view(out@) == list_view(v@));
                }
                Json::List(out)
            },
            Json::Object(v) => {
                let mut out: Vec<(String, Json)> = Vec::new();
                let mut i: usize = 0;
                while i < v.len()
                    invariant
                        self == Json::Object(*v),
                        i <= v@.len(),
                        out@.len() == i,
                        forall|j: int|
                            0 <= j < i ==> (#[trigger] out@[j]).0@ == v@[j].0@ && out@[j].1@ == v@[j].1@,
                    decreases v@.len() - i,
                {
                    proof {
                        assert(decreases_to!(*self => self->Object_0));
                        assert(decreases_to!(self->Object_0 => self->Object_0@));
                        assert(decreases_to!(v@ => v@[i as int]));
                        assert(decreases_to!(v@[i as int] => v@[i as int].1));
                    }
                    let x = v[i].1.clone();
                    out.push((v[i].0.clone(), x));
                    i = i + 1;
                }
                proof {
                    lemma_members_equal(out@, v@);
                }
                Json::Object(out)
            },
        }
    }
}

/// Pairs with equal models make the same members.
proof fn lemma_members_equal(a: Seq<(String, Json)>, b: Seq<(String, Json)>)
    requires
        a.len() == b.len(),
        forall|j: int| 0 <= j < a.len() ==> (#[trigger] a[j]).0@ == b[j].0@ && a[j].1@ == b[j].1@,
    ensures
        members_view(a) == members_view(b),
    decreases a.len(),
{
    reveal_with_fuel(members_view, 2);
    if a.len() > 0 {
        lemma_members_equal(a.drop_last(), b.drop_last());
        assert(a[a.len() - 1].0@ == b[b.len() - 1].0@);
    }
}

/// The place of the last pair with a key.
fn find_member(v: &Vec<(String, Json)>, key: &str) -> (r: Option<usize>)
    ensures
        match r {
            Some(i) => i < v@.len() && v@[i as int].0@ == key@ && members_view(v@).contains_key(key@)
                && members_view(v@)[key@] == v@[i as int].1@,
            None => !members_view(v@).contains_key(key@),
        },
{
    let mut i: usize = v.len();
    while i > 0
        invariant
            i <= v@.len(),
            forall|j: int| i <= j < v@.len() ==> (#[trigger] v@[j]).0@ != key@,
        decreases i,
    {
        if same(v[i - 1].0.as_str(), key) {
            proof {
                lemma_member(v@, key@, i - 1);
            }
            return Some(i - 1);
        }
        i = i - 1;
    }
    proof {
        lemma_member(v@, key@, -1);
    }
    None
}

/// Every member comes from a pair.
proof fn lemma_member_pair(v: Seq<(String, Json)>, key: Seq<char>)
    requires
        members_view(v).contains_key(key),
    ensures
        exists|i: int| 0 <= i < v.len() && (#[trigger] v[i]).0@ == key,
    decreases v.len(),
{
    reveal_with_fuel(members_view, 2);
    if v.len() > 0 {
        if v.last().0@ == key {
            assert(v[v.len() - 1].0@ == key);
        } else {
            lemma_member_pair(v.drop_last(), key);
            let i = choose|i: int| 0 <= i < v.drop_last().len() && (#[trigger] v.drop_last()[i]).0@ == key;
            assert(v[i].0@ == key);
        }
    }
}

/// Whether a text is that of zero with a fraction, of either sign.
pub open spec fn is_zero(s: Seq<char>) -> bool {
    s == "0.0"@ || s == "-0.0"@
}

/// Whether two values are equal: numbers that are no unsigned integers are so
/// where their texts are the same, or where both are zero.
pub open spec fn alike(a: JsonView, b: JsonView) -> bool
    decreases a,
{
    match (a, b) {
        (JsonView::Numeral(x), JsonView::Numeral(y)) => x == y || (is_zero(x) && is_zero(y)),
        (JsonView::List(x), JsonView::List(y)) => x.len() == y.len() && forall|i: int|
            0 <= i < x.len() ==> alike(#[trigger] x[i], y[i]),
        (JsonView::Object(x), JsonView::Object(y)) => {
            &&& x.dom() == y.dom()
            &&& forall|k: Seq<char>| x.contains_key(k) ==> alike(#[trigger] x[k], y[k])
        },
        _ => a == b,
    }
}

fn zero(s: &str) -> (r: bool)
    ensures
        r == is_zero(s@),
{
    same(s, "0.0") || same(s, "-0.0")
}

/// Whether two values are equal, where the sign of zero does not count.
pub fn equal(a: &Json, b: &Json) -> (r: bool)
    ensures
        r == alike(a@, b@),
    decreases a,
{
    match (a, b) {
        (Json::Null, Json::Null) => true,
        (Json::Bool(x), Json::Bool(y)) => *x == *y,
        (Json::Natural(x), Json::Natural(y)) => *x == *y,
        (Json::Numeral(x), Json::Numeral(y)) => same(x.as_str(), y.as_str()) || (zero(x.as_str()) && zero(
            y.as_str(),
        )),
        (Json::Text(x), Json::Text(y)) => same(x.as_str(), y.as_str()),
        (Json::List(x), Json::List(y)) => {
            proof {
                lemma_list_view(x@);
                lemma_list_view(y@);
            }
            if x.len() != y.len() {
                return false;
            }
            let mut i: usize = 0;
            while i < x.len()
                invariant
                    a == Json::List(*x),
                    b == Json::List(*y),
                    x@.len() == y@.len(),
                    i <= x@.len(),
                    forall|j: int| 0 <= j < i ==> alike((#[trigger] x@[j])@, y@[j]@),
                    list_view(x@).len() == x@.len(),
                    list_view(y@).len() == y@.len(),
                    forall|j: int| 0 <= j < x@.len() ==> #[trigger] list_view(x@)[j] == x@[j]@,
                    forall|j: int| 0 <= j < y@.len() ==> #[trigger] list_view(y@)[j] == y@[j]@,
                decreases x@.len() - i,
            {
                proof {
                    assert(decreases_to!(*a => a->List_0));
                    assert(decreases_to!(a->List_0 => a->List_0@));
                    assert(decreases_to!(x@ => x@[i as int]));
                }
                if !equal(&x[i], &y[i]) {
                    assert(!alike(list_view(x@)[i as int], list_view(y@)[i as int]));
                    return false;
                }
                i = i + 1;
            }
            true
        },
        (Json::Object(x), Json::Object(y)) => {
            let mut i: usize = 0;
            while i < x.len()
                invariant
                    a == Json::Object(*x),
                    b == Json::Object(*y),
                    i <= x@.len(),
                    forall|j: int|
                        0 <= j < i ==> members_view(y@).contains_key((#[trigger] x@[j]).0@) && alike(
                            members_view(x@)[x@[j].0@],
                            members_view(y@)[x@[j].0@],
                        ),
                decreases x@.len() - i,
            {
                let key = x[i].0.as_str();
                match (find_member(x, key), find_member(y, key)) {
                    (Some(p), Some(q)) => {
                        proof {
                            assert(decreases_to!(*a => a->Object_0));
                            assert(decreases_to!(a->Object_0 => a->Object_0@));
                            assert(decreases_to!(x@ => x@[p as int]));
                            assert(decreases_to!(x@[p as int] => x@[p as int].1));
                        }
                        if !equal(&x[p].1, &y[q].1) {
                            assert(!alike(members_view(x@)[key@], members_view(y@)[key@]));
                            return false;
                        }
                    },
                    (Some(_), None) => {
                        assert(members_view(x@).contains_key(key@));
                        return false;
                    },
                    (None, _) => {
                        proof {
                            lemma_has_own_key(x@, i as int);
                        }
                    },
                }
                i = i + 1;
            }
            let mut i: usize = 0;
            while i < y.len()
                invariant
                    a == Json::Object(*x),
                    b == Json::Object(*y),
                    i <= y@.len(),
                    forall|j: int|
                        0 <= j < i ==> members_view(x@).contains_key((#[trigger] y@[j]).0@),
                    forall|j: int|
                        0 <= j < x@.len() ==> members_view(y@).contains_key((#[trigger] x@[j]).0@) && alike(
                            members_view(x@)[x@[j].0@],
                            members_view(y@)[x@[j].0@],
                        ),
                decreases y@.len() - i,
            {
                if find_member(x, y[i].0.as_str()).is_none() {
                    proof {
                        lemma_has_own_key(y@, i as int);
                        assert(!members_view(x@).contains_key(y@[i as int].0@));
                    }
                    return false;
                }
                i = i + 1;
            }
            proof {
                let mx = members_view(x@);
                let my = members_view(y@);
                assert forall|k: Seq<char>| #[trigger] mx.contains_key(k) <==> my.contains_key(k) by {
                    if mx.contains_key(k) {
                        lemma_member_pair(x@, k);
                    }
                    if my.contains_key(k) {
                        lemma_member_pair(y@, k);
                    }
                }
                assert(mx.dom() == my.dom());
                assert forall|k: Seq<char>| mx.contains_key(k) implies alike(#[trigger] mx[k], my[k]) by {
                    lemma_member_pair(x@, k);
                }
            }
            true
        },
        _ => false,
    }
}

/// The key of a pair is the key of a member.
proof fn lemma_has_own_key(v: Seq<(String, Json)>, i: int)
    requires
        0 <= i < v.len(),
    ensures
        members_view(v).contains_key(v[i].0@),
    decreases v.len(),
{
    reveal_with_fuel(members_view, 2);
    if i < v.len() - 1 {
        lemma_has_own_key(v.drop_last(), i);
        assert(v.drop_last()[i] == v[i]);
    }
}

// ---------------------------------------------------------------------------
// The text form
// ---------------------------------------------------------------------------

#[verifier::external_type_specification]
#[verifier::external_body]
pub struct ExValue(serde_json::Value);

/// What a `serde_json::Value` holds.
pub uninterp spec fn json_of(v: serde_json::Value) -> JsonView;

/// What `serde_json::from_slice` makes of a document: a value, or the text of
/// its error.
pub uninterp spec fn json_document(bytes: Seq<u8>) -> Result<JsonView, Seq<char>>;

/// The text that a `serde_json::Value` is displayed as.
pub uninterp spec fn json_text(v: JsonView) -> Seq<char>;

/// Calls `serde_json::from_slice` for a `serde_json::Value`. The claim is
/// that the outcome depends on the bytes alone.
#[verifier::external_body]
fn decode(bytes: &[u8]) -> (r: Result<serde_json::Value, String>)
    ensures
        match r {
            Ok(v) => json_document(bytes@) == Ok::<JsonView, Seq<char>>(json_of(v)),
            Err(e) => json_document(bytes@) == Err::<JsonView, Seq<char>>(e@),
        },
{
    serde_json::from_slice(bytes).map_err(|e| e.to_string())
}

/// Takes a `serde_json::Value` apart, variant by variant. The claim is that
/// the members of an object and the elements of an array come out as they
/// were, and that a number that is no unsigned integer comes out as its text.
#[verifier::external_body]
pub(crate) fn from_value(v: serde_json::Value) -> (r: Json)
    ensures
        r@ == json_of(v),
{
    match v {
        serde_json::Value::Null => Json::Null,
        serde_json::Value::Bool(b) => Json::Bool(b),
        serde_json::Value::Number(n) => n.as_u64().map_or(Json::Numeral(n.to_string()), Json::Natural),
        serde_json::Value::String(s) => Json::Text(s),
        serde_json::Value::Array(a) => Json::List(a.into_iter().map(from_value).collect()),
        serde_json::Value::Object(m) => {
            Json::Object(m.into_iter().map(|(k, x)| (k, from_value(x))).collect())
        },
    }
}

/// Whether a text is that of a negative integer that `i64` holds.
pub open spec fn is_negative(s: Seq<char>) -> bool {
    exists|n: nat| 0 < n <= 0x8000_0000_0000_0000 && s == seq!['-'] + #[trigger] decimal(n)
}

/// Whether a value holds no number but integers, unsigned ones and those that
/// `i64` holds.
pub open spec fn integers_only(v: Json) -> bool
    decreases v,
{
    match v {
        Json::Numeral(s) => is_negative(s@),
        Json::List(l) => integer_elements(l@),
        Json::Object(m) => integer_members(m@),
        _ => true,
    }
}

pub open spec fn integer_elements(l: Seq<Json>) -> bool
    decreases l,
{
    l.len() == 0 || (integer_elements(l.drop_last()) && integers_only(l.last()))
}

pub open spec fn integer_members(m: Seq<(String, Json)>) -> bool
    decreases m,
{
    m.len() == 0 || (integer_members(m.drop_last()) && integers_only(m.last().1))
}

/// Builds a `serde_json::Value`, variant by variant. The claim is that it
/// holds what the library's value holds, where that has no number but
/// integers; nothing is claimed of other numbers, which `serde_json` may read
/// inexactly from their text.
#[verifier::external_body]
fn to_value(v: &Json) -> (r: serde_json::Value)
    ensures
        integers_only(*v) ==> json_of(r) == v@,
{
    match v {
        Json::Null => serde_json::Value::Null,
        Json::Bool(b) => serde_json::Value::Bool(*b),
        Json::Natural(n) => serde_json::Value::Number((*n).into()),
        Json::Numeral(s) => serde_json::from_str(s).unwrap_or_default(),
        Json::Text(s) => serde_json::Value::String(s.clone()),
        Json::List(l) => serde_json::Value::Array(l.iter().map(to_value).collect()),
        Json::Object(m) => {
            serde_json::Value::Object(m.iter().map(|(k, x)| (k.clone(), to_value(x))).collect())
        },
    }
}

/// Calls `to_string` of a `serde_json::Value`. The claim is that the text
/// depends on what the value holds alone.
#[verifier::external_body]
fn display(v: &serde_json::Value) -> (r: String)
    ensures
        r@ == json_text(json_of(*v)),
{
    v.to_string()
}

/// The compact text of a value. Nothing is said of the text of a value with a
/// number that is no integer.
pub fn encode(v: &Json) -> (r: String)
    ensures
        integers_only(*v) ==> r@ == json_text(v@),
{
    display(&to_value(v))
}

/// The value that a JSON document holds, or why it is none.
pub fn parse(bytes: &[u8]) -> (r: Result<Json, String>)
    ensures
        match r {
            Ok(v) => json_document(bytes@) == Ok::<JsonView, Seq<char>>(v@),
            Err(e) => json_document(bytes@) == Err::<JsonView, Seq<char>>(e@),
        },
{
    match decode(bytes) {
        Ok(v) => Ok(from_value(v)),
        Err(e) => Err(e),
    }
}

/// Every value is equal to itself.
pub proof fn law_every_value_equals_itself(a: JsonView)
    ensures
        alike(a, a),
    decreases a,
{
    match a {
        JsonView::List(x) => {
            assert forall|i: int| 0 <= i < x.len() implies alike(#[trigger] x[i], x[i]) by {
                law_every_value_equals_itself(x[i]);
            }
        },
        JsonView::Object(x) => {
            assert forall|k: Seq<char>| x.contains_key(k) implies alike(#[trigger] x[k], x[k]) by {
                law_every_value_equals_itself(x[k]);
            }
        },
        _ => {},
    }
}

/// Values of different kinds are never equal, nor are texts, truth values or
/// natural numbers that differ, nor lists of different lengths or objects with
/// different members; zero with a fraction equals itself of the other sign.
pub proof fn law_different_values_are_told_apart(a: JsonView, b: JsonView)
    ensures
        alike(a, b) && (a is Null || a is Bool || a is Natural || a is Text) ==> a == b,
        alike(a, b) && (b is Null || b is Bool || b is Natural || b is Text) ==> a == b,
        alike(a, b) ==> (a is Numeral <==> b is Numeral) && (a is List <==> b is List) && (a is Object <==> b is Object),
        a matches JsonView::List(x) ==> b matches JsonView::List(y) ==> alike(a, b) ==> x.len() == y.len() && forall|i: int|
            0 <= i < x.len() ==> alike(#[trigger] x[i], y[i]),
        a matches JsonView::Object(x) ==> b matches JsonView::Object(y) ==> alike(a, b) ==> x.dom() == y.dom()
            && forall|k: Seq<char>| x.contains_key(k) ==> alike(#[trigger] x[k], y[k]),
        alike(JsonView::Numeral("0.0"@), JsonView::Numeral("-0.0"@)),
{
}

} // verus!
