//! A JSON tree of plain values: what event payloads are built as, and what
//! fixtures are read from.

use crate::decimal::{Decimal, DecimalView};
use crate::digits::nat_text;
use crate::pynum::{PyFloat, PyFloatView};
use crate::shortest::{float_form, float_of_nat};
use crate::text::{opt_text, owned, same_text};
use vstd::prelude::*;

verus! {

/// A JSON value.
#[derive(Debug, PartialEq, Eq)]
pub enum Json {
    /// `null`.
    Null,
    /// `true` or `false`.
    Bool(bool),
    /// A number without a fraction.
    Integer(i64),
    /// A floating-point number.
    Float(Decimal),
    /// A string.
    Text(String),
    /// An array.
    List(Vec<Json>),
    /// An object, as its members in order.
    Object(Vec<(String, Json)>),
}

/// What a [`Json`] value holds, all the way down.
#[verifier::ext_equal]
pub enum JsonView {
    /// See [`Json::Null`].
    Null,
    /// See [`Json::Bool`].
    Bool(bool),
    /// See [`Json::Integer`].
    Integer(int),
    /// See [`Json::Float`].
    Float(DecimalView),
    /// See [`Json::Text`].
    Text(Seq<char>),
    /// See [`Json::List`].
    List(Seq<JsonView>),
    /// See [`Json::Object`].
    Object(Seq<(Seq<char>, JsonView)>),
}

impl Json {
    /// The value, all the way down.
    pub open spec fn tree(self) -> JsonView
        decreases self,
    {
        match self {
            Json::Null => JsonView::Null,
            Json::Bool(b) => JsonView::Bool(b),
            Json::Integer(i) => JsonView::Integer(i as int),
            Json::Float(d) => JsonView::Float(d@),
            Json::Text(t) => JsonView::Text(t@),
            Json::List(items) => JsonView::List(
                Seq::new(
                    items@.len(),
                    |i: int|
                        if 0 <= i < items@.len() {
                            items@[i].tree()
                        } else {
                            JsonView::Null
                        },
                ),
            ),
            Json::Object(members) => JsonView::Object(
                Seq::new(
                    members@.len(),
                    |i: int|
                        if 0 <= i < members@.len() {
                            (members@[i].0@, members@[i].1.tree())
                        } else {
                            (Seq::<char>::empty(), JsonView::Null)
                        },
                ),
            ),
        }
    }
}

/// The members of an object, all the way down.
pub open spec fn members_tree(members: Seq<(String, Json)>) -> Seq<(Seq<char>, JsonView)> {
    Seq::new(members.len(), |i: int| (members[i].0@, members[i].1.tree()))
}

/// The elements of an array, all the way down.
pub open spec fn items_tree(items: Seq<Json>) -> Seq<JsonView> {
    Seq::new(items.len(), |i: int| items[i].tree())
}

/// An object is its members.
pub proof fn lemma_object_tree(members: Vec<(String, Json)>)
    ensures
        Json::Object(members).tree() == JsonView::Object(members_tree(members@)),
{
    assert(Json::Object(members).tree()->Object_0 =~= members_tree(members@));
}

/// An array is its elements.
pub proof fn lemma_list_tree(items: Vec<Json>)
    ensures
        Json::List(items).tree() == JsonView::List(items_tree(items@)),
{
    assert(Json::List(items).tree()->List_0 =~= items_tree(items@));
}

/// The index of the first member with the given key, from `from` on; the
/// number of members where there is none.
pub open spec fn find_member(
    members: Seq<(Seq<char>, JsonView)>,
    key: Seq<char>,
    from: int,
) -> int
    decreases members.len() - from,
{
    if from >= members.len() {
        members.len() as int
    } else if members[from].0 == key {
        from
    } else {
        find_member(members, key, from + 1)
    }
}

/// The members with `key` set to `value`: replaced where it is there, added
/// at the end where it is not.
pub open spec fn set_member(
    members: Seq<(Seq<char>, JsonView)>,
    key: Seq<char>,
    value: JsonView,
) -> Seq<(Seq<char>, JsonView)> {
    let i = find_member(members, key, 0);
    if i < members.len() {
        members.update(i, (key, value))
    } else {
        members.push((key, value))
    }
}

impl JsonView {
    /// The member of an object with the given key.
    pub open spec fn member(self, key: Seq<char>) -> Option<JsonView> {
        match self {
            JsonView::Object(members) => {
                let i = find_member(members, key, 0);
                if i < members.len() {
                    Some(members[i].1)
                } else {
                    None
                }
            },
            _ => None,
        }
    }

    /// The characters of a string.
    pub open spec fn text(self) -> Option<Seq<char>> {
        match self {
            JsonView::Text(t) => Some(t),
            _ => None,
        }
    }

    /// The value of a boolean.
    pub open spec fn boolean(self) -> Option<bool> {
        match self {
            JsonView::Bool(b) => Some(b),
            _ => None,
        }
    }

    /// The elements of an array.
    pub open spec fn items(self) -> Option<Seq<JsonView>> {
        match self {
            JsonView::List(items) => Some(items),
            _ => None,
        }
    }

    /// A number, as a float.
    pub open spec fn number(self) -> Option<DecimalView> {
        match self {
            JsonView::Float(d) => Some(d),
            JsonView::Integer(i) => Some(integer_decimal(i)),
            _ => None,
        }
    }
}

/// The float nearest to an integer.
pub open spec fn integer_decimal(i: int) -> DecimalView {
    DecimalView::Finite {
        negative: i < 0,
        literal: float_form(
            nat_text(
                if i < 0 {
                    (-i) as nat
                } else {
                    i as nat
                },
            ),
        ),
    }
}

/// Where a key stands among the members, if it is there.
pub proof fn lemma_find_member(members: Seq<(Seq<char>, JsonView)>, key: Seq<char>, from: int)
    requires
        0 <= from <= members.len(),
    ensures
        from <= find_member(members, key, from) <= members.len(),
        find_member(members, key, from) < members.len() ==> members[find_member(
            members,
            key,
            from,
        )].0 == key,
        forall|j: int|
            from <= j < find_member(members, key, from) ==> (#[trigger] members[j]).0 != key,
    decreases members.len() - from,
{
    if from < members.len() && members[from].0 != key {
        lemma_find_member(members, key, from + 1);
    }
}

/// The first index from `from` on with the key is the one that is found.
proof fn lemma_found_member(
    members: Seq<(Seq<char>, JsonView)>,
    key: Seq<char>,
    from: int,
    at: int,
)
    requires
        0 <= from <= at <= members.len(),
        forall|j: int| from <= j < at ==> (#[trigger] members[j]).0 != key,
        at < members.len() ==> members[at].0 == key,
    ensures
        find_member(members, key, from) == at,
    decreases at - from,
{
    if from < at {
        assert(members[from].0 != key);
        lemma_found_member(members, key, from + 1, at);
    }
}

/// What was set for a key is what the key gives, and every other key gives
/// what it gave before.
pub proof fn law_set_member_is_read_back(
    members: Seq<(Seq<char>, JsonView)>,
    key: Seq<char>,
    value: JsonView,
    other: Seq<char>,
)
    requires
        other != key,
    ensures
        JsonView::Object(set_member(members, key, value)).member(key) == Some(value),
        JsonView::Object(set_member(members, key, value)).member(other) == JsonView::Object(
            members,
        ).member(other),
{
    let after = set_member(members, key, value);
    let i = find_member(members, key, 0);
    lemma_find_member(members, key, 0);
    lemma_found_member(after, key, 0, i);
    let j = find_member(members, other, 0);
    lemma_find_member(members, other, 0);
    if j < members.len() {
        lemma_found_member(after, other, 0, j);
    } else {
        lemma_found_member(after, other, 0, after.len() as int);
    }
}

impl Json {
    /// The member of an object with the given key.
    pub fn get(&self, key: &str) -> (r: Option<&Json>)
        ensures
            (match r {
                Some(v) => Some(v.tree()),
                None => None,
            }) == self.tree().member(key@),
    {
        match self {
            Json::Object(members) => {
                let ghost all = members_tree(members@);
                proof {
                    lemma_object_tree(*members);
                }
                let mut i: usize = 0;
                while i < members.len()
                    invariant
                        i <= members@.len(),
                        all == members_tree(members@),
                        self.tree() == JsonView::Object(all),
                        find_member(all, key@, 0) == find_member(all, key@, i as int),
                    decreases members@.len() - i,
                {
                    let member = &members[i];
                    if same_text(member.0.as_str(), key) {
                        return Some(&member.1);
                    }
                    i = i + 1;
                }
                None
            },
            _ => None,
        }
    }

    /// The characters of a string.
    pub fn as_str(&self) -> (r: Option<&str>)
        ensures
            (match r {
                Some(v) => Some(v@),
                None => None,
            }) == self.tree().text(),
    {
        match self {
            Json::Text(t) => Some(t.as_str()),
            _ => None,
        }
    }

    /// The value of a boolean.
    pub fn as_bool(&self) -> (r: Option<bool>)
        ensures
            r == self.tree().boolean(),
    {
        match self {
            Json::Bool(b) => Some(*b),
            _ => None,
        }
    }

    /// The elements of an array.
    pub fn as_array(&self) -> (r: Option<&Vec<Json>>)
        ensures
            (match r {
                Some(v) => Some(items_tree(v@)),
                None => None,
            }) == self.tree().items(),
    {
        match self {
            Json::List(items) => {
                proof {
                    lemma_list_tree(*items);
                }
                Some(items)
            },
            _ => None,
        }
    }

    /// A number, as a float.
    pub fn as_float(&self) -> (r: Option<Decimal>)
        ensures
            (match r {
                Some(v) => Some(v@),
                None => None,
            }) == self.tree().number(),
    {
        match self {
            Json::Float(d) => Some(d.clone()),
            Json::Integer(i) => {
                let negative = *i < 0;
                let magnitude: u64 = if *i == i64::MIN {
                    0x8000_0000_0000_0000
                } else if negative {
                    (-*i) as u64
                } else {
                    *i as u64
                };
                Some(Decimal::Finite { negative, literal: float_of_nat(magnitude) })
            },
            _ => None,
        }
    }

    /// A string.
    pub fn string(s: &str) -> (r: Json)
        ensures
            r.tree() == JsonView::Text(s@),
    {
        Json::Text(owned(s))
    }

    /// A string, or `null` where there is none.
    pub fn optional(s: &Option<String>) -> (r: Json)
        ensures
            r.tree() == json_optional(opt_text(*s)),
    {
        match s {
            Some(t) => Json::Text(t.clone()),
            None => Json::Null,
        }
    }

    /// A float. JSON has no infinities and no not-a-number: `null` stands for
    /// them.
    pub fn float(v: &Decimal) -> (r: Json)
        ensures
            r.tree() == json_float(v@),
    {
        match v {
            Decimal::Finite { negative, literal } => Json::Float(v.clone()),
            _ => Json::Null,
        }
    }

    /// A float, or the string that stands in its place.
    pub fn py_float(v: &PyFloat) -> (r: Json)
        ensures
            r.tree() == json_py_float(v@),
    {
        match v {
            PyFloat::Num(d) => Json::float(d),
            PyFloat::NanString => Json::string("NaN"),
        }
    }
}

/// See [`Json::optional`].
pub open spec fn json_optional(s: Option<Seq<char>>) -> JsonView {
    match s {
        Some(t) => JsonView::Text(t),
        None => JsonView::Null,
    }
}

/// See [`Json::float`].
pub open spec fn json_float(v: DecimalView) -> JsonView {
    if v.is_finite() {
        JsonView::Float(v)
    } else {
        JsonView::Null
    }
}

/// See [`Json::py_float`].
pub open spec fn json_py_float(v: PyFloatView) -> JsonView {
    match v {
        PyFloatView::Num(d) => json_float(d),
        PyFloatView::NanString => JsonView::Text("NaN"@),
    }
}

/// An object under construction.
pub struct Members {
    members: Vec<(String, Json)>,
}

impl View for Members {
    type V = Seq<(Seq<char>, JsonView)>;

    closed spec fn view(&self) -> Seq<(Seq<char>, JsonView)> {
        members_tree(self.members@)
    }
}

impl Members {
    /// No members.
    pub fn new() -> (r: Members)
        ensures
            r@ == Seq::<(Seq<char>, JsonView)>::empty(),
    {
        let r = Members { members: Vec::new() };
        assert(r@ =~= Seq::<(Seq<char>, JsonView)>::empty());
        r
    }

    /// Adds a member at the end.
    pub fn add(&mut self, key: &str, value: Json)
        ensures
            final(self)@ == old(self)@.push((key@, value.tree())),
    {
        self.members.push((owned(key), value));
        assert(self@ =~= old(self)@.push((key@, value.tree())));
    }

    /// Sets the value of a key.
    pub fn set(&mut self, key: &str, value: Json)
        ensures
            final(self)@ == set_member(old(self)@, key@, value.tree()),
    {
        let mut i: usize = 0;
        while i < self.members.len()
            invariant
                i <= self.members@.len(),
                self.members@ == old(self).members@,
                find_member(self@, key@, 0) == find_member(self@, key@, i as int),
            decreases self.members@.len() - i,
        {
            if same_text(self.members[i].0.as_str(), key) {
                self.members[i] = (owned(key), value);
                assert(self@ =~= set_member(old(self)@, key@, value.tree()));
                return;
            }
            i = i + 1;
        }
        self.add(key, value);
    }

    /// The object.
    pub fn build(self) -> (r: Json)
        ensures
            r.tree() == JsonView::Object(self@),
    {
        proof {
            lemma_object_tree(self.members);
        }
        Json::Object(self.members)
    }
}

}
