//! JSON values: the tree that configuration documents are made of.
//!
//! A document is a [`JsonValue`]. A path is a sequence of member names that
//! leads from the root through nested objects. Everything a contract says
//! about a document is said over its mathematical content, a [`JsonModel`].

use vstd::prelude::*;

verus! {

/// A JSON number, kept in the three shapes a JSON reader tells apart.
#[derive(Clone, Copy, Debug, PartialEq, Eq, Structural)]
pub enum JsonNumber {
    /// A non-negative integer.
    PosInt(u64),
    /// An integer written with a minus sign.
    NegInt(i64),
    /// A number with a fraction or an exponent, held as its IEEE-754
    /// binary64 bit pattern.
    Float(u64),
}

/// A JSON value. An object keeps its members in document order.
#[derive(Debug, PartialEq, Eq)]
pub enum JsonValue {
    Null,
    Bool(bool),
    Number(JsonNumber),
    String(String),
    Array(Vec<JsonValue>),
    Object(Vec<(String, JsonValue)>),
}

/// The mathematical content of a [`JsonValue`].
pub ghost enum JsonModel {
    Null,
    Bool(bool),
    Number(JsonNumber),
    String(Seq<char>),
    Array(Seq<JsonModel>),
    Object(Seq<(Seq<char>, JsonModel)>),
}

/// Why a value could not be written at a path.
#[derive(Clone, Copy, Debug, PartialEq, Eq, Structural)]
pub struct InsertionError {
    /// How many path segments lead to the value that is neither an object
    /// nor null, and so cannot take a member.
    pub depth: usize,
}

impl JsonValue {
    /// The content of this value.
    pub open spec fn model(&self) -> JsonModel
        decreases self,
    {
        match self {
            JsonValue::Null => JsonModel::Null,
            JsonValue::Bool(b) => JsonModel::Bool(*b),
            JsonValue::Number(n) => JsonModel::Number(*n),
            JsonValue::String(s) => JsonModel::String(s@),
            JsonValue::Array(items) => JsonModel::Array(
                Seq::new(
                    items@.len(),
                    |i: int|
                        if 0 <= i < items@.len() {
                            items[i].model()
                        } else {
                            JsonModel::Null
                        },
                ),
            ),
            JsonValue::Object(members) => JsonModel::Object(
                Seq::new(
                    members@.len(),
                    |i: int|
                        if 0 <= i < members@.len() {
                            (members[i].0@, members[i].1.model())
                        } else {
                            (Seq::empty(), JsonModel::Null)
                        },
                ),
            ),
        }
    }
}

impl View for JsonValue {
    type V = JsonModel;

    open spec fn view(&self) -> JsonModel {
        self.model()
    }
}

/// The content of a list of object members.
pub open spec fn members_view(members: Seq<(String, JsonValue)>) -> Seq<(Seq<char>, JsonModel)> {
    Seq::new(members.len(), |i: int| (members[i].0@, members[i].1@))
}

/// The content of a list of array items.
pub open spec fn items_view(items: Seq<JsonValue>) -> Seq<JsonModel> {
    Seq::new(items.len(), |i: int| items[i]@)
}

/// The content of a list of names.
pub open spec fn names_view(names: Seq<&str>) -> Seq<Seq<char>> {
    Seq::new(names.len(), |i: int| names[i]@)
}

/// The content of a path given as string slices.
pub open spec fn path_view(path: &[&str]) -> Seq<Seq<char>> {
    names_view(path@)
}

/// Position of the first member named `key`, or the number of members when
/// no member has that name.
pub open spec fn key_index(members: Seq<(Seq<char>, JsonModel)>, key: Seq<char>) -> int
    decreases members.len(),
{
    if members.len() == 0 || members[0].0 == key {
        0
    } else {
        1 + key_index(members.drop_first(), key)
    }
}

/// No two members share a name.
pub open spec fn distinct_keys(members: Seq<(Seq<char>, JsonModel)>) -> bool {
    forall|i: int, j: int|
        0 <= i < j < members.len() ==> (#[trigger] members[i]).0 != (#[trigger] members[j]).0
}

impl JsonModel {
    /// The empty object.
    pub open spec fn empty_object() -> JsonModel {
        JsonModel::Object(Seq::empty())
    }

    /// The value of the first member named `key`, where `self` is an object
    /// that has one.
    pub open spec fn member(self, key: Seq<char>) -> Option<JsonModel> {
        match self {
            JsonModel::Object(members) => {
                let i = key_index(members, key);
                if i < members.len() {
                    Some(members[i].1)
                } else {
                    None
                }
            },
            _ => None,
        }
    }

    /// The value found by following `path` through nested objects.
    pub open spec fn lookup(self, path: Seq<Seq<char>>) -> Option<JsonModel>
        decreases path.len(),
    {
        if path.len() == 0 {
            Some(self)
        } else {
            match self.member(path[0]) {
                Some(child) => child.lookup(path.drop_first()),
                None => None,
            }
        }
    }

    /// `self` with its member `key` set to `value`: the first member of that
    /// name is replaced in place, and a new member goes to the end. Anything
    /// but an object becomes an object with that single member.
    pub open spec fn with_member(self, key: Seq<char>, value: JsonModel) -> JsonModel {
        match self {
            JsonModel::Object(members) => {
                let i = key_index(members, key);
                if i < members.len() {
                    JsonModel::Object(members.update(i, (key, value)))
                } else {
                    JsonModel::Object(members.push((key, value)))
                }
            },
            _ => JsonModel::Object(seq![(key, value)]),
        }
    }

    /// The member `key`, or null where there is none.
    pub open spec fn member_or_null(self, key: Seq<char>) -> JsonModel {
        match self.member(key) {
            Some(child) => child,
            None => JsonModel::Null,
        }
    }

    /// How many segments of `path` lead to a value that can take no member:
    /// one that is neither an object nor null, with path left to walk. `None`
    /// where the whole path can be written.
    pub open spec fn blocked_at(self, path: Seq<Seq<char>>) -> Option<int>
        decreases path.len(),
    {
        if path.len() == 0 {
            None
        } else {
            match self {
                JsonModel::Null => None,
                JsonModel::Object(_) => match self.member(path[0]) {
                    Some(child) => match child.blocked_at(path.drop_first()) {
                        Some(d) => Some(d + 1),
                        None => None,
                    },
                    None => None,
                },
                _ => Some(0),
            }
        }
    }

    /// A value can be written at `path`: every value on the way is an object
    /// or null, or is missing.
    pub open spec fn accepts(self, path: Seq<Seq<char>>) -> bool {
        self.blocked_at(path) is None
    }

    /// `self` with `value` written at `path`. Objects on the way keep their
    /// other members; missing and null ones become objects.
    pub open spec fn inserted(self, path: Seq<Seq<char>>, value: JsonModel) -> JsonModel
        decreases path.len(),
    {
        if path.len() == 0 {
            value
        } else {
            self.with_member(
                path[0],
                self.member_or_null(path[0]).inserted(path.drop_first(), value),
            )
        }
    }

    /// In every object of `self`, at any depth, no two members share a name.
    pub open spec fn unique_keys(self) -> bool
        decreases self,
    {
        match self {
            JsonModel::Array(items) => forall|i: int|
                0 <= i < items.len() ==> (#[trigger] items[i]).unique_keys(),
            JsonModel::Object(members) => distinct_keys(members) && forall|i: int|
                0 <= i < members.len() ==> (#[trigger] members[i]).1.unique_keys(),
            _ => true,
        }
    }
}

/// `key_index` is the position of the first member named `key`.
pub proof fn lemma_key_index(members: Seq<(Seq<char>, JsonModel)>, key: Seq<char>)
    ensures
        0 <= key_index(members, key) <= members.len(),
        key_index(members, key) < members.len() ==> members[key_index(members, key)].0 == key,
        forall|j: int| 0 <= j < key_index(members, key) ==> (#[trigger] members[j]).0 != key,
    decreases members.len(),
{
    if members.len() == 0 || members[0].0 == key {
    } else {
        let rest = members.drop_first();
        lemma_key_index(rest, key);
        let k = key_index(rest, key);
        assert forall|j: int| 0 <= j < k + 1 implies (#[trigger] members[j]).0 != key by {
            if j > 0 {
                assert(members[j] == rest[j - 1]);
            }
        }
        if k < rest.len() {
            assert(members[k + 1] == rest[k]);
        }
    }
}

/// A position with no member named `key` before it, and one at it unless it
/// is the end, is `key_index`.
pub proof fn lemma_key_index_is(members: Seq<(Seq<char>, JsonModel)>, key: Seq<char>, i: int)
    requires
        0 <= i <= members.len(),
        forall|j: int| 0 <= j < i ==> (#[trigger] members[j]).0 != key,
        i < members.len() ==> members[i].0 == key,
    ensures
        key_index(members, key) == i,
{
    lemma_key_index(members, key);
    let k = key_index(members, key);
    if k < i {
        assert(members[k].0 == key);
    } else if k > i {
        assert(members[i].0 == key);
    }
}

/// Setting the member `key` makes it readable under that name, and leaves
/// every member of another name as it was.
pub proof fn lemma_with_member(x: JsonModel, key: Seq<char>, value: JsonModel, other: Seq<char>)
    ensures
        x.with_member(key, value).member(key) == Some(value),
        other != key ==> x.with_member(key, value).member(other) == x.member(other),
{
    match x {
        JsonModel::Object(members) => {
            lemma_key_index(members, key);
            lemma_key_index(members, other);
            let i = key_index(members, key);
            let j = key_index(members, other);
            if i < members.len() {
                let after = members.update(i, (key, value));
                lemma_key_index_is(after, key, i);
                if other != key {
                    lemma_key_index_is(after, other, j);
                }
            } else {
                let after = members.push((key, value));
                lemma_key_index_is(after, key, i);
                if other != key {
                    if j < members.len() {
                        lemma_key_index_is(after, other, j);
                    } else {
                        lemma_key_index_is(after, other, j + 1);
                    }
                }
            }
        },
        _ => {
            let after = seq![(key, value)];
            lemma_key_index_is(after, key, 0);
            if other != key {
                lemma_key_index_is(after, other, 1);
            }
        },
    }
}

/// What was written at a path is read back at that path.
pub proof fn lemma_lookup_inserted(x: JsonModel, path: Seq<Seq<char>>, value: JsonModel)
    ensures
        x.inserted(path, value).lookup(path) == Some(value),
    decreases path.len(),
{
    if path.len() > 0 {
        let child = x.member_or_null(path[0]).inserted(path.drop_first(), value);
        lemma_with_member(x, path[0], child, path[0]);
        lemma_lookup_inserted(x.member_or_null(path[0]), path.drop_first(), value);
    }
}

/// Writing at `path` changes nothing that is read at a path `other` which
/// names a different member at some depth `k`.
pub proof fn lemma_lookup_apart(
    x: JsonModel,
    path: Seq<Seq<char>>,
    value: JsonModel,
    other: Seq<Seq<char>>,
    k: int,
)
    requires
        0 <= k < path.len(),
        k < other.len(),
        path[k] != other[k],
    ensures
        x.inserted(path, value).lookup(other) == x.lookup(other),
    decreases path.len(),
{
    let child = x.member_or_null(path[0]).inserted(path.drop_first(), value);
    lemma_with_member(x, path[0], child, other[0]);
    if path[0] == other[0] {
        assert(k > 0);
        lemma_lookup_apart(
            x.member_or_null(path[0]),
            path.drop_first(),
            value,
            other.drop_first(),
            k - 1,
        );
    }
}

/// Every value on the way to a written path is present afterwards.
pub proof fn lemma_lookup_prefix(x: JsonModel, path: Seq<Seq<char>>, value: JsonModel, n: int)
    requires
        0 <= n <= path.len(),
    ensures
        x.inserted(path, value).lookup(path.take(n)) is Some,
    decreases path.len(),
{
    if n > 0 {
        let child = x.member_or_null(path[0]).inserted(path.drop_first(), value);
        lemma_with_member(x, path[0], child, path[0]);
        lemma_lookup_prefix(x.member_or_null(path[0]), path.drop_first(), value, n - 1);
        assert(path.take(n)[0] == path[0]);
        assert(path.take(n).drop_first() =~= path.drop_first().take(n - 1));
    }
}

/// Writing at `path`, where that is possible, leaves every path `other` that
/// names a different member at some depth `k` as open or as blocked as it was.
pub proof fn lemma_blocked_apart(
    x: JsonModel,
    path: Seq<Seq<char>>,
    value: JsonModel,
    other: Seq<Seq<char>>,
    k: int,
)
    requires
        x.accepts(path),
        0 <= k < path.len(),
        k < other.len(),
        path[k] != other[k],
    ensures
        x.inserted(path, value).blocked_at(other) == x.blocked_at(other),
    decreases path.len(),
{
    let child = x.member_or_null(path[0]).inserted(path.drop_first(), value);
    lemma_with_member(x, path[0], child, other[0]);
    if path[0] == other[0] {
        assert(k > 0);
        lemma_blocked_apart(
            x.member_or_null(path[0]),
            path.drop_first(),
            value,
            other.drop_first(),
            k - 1,
        );
    }
}

/// Where a path leads to a value, a value can be written at it.
pub proof fn lemma_lookup_accepts(x: JsonModel, path: Seq<Seq<char>>)
    requires
        x.lookup(path) is Some,
    ensures
        x.accepts(path),
    decreases path.len(),
{
    if path.len() > 0 {
        lemma_lookup_accepts(x.member(path[0])->Some_0, path.drop_first());
    }
}

/// Writing at a path the value that is already there changes nothing.
pub proof fn lemma_inserted_same(x: JsonModel, path: Seq<Seq<char>>, value: JsonModel)
    requires
        x.lookup(path) == Some(value),
    ensures
        x.inserted(path, value) == x,
    decreases path.len(),
{
    if path.len() > 0 {
        let key = path[0];
        let child = x.member(key)->Some_0;
        lemma_inserted_same(child, path.drop_first(), value);
        let members = x->Object_0;
        lemma_key_index(members, key);
        assert(members.update(key_index(members, key), (key, child)) =~= members);
    }
}

/// Writing a value whose objects have distinct member names into a document
/// whose objects have distinct member names gives such a document again.
pub proof fn lemma_inserted_unique_keys(x: JsonModel, path: Seq<Seq<char>>, value: JsonModel)
    requires
        x.unique_keys(),
        value.unique_keys(),
    ensures
        x.inserted(path, value).unique_keys(),
    decreases path.len(),
{
    if path.len() > 0 {
        let key = path[0];
        let below = x.member_or_null(key);
        match x {
            JsonModel::Object(members) => {
                lemma_key_index(members, key);
            },
            _ => {},
        }
        lemma_inserted_unique_keys(below, path.drop_first(), value);
        let child = below.inserted(path.drop_first(), value);
        match x {
            JsonModel::Object(members) => {
                let i = key_index(members, key);
                if i < members.len() {
                    let after = members.update(i, (key, child));
                    assert(distinct_keys(after)) by {
                        assert forall|a: int, b: int| 0 <= a < b < after.len() implies (#[trigger] after[a]).0
                            != (#[trigger] after[b]).0 by {
                            assert(after[a].0 == members[a].0);
                            assert(after[b].0 == members[b].0);
                        }
                    }
                    assert forall|a: int| 0 <= a < after.len() implies (#[trigger] after[a]).1.unique_keys() by {
                        if a != i {
                            assert(after[a] == members[a]);
                        }
                    }
                } else {
                    let after = members.push((key, child));
                    assert(distinct_keys(after)) by {
                        assert forall|a: int, b: int| 0 <= a < b < after.len() implies (#[trigger] after[a]).0
                            != (#[trigger] after[b]).0 by {
                            assert(after[a] == members[a]);
                            if b < members.len() {
                                assert(after[b] == members[b]);
                            }
                        }
                    }
                    assert forall|a: int| 0 <= a < after.len() implies (#[trigger] after[a]).1.unique_keys() by {
                        if a < members.len() {
                            assert(after[a] == members[a]);
                        }
                    }
                }
            },
            _ => {
                let after = seq![(key, child)];
                assert(distinct_keys(after));
                assert forall|a: int| 0 <= a < after.len() implies (#[trigger] after[a]).1.unique_keys() by {
                    assert(after[a] == (key, child));
                }
            },
        }
    }
}

/// The content of an object is the content of its members, in order.
pub proof fn lemma_object_view(value: JsonValue)
    requires
        value is Object,
    ensures
        value@ == JsonModel::Object(members_view(value->Object_0@)),
{
    let members = value->Object_0;
    assert(value@->Object_0 =~= members_view(members@));
}

/// The content of an array is the content of its items, in order.
pub proof fn lemma_array_view(value: JsonValue)
    requires
        value is Array,
    ensures
        value@ == JsonModel::Array(items_view(value->Array_0@)),
{
    let items = value->Array_0;
    assert(value@->Array_0 =~= items_view(items@));
}

/// Position of the first member named `key`, or the number of members.
fn find_member(members: &Vec<(String, JsonValue)>, key: &String) -> (i: usize)
    ensures
        i == key_index(members_view(members@), key@),
        i <= members.len(),
{
    let mut i: usize = 0;
    while i < members.len()
        invariant
            i <= members.len(),
            forall|j: int| 0 <= j < i ==> (#[trigger] members_view(members@)[j]).0 != key@,
        decreases members.len() - i,
    {
        if members[i].0 == *key {
            proof {
                lemma_key_index_is(members_view(members@), key@, i as int);
            }
            return i;
        }
        i += 1;
    }
    proof {
        lemma_key_index_is(members_view(members@), key@, i as int);
    }
    i
}

impl Clone for JsonValue {
    /// A copy with the same content.
    fn clone(&self) -> (r: JsonValue)
        ensures
            r@ == self@,
        decreases self,
    {
        match self {
            JsonValue::Null => JsonValue::Null,
            JsonValue::Bool(b) => JsonValue::Bool(*b),
            JsonValue::Number(n) => JsonValue::Number(*n),
            JsonValue::String(s) => JsonValue::String(s.clone()),
            JsonValue::Array(items) => {
                let mut copy: Vec<JsonValue> = Vec::new();
                let mut i: usize = 0;
                while i < items.len()
                    invariant
                        i <= items.len(),
                        copy@.len() == i,
                        *self is Array,
                        self->Array_0 == *items,
                        forall|j: int| 0 <= j < i ==> (#[trigger] copy@[j])@ == items@[j]@,
                    decreases items.len() - i,
                {
                    copy.push(items[i].clone());
                    i += 1;
                }
                let r = JsonValue::Array(copy);
                proof {
                    lemma_array_view(r);
                    lemma_array_view(*self);
                    assert(items_view(copy@) =~= items_view(items@));
                }
                r
            },
            JsonValue::Object(members) => {
                let mut copy: Vec<(String, JsonValue)> = Vec::new();
                let mut i: usize = 0;
                while i < members.len()
                    invariant
                        i <= members.len(),
                        copy@.len() == i,
                        *self is Object,
                        self->Object_0 == *members,
                        forall|j: int|
                            0 <= j < i ==> (#[trigger] copy@[j]).0@ == members@[j].0@ && copy@[j].1@
                                == members@[j].1@,
                    decreases members.len() - i,
                {
                    copy.push((members[i].0.clone(), members[i].1.clone()));
                    i += 1;
                }
                let r = JsonValue::Object(copy);
                proof {
                    lemma_object_view(r);
                    lemma_object_view(*self);
                    assert(members_view(copy@) =~= members_view(members@));
                }
                r
            },
        }
    }
}

impl JsonValue {
    /// An object without members.
    pub fn empty_object() -> (r: JsonValue)
        ensures
            r@ == JsonModel::empty_object(),
    {
        let r = JsonValue::Object(Vec::new());
        proof {
            lemma_object_view(r);
            assert(members_view(r->Object_0@) =~= Seq::empty());
        }
        r
    }

    /// The value of the member named `key`, if `self` is an object that has
    /// one; of the first, should several members bear the name.
    pub fn member(&self, key: &str) -> (r: Option<&JsonValue>)
        ensures
            match r {
                Some(v) => self@.member(key@) == Some(v@),
                None => self@.member(key@) is None,
            },
    {
        match self {
            JsonValue::Object(members) => {
                proof {
                    lemma_object_view(*self);
                }
                let k = key.to_owned();
                let i = find_member(members, &k);
                if i < members.len() {
                    Some(&members[i].1)
                } else {
                    None
                }
            },
            _ => None,
        }
    }

    /// The value at `path`, if every segment names a member of the object
    /// reached so far.
    pub fn lookup(&self, path: &[&str]) -> (r: Option<&JsonValue>)
        ensures
            match r {
                Some(v) => self@.lookup(path_view(path)) == Some(v@),
                None => self@.lookup(path_view(path)) is None,
            },
    {
        let ghost p = path_view(path);
        let mut cur: &JsonValue = self;
        let mut i: usize = 0;
        assert(p.skip(0) =~= p);
        while i < path.len()
            invariant
                i <= path@.len(),
                p == path_view(path),
                self@.lookup(p) == cur@.lookup(p.skip(i as int)),
            decreases path@.len() - i,
        {
            proof {
                assert(p.skip(i as int)[0] == path@[i as int]@);
                assert(p.skip(i as int).drop_first() =~= p.skip(i + 1));
            }
            match cur.member(path[i]) {
                Some(child) => {
                    cur = child;
                },
                None => {
                    return None;
                },
            }
            i += 1;
        }
        Some(cur)
    }

    /// Writes `value` at `path`, making objects of what is missing or null on
    /// the way. Fails, and leaves `self` as it was, where the path runs into
    /// a value that is neither an object nor null.
    pub fn insert(&mut self, path: &[&str], value: JsonValue) -> (r: Result<(), InsertionError>)
        ensures
            match r {
                Ok(_) => old(self)@.accepts(path_view(path)) && final(self)@ == old(self)@.inserted(
                    path_view(path),
                    value@,
                ),
                Err(e) => old(self)@.blocked_at(path_view(path)) == Some(e.depth as int)
                    && final(self)@ == old(self)@,
            },
    {
        assert(path_view(path).skip(0) =~= path_view(path));
        self.insert_from(path, 0, value)
    }

    /// Writes `value` at `path` if there is one, and does nothing if not.
    pub fn insert_option(&mut self, path: &[&str], value: Option<JsonValue>) -> (r: Result<
        (),
        InsertionError,
    >)
        ensures
            match (value, r) {
                (None, Ok(_)) => final(self)@ == old(self)@,
                (Some(v), Ok(_)) => old(self)@.accepts(path_view(path)) && final(self)@ == old(
                    self,
                )@.inserted(path_view(path), v@),
                (Some(_), Err(e)) => old(self)@.blocked_at(path_view(path)) == Some(e.depth as int)
                    && final(self)@ == old(self)@,
                (None, Err(_)) => false,
            },
    {
        match value {
            Some(v) => self.insert(path, v),
            None => Ok(()),
        }
    }

    /// Writes `values` at `path` as an array if there are any, and does
    /// nothing if the list is empty.
    pub fn insert_list(&mut self, path: &[&str], values: Vec<JsonValue>) -> (r: Result<
        (),
        InsertionError,
    >)
        ensures
            values@.len() == 0 ==> r is Ok && final(self)@ == old(self)@,
            values@.len() > 0 ==> match r {
                Ok(_) => old(self)@.accepts(path_view(path)) && final(self)@ == old(self)@.inserted(
                    path_view(path),
                    JsonModel::Array(items_view(values@)),
                ),
                Err(e) => old(self)@.blocked_at(path_view(path)) == Some(e.depth as int)
                    && final(self)@ == old(self)@,
            },
    {
        if values.len() == 0 {
            Ok(())
        } else {
            let array = JsonValue::Array(values);
            proof {
                lemma_array_view(array);
            }
            self.insert(path, array)
        }
    }

    fn insert_from(&mut self, path: &[&str], start: usize, value: JsonValue) -> (r: Result<
        (),
        InsertionError,
    >)
        requires
            start <= path@.len(),
        ensures
            match r {
                Ok(_) => old(self)@.accepts(path_view(path).skip(start as int)) && final(self)@
                    == old(self)@.inserted(path_view(path).skip(start as int), value@),
                Err(e) => start <= e.depth && old(self)@.blocked_at(
                    path_view(path).skip(start as int),
                ) == Some(e.depth - start) && final(self)@ == old(self)@,
            },
        decreases path@.len() - start,
    {
        let ghost p = path_view(path).skip(start as int);
        if start == path.len() {
            *self = value;
            return Ok(());
        }
        proof {
            assert(p[0] == path@[start as int]@);
            assert(p.drop_first() =~= path_view(path).skip(start + 1));
        }
        let key = path[start].to_owned();
        match self {
            JsonValue::Object(members) => {
                let ghost before = members_view(members@);
                proof {
                    lemma_object_view(*old(self));
                    lemma_key_index(before, key@);
                }
                let i = find_member(members, &key);
                if i < members.len() {
                    let r = members[i].1.insert_from(path, start + 1, value);
                    proof {
                        let after = members_view(members@);
                        if r is Ok {
                            assert(after =~= before.update(i as int, (key@, members@[i as int].1@)));
                        } else {
                            assert(after =~= before);
                        }
                        lemma_object_view(*self);
                    }
                    r
                } else {
                    let mut child = JsonValue::Null;
                    let r = child.insert_from(path, start + 1, value);
                    members.push((key, child));
                    proof {
                        assert(members_view(members@) =~= before.push((key@, child@)));
                        lemma_object_view(*self);
                    }
                    r
                }
            },
            JsonValue::Null => {
                let mut child = JsonValue::Null;
                let r = child.insert_from(path, start + 1, value);
                let mut members: Vec<(String, JsonValue)> = Vec::new();
                members.push((key, child));
                *self = JsonValue::Object(members);
                proof {
                    assert(members_view(members@) =~= seq![(key@, child@)]);
                    lemma_object_view(*self);
                }
                r
            },
            _ => Err(InsertionError { depth: start }),
        }
    }
}

} // verus!
