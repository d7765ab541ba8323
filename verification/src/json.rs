//! JSON values: the tree that the contracts speak of, and the value that the
//! code works on.

use vstd::prelude::*;
use vstd::string::*;

use crate::text::same_text;

verus! {

/// `serde_json::Number`, held but never looked into.
#[verifier::external_type_specification]
#[verifier::external_body]
pub struct ExSerdeNumber(serde_json::Number);

/// `serde_json::Value`, taken apart and put together one level at a time.
#[verifier::external_type_specification]
#[verifier::external_body]
pub struct ExSerdeValue(serde_json::Value);

/// A number that is no integer of 64 bits, carried as it came. The only maker
/// of one is the conversion from a parsed value.
pub struct Decimal {
    number: serde_json::Number,
}

/// What a JSON value is: the tree of its parts.
#[verifier::ext_equal]
pub enum Tree {
    Null,
    Bool(bool),
    Int(int),
    Decimal(Decimal),
    Text(Seq<char>),
    Array(Seq<Tree>),
    Object(Map<Seq<char>, Tree>),
}

/// A number as the code holds it.
pub enum Numeric {
    Unsigned(u64),
    Signed(i64),
    Decimal(Decimal),
}

/// The members of a JSON object, in the order in which their names were first
/// set.
pub struct Object {
    members: Vec<(String, Json)>,
}

/// A JSON value.
pub enum Json {
    Null,
    Bool(bool),
    Numeric(Numeric),
    Text(String),
    Array(Vec<Json>),
    Object(Object),
}

// ---------------------------------------------------------------------------
// Trees
// ---------------------------------------------------------------------------

impl Tree {
    /// The member of that name, where there is one.
    pub open spec fn get(self, name: Seq<char>) -> Option<Tree> {
        match self {
            Tree::Object(members) => if members.contains_key(name) {
                Some(members[name])
            } else {
                None
            },
            _ => None,
        }
    }

    /// The member of that name, or null.
    pub open spec fn at(self, name: Seq<char>) -> Tree {
        match self.get(name) {
            Some(member) => member,
            None => Tree::Null,
        }
    }

    /// The array's item at that place, or null.
    pub open spec fn item(self, index: int) -> Tree {
        match self {
            Tree::Array(items) => if 0 <= index < items.len() {
                items[index]
            } else {
                Tree::Null
            },
            _ => Tree::Null,
        }
    }

    pub open spec fn as_text(self) -> Option<Seq<char>> {
        match self {
            Tree::Text(text) => Some(text),
            _ => None,
        }
    }

    pub open spec fn as_bool(self) -> Option<bool> {
        match self {
            Tree::Bool(b) => Some(b),
            _ => None,
        }
    }

    pub open spec fn as_array(self) -> Option<Seq<Tree>> {
        match self {
            Tree::Array(items) => Some(items),
            _ => None,
        }
    }

    /// The number, where it is an integer of `u64`.
    pub open spec fn as_u64(self) -> Option<u64> {
        match self {
            Tree::Int(n) => if 0 <= n <= u64::MAX {
                Some(n as u64)
            } else {
                None
            },
            _ => None,
        }
    }

    /// The number, where it is an integer of `i64`.
    pub open spec fn as_i64(self) -> Option<i64> {
        match self {
            Tree::Int(n) => if i64::MIN <= n <= i64::MAX {
                Some(n as i64)
            } else {
                None
            },
            _ => None,
        }
    }
}

/// The text, or a default.
pub open spec fn text_or(text: Option<Seq<char>>, default: Seq<char>) -> Seq<char> {
    match text {
        Some(t) => t,
        None => default,
    }
}

/// The trees of a list of values.
pub open spec fn trees(items: Seq<Json>) -> Seq<Tree>
    decreases items,
{
    if items.len() == 0 {
        seq![]
    } else {
        trees(items.drop_last()).push(items.last().tree())
    }
}

/// What a list of members holds: for each name its last value.
pub open spec fn member_map(members: Seq<(String, Json)>) -> Map<Seq<char>, Tree>
    decreases members,
{
    if members.len() == 0 {
        Map::empty()
    } else {
        member_map(members.drop_last()).insert(members.last().0@, members.last().1.tree())
    }
}

/// No name stands twice.
pub open spec fn distinct_names<V>(members: Seq<(String, V)>) -> bool {
    forall|i: int, j: int|
        0 <= i < j < members.len() ==> #[trigger] members[i].0@ != #[trigger] members[j].0@
}

impl Numeric {
    pub open spec fn tree(self) -> Tree {
        match self {
            Numeric::Unsigned(n) => Tree::Int(n as int),
            Numeric::Signed(n) => Tree::Int(n as int),
            Numeric::Decimal(d) => Tree::Decimal(d),
        }
    }
}

impl Json {
    /// The tree that the value stands for.
    pub open spec fn tree(self) -> Tree
        decreases self,
    {
        match self {
            Json::Null => Tree::Null,
            Json::Bool(b) => Tree::Bool(b),
            Json::Numeric(n) => n.tree(),
            Json::Text(s) => Tree::Text(s@),
            Json::Array(items) => Tree::Array(trees(items@)),
            Json::Object(object) => Tree::Object(object.tree_map()),
        }
    }
}

impl View for Json {
    type V = Tree;

    open spec fn view(&self) -> Tree {
        self.tree()
    }
}

impl Object {
    /// The members, by name.
    pub closed spec fn tree_map(self) -> Map<Seq<char>, Tree>
        decreases self,
    {
        member_map(self.members@)
    }

    #[verifier::type_invariant]
    spec fn names_are_distinct(self) -> bool {
        distinct_names(self.members@)
    }
}

impl View for Object {
    type V = Map<Seq<char>, Tree>;

    open spec fn view(&self) -> Map<Seq<char>, Tree> {
        self.tree_map()
    }
}

/// The trees of a list are the trees of its items.
pub proof fn lemma_trees(items: Seq<Json>)
    ensures
        trees(items).len() == items.len(),
        forall|i: int| 0 <= i < items.len() ==> #[trigger] trees(items)[i] == items[i]@,
    decreases items.len(),
{
    if items.len() > 0 {
        lemma_trees(items.drop_last());
    }
}

/// One more item gives one more tree.
pub proof fn lemma_trees_push(items: Seq<Json>, item: Json)
    ensures
        trees(items.push(item)) == trees(items).push(item@),
{
    assert(items.push(item).drop_last() =~= items);
}

/// The trees of two lists in a row are the two lists of trees in a row.
pub proof fn lemma_trees_add(first: Seq<Json>, second: Seq<Json>)
    ensures
        trees(first + second) == trees(first) + trees(second),
{
    lemma_trees(first);
    lemma_trees(second);
    lemma_trees(first + second);
    assert(trees(first + second) =~= trees(first) + trees(second));
}

/// The names of a list of members are the keys of what it holds.
proof fn lemma_member_map_keys(members: Seq<(String, Json)>, name: Seq<char>)
    ensures
        member_map(members).contains_key(name) <==> exists|i: int|
            0 <= i < members.len() && #[trigger] members[i].0@ == name,
    decreases members.len(),
{
    if members.len() > 0 {
        let rest = members.drop_last();
        lemma_member_map_keys(rest, name);
        if member_map(members).contains_key(name) {
            if members.last().0@ == name {
                assert(members[members.len() - 1].0@ == name);
            } else {
                let i = choose|i: int| 0 <= i < rest.len() && #[trigger] rest[i].0@ == name;
                assert(members[i].0@ == name);
            }
        }
        if exists|i: int| 0 <= i < members.len() && #[trigger] members[i].0@ == name {
            let i = choose|i: int| 0 <= i < members.len() && #[trigger] members[i].0@ == name;
            if i < rest.len() {
                assert(rest[i].0@ == name);
            }
        }
    }
}

/// A member with a name of its own is what the map holds under that name.
proof fn lemma_member_map_index(members: Seq<(String, Json)>, i: int)
    requires
        distinct_names(members),
        0 <= i < members.len(),
    ensures
        member_map(members).contains_key(members[i].0@),
        member_map(members)[members[i].0@] == members[i].1@,
    decreases members.len(),
{
    if i < members.len() - 1 {
        let rest = members.drop_last();
        assert forall|a: int, b: int| 0 <= a < b < rest.len() implies #[trigger] rest[a].0@
            != #[trigger] rest[b].0@ by {
            assert(members[a].0@ != members[b].0@);
        }
        lemma_member_map_index(rest, i);
        assert(members[i].0@ != members[members.len() - 1].0@);
        assert(rest[i] == members[i]);
    }
}

/// Setting one member's value sets the value under its name.
proof fn lemma_member_map_update(
    members: Seq<(String, Json)>,
    i: int,
    changed: Seq<(String, Json)>,
)
    requires
        distinct_names(members),
        0 <= i < members.len() == changed.len(),
        changed[i].0@ == members[i].0@,
        forall|j: int| 0 <= j < members.len() && j != i ==> changed[j] == members[j],
    ensures
        member_map(changed) =~= member_map(members).insert(members[i].0@, changed[i].1@),
        distinct_names(changed),
    decreases members.len(),
{
    assert forall|a: int, b: int| 0 <= a < b < changed.len() implies #[trigger] changed[a].0@
        != #[trigger] changed[b].0@ by {
        assert(members[a].0@ != members[b].0@);
    }
    let last = members.len() - 1;
    if i == last {
        assert(changed.drop_last() =~= members.drop_last());
    } else {
        let rest = members.drop_last();
        assert forall|a: int, b: int| 0 <= a < b < rest.len() implies #[trigger] rest[a].0@
            != #[trigger] rest[b].0@ by {
            assert(members[a].0@ != members[b].0@);
        }
        lemma_member_map_update(rest, i, changed.drop_last());
        assert(members[i].0@ != members[last].0@);
        assert(changed[last] == members[last]);
    }
}

// ---------------------------------------------------------------------------
// Reading and building
// ---------------------------------------------------------------------------

impl Decimal {
    /// `serde_json::Number::clone` gives the same number.
    #[verifier::external_body]
    fn copy(&self) -> (same: Decimal)
        ensures
            same == *self,
    {
        Decimal { number: self.number.clone() }
    }
}

impl Object {
    /// An object without members.
    pub fn new() -> (object: Object)
        ensures
            object@ == Map::<Seq<char>, Tree>::empty(),
    {
        Object { members: Vec::new() }
    }

    /// Sets the member of that name, in place of an earlier one.
    pub fn insert(&mut self, name: &str, value: Json)
        ensures
            final(self)@ == old(self)@.insert(name@, value@),
    {
        proof {
            use_type_invariant(&*self);
        }
        let ghost before = self.members@;
        let mut members: Vec<(String, Json)> = Vec::new();
        std::mem::swap(&mut members, &mut self.members);
        let count: usize = members.len();
        let mut i: usize = 0;
        while i < count
            invariant
                i <= count,
                count == members.len(),
                members@ == before,
                old(self)@ == member_map(before),
                distinct_names(before),
                forall|j: int| 0 <= j < i ==> #[trigger] before[j].0@ != name@,
            decreases count - i,
        {
            if same_text(members[i].0.as_str(), name) {
                members.set(i, (name.to_owned(), value));
                proof {
                    lemma_member_map_update(before, i as int, members@);
                }
                self.members = members;
                return;
            }
            i = i + 1;
        }
        members.push((name.to_owned(), value));
        proof {
            assert(members@.drop_last() =~= before);
        }
        self.members = members;
    }

    /// The member of that name, where there is one.
    pub fn get(&self, name: &str) -> (member: Option<&Json>)
        ensures
            match member {
                Some(value) => self@.contains_key(name@) && self@[name@] == value@,
                None => !self@.contains_key(name@),
            },
    {
        proof {
            use_type_invariant(self);
        }
        let count: usize = self.members.len();
        let mut i: usize = 0;
        while i < count
            invariant
                i <= count,
                count == self.members.len(),
                distinct_names(self.members@),
                forall|j: int| 0 <= j < i ==> #[trigger] self.members@[j].0@ != name@,
            decreases count - i,
        {
            if same_text(self.members[i].0.as_str(), name) {
                proof {
                    lemma_member_map_index(self.members@, i as int);
                }
                return Some(&self.members[i].1);
            }
            i = i + 1;
        }
        proof {
            lemma_member_map_keys(self.members@, name@);
        }
        None
    }
}

impl Object {
    /// A value for value copy.
    pub fn copy(&self) -> (same: Object)
        ensures
            same@ == self@,
        decreases self,
    {
        proof {
            use_type_invariant(self);
        }
        let count: usize = self.members.len();
        let mut members: Vec<(String, Json)> = Vec::new();
        let mut i: usize = 0;
        while i < count
            invariant
                i <= count,
                count == self.members.len(),
                members.len() == i,
                distinct_names(self.members@),
                forall|j: int| 0 <= j < i ==> #[trigger] members@[j].0@ == self.members@[j].0@,
                member_map(members@) == member_map(self.members@.take(i as int)),
            decreases count - i,
        {
            let ghost before = members@;
            let member: &(String, Json) = &self.members[i];
            proof {
                assert(decreases_to!(self.members => self.members[i as int]));
            }
            let value: Json = member.1.copy();
            members.push((member.0.clone(), value));
            proof {
                assert(members@.drop_last() =~= before);
                assert(self.members@.take(i + 1).drop_last() =~= self.members@.take(i as int));
            }
            i = i + 1;
        }
        proof {
            assert(self.members@.take(count as int) =~= self.members@);
            assert forall|a: int, b: int| 0 <= a < b < members@.len() implies #[trigger] members@[a].0@
                != #[trigger] members@[b].0@ by {
                assert(self.members@[a].0@ != self.members@[b].0@);
            }
        }
        Object { members }
    }
}

impl Json {
    /// A value for value copy.
    pub fn copy(&self) -> (same: Json)
        ensures
            same@ == self@,
        decreases self,
    {
        match self {
            Json::Null => Json::Null,
            Json::Bool(b) => Json::Bool(*b),
            Json::Numeric(Numeric::Unsigned(n)) => Json::Numeric(Numeric::Unsigned(*n)),
            Json::Numeric(Numeric::Signed(n)) => Json::Numeric(Numeric::Signed(*n)),
            Json::Numeric(Numeric::Decimal(d)) => Json::Numeric(Numeric::Decimal(d.copy())),
            Json::Text(text) => Json::Text(text.clone()),
            Json::Object(object) => Json::Object(object.copy()),
            Json::Array(items) => {
                let count: usize = items.len();
                let mut copies: Vec<Json> = Vec::new();
                let mut i: usize = 0;
                proof {
                    assert(items@.take(0) =~= seq![]);
                }
                while i < count
                    invariant
                        i <= count,
                        count == items.len(),
                        *self == Json::Array(*items),
                        trees(copies@) == trees(items@.take(i as int)),
                    decreases count - i,
                {
                    let ghost before = copies@;
                    proof {
                        assert(decreases_to!(*self => self->Array_0));
                        assert(decreases_to!(*items => items[i as int]));
                    }
                    let item: Json = items[i].copy();
                    copies.push(item);
                    proof {
                        assert(copies@.drop_last() =~= before);
                        assert(items@.take(i + 1).drop_last() =~= items@.take(i as int));
                    }
                    i = i + 1;
                }
                proof {
                    assert(items@.take(count as int) =~= items@);
                }
                Json::Array(copies)
            },
        }
    }

    /// The text value.
    pub fn text(text: &str) -> (value: Json)
        ensures
            value@ == Tree::Text(text@),
    {
        Json::Text(text.to_owned())
    }

    /// The integer value.
    pub fn unsigned(n: u64) -> (value: Json)
        ensures
            value@ == Tree::Int(n as int),
    {
        Json::Numeric(Numeric::Unsigned(n))
    }

    /// The integer value.
    pub fn signed(n: i64) -> (value: Json)
        ensures
            value@ == Tree::Int(n as int),
    {
        Json::Numeric(Numeric::Signed(n))
    }

    /// The member of that name, where there is one.
    pub fn get(&self, name: &str) -> (member: Option<&Json>)
        ensures
            match member {
                Some(value) => self@.get(name@) == Some(value@),
                None => self@.get(name@) is None,
            },
    {
        match self {
            Json::Object(object) => object.get(name),
            _ => None,
        }
    }

    /// A copy of the member of that name, or null.
    pub fn at(&self, name: &str) -> (member: Json)
        ensures
            member@ == self@.at(name@),
    {
        match self.get(name) {
            Some(value) => value.copy(),
            None => Json::Null,
        }
    }

    pub fn as_text(&self) -> (text: Option<&str>)
        ensures
            match text {
                Some(t) => self@.as_text() == Some(t@),
                None => self@.as_text() is None,
            },
    {
        match self {
            Json::Text(text) => Some(text.as_str()),
            _ => None,
        }
    }

    pub fn as_bool(&self) -> (b: Option<bool>)
        ensures
            b == self@.as_bool(),
    {
        match self {
            Json::Bool(b) => Some(*b),
            _ => None,
        }
    }

    pub fn as_array(&self) -> (items: Option<&Vec<Json>>)
        ensures
            match items {
                Some(list) => self@.as_array() == Some(trees(list@)),
                None => self@.as_array() is None,
            },
    {
        match self {
            Json::Array(items) => Some(items),
            _ => None,
        }
    }

    pub fn as_u64(&self) -> (n: Option<u64>)
        ensures
            n == self@.as_u64(),
    {
        match self {
            Json::Numeric(Numeric::Unsigned(n)) => Some(*n),
            Json::Numeric(Numeric::Signed(n)) => if *n >= 0 {
                Some(*n as u64)
            } else {
                None
            },
            _ => None,
        }
    }

    pub fn as_i64(&self) -> (n: Option<i64>)
        ensures
            n == self@.as_i64(),
    {
        match self {
            Json::Numeric(Numeric::Unsigned(n)) => if *n <= i64::MAX as u64 {
                Some(*n as i64)
            } else {
                None
            },
            Json::Numeric(Numeric::Signed(n)) => Some(*n),
            _ => None,
        }
    }

    /// The text of the member of that name.
    pub fn text_at(&self, name: &str) -> (text: Option<&str>)
        ensures
            match text {
                Some(t) => self@.at(name@).as_text() == Some(t@),
                None => self@.at(name@).as_text() is None,
            },
    {
        match self.get(name) {
            Some(value) => value.as_text(),
            None => None,
        }
    }

    /// The text of the member of that name, or a default.
    pub fn text_or<'a>(&'a self, name: &str, default: &'a str) -> (text: &'a str)
        ensures
            text@ == text_or(self@.at(name@).as_text(), default@),
    {
        match self.text_at(name) {
            Some(text) => text,
            None => default,
        }
    }

    /// The flag of the member of that name.
    pub fn bool_at(&self, name: &str) -> (b: Option<bool>)
        ensures
            b == self@.at(name@).as_bool(),
    {
        match self.get(name) {
            Some(value) => value.as_bool(),
            None => None,
        }
    }

    /// The integer of the member of that name.
    pub fn u64_at(&self, name: &str) -> (n: Option<u64>)
        ensures
            n == self@.at(name@).as_u64(),
    {
        match self.get(name) {
            Some(value) => value.as_u64(),
            None => None,
        }
    }

    /// The integer of the member of that name.
    pub fn i64_at(&self, name: &str) -> (n: Option<i64>)
        ensures
            n == self@.at(name@).as_i64(),
    {
        match self.get(name) {
            Some(value) => value.as_i64(),
            None => None,
        }
    }

    /// The items of the member of that name.
    pub fn array_at(&self, name: &str) -> (items: Option<&Vec<Json>>)
        ensures
            match items {
                Some(list) => self@.at(name@).as_array() == Some(trees(list@)),
                None => self@.at(name@).as_array() is None,
            },
    {
        match self.get(name) {
            Some(value) => value.as_array(),
            None => None,
        }
    }
}

// ---------------------------------------------------------------------------
// The outside form
// ---------------------------------------------------------------------------

/// What a `serde_json::Value` holds, as a tree.
pub uninterp spec fn value_tree(value: serde_json::Value) -> Tree;

/// The text that `serde_json::to_string` writes for a value.
pub uninterp spec fn json_text(tree: Tree) -> Seq<char>;

/// The value that `serde_json::from_str` reads from a text, where it reads one.
pub uninterp spec fn json_parse(text: Seq<char>) -> Option<Tree>;

/// What `serde_json::Number::as_u64` reads of a number.
pub uninterp spec fn number_u64(number: serde_json::Number) -> Option<u64>;

/// What `serde_json::Number::as_i64` reads of a number.
pub uninterp spec fn number_i64(number: serde_json::Number) -> Option<i64>;

/// `serde_json::Number::as_u64`: the number, where it is an integer of `u64`.
pub assume_specification[ serde_json::Number::as_u64 ](number: &serde_json::Number) -> (read: Option<
    u64,
>)
    ensures
        read == number_u64(*number),
;

/// `serde_json::Number::as_i64`: the number, where it is an integer of `i64`.
pub assume_specification[ serde_json::Number::as_i64 ](number: &serde_json::Number) -> (read: Option<
    i64,
>)
    ensures
        read == number_i64(*number),
;

/// What a `serde_json::Number` is: an integer where it can be read as one.
pub closed spec fn number_tree(number: serde_json::Number) -> Tree {
    match (number_u64(number), number_i64(number)) {
        (Some(n), _) => Tree::Int(n as int),
        (None, Some(n)) => Tree::Int(n as int),
        (None, None) => Tree::Decimal(Decimal { number }),
    }
}

impl Decimal {
    #[verifier::type_invariant]
    spec fn is_no_integer(self) -> bool {
        number_u64(self.number) is None && number_i64(self.number) is None
    }
}

/// One level of a `serde_json::Value`, on the way in.
enum Parts {
    Null,
    Bool(bool),
    Numeric(Numeric),
    Text(String),
    Array(Vec<serde_json::Value>),
    Object(Vec<(String, serde_json::Value)>),
}

/// One level of a `serde_json::Value`, on the way out.
enum Level {
    Null,
    Bool(bool),
    Numeric(serde_json::Number),
    Text(String),
    Array(Vec<serde_json::Value>),
    Object(Vec<(String, serde_json::Value)>),
}

/// What a list of members of the outside form holds.
pub open spec fn value_map(members: Seq<(String, serde_json::Value)>) -> Map<Seq<char>, Tree>
    decreases members.len(),
{
    if members.len() == 0 {
        Map::empty()
    } else {
        value_map(members.drop_last()).insert(
            members.last().0@,
            value_tree(members.last().1),
        )
    }
}

impl Parts {
    spec fn tree(self) -> Tree {
        match self {
            Parts::Null => Tree::Null,
            Parts::Bool(b) => Tree::Bool(b),
            Parts::Numeric(n) => n.tree(),
            Parts::Text(s) => Tree::Text(s@),
            Parts::Array(items) => Tree::Array(
                items@.map_values(|v: serde_json::Value| value_tree(v)),
            ),
            Parts::Object(members) => Tree::Object(value_map(members@)),
        }
    }
}

impl Level {
    spec fn tree(self) -> Tree {
        match self {
            Level::Null => Tree::Null,
            Level::Bool(b) => Tree::Bool(b),
            Level::Numeric(number) => number_tree(number),
            Level::Text(s) => Tree::Text(s@),
            Level::Array(items) => Tree::Array(
                items@.map_values(|v: serde_json::Value| value_tree(v)),
            ),
            Level::Object(members) => Tree::Object(value_map(members@)),
        }
    }
}

/// Tells the variants of `serde_json::Value` apart and hands out what each
/// holds. The level is that of the value's tree, and an object's names are
/// distinct, as the keys of a map are.
#[verifier::external_body]
fn take_apart(value: serde_json::Value) -> (level: Level)
    ensures
        level.tree() == value_tree(value),
        level matches Level::Object(members) ==> distinct_names(members@),
{
    match value {
        serde_json::Value::Null => Level::Null,
        serde_json::Value::Bool(b) => Level::Bool(b),
        serde_json::Value::Number(number) => Level::Numeric(number),
        serde_json::Value::String(text) => Level::Text(text),
        serde_json::Value::Array(items) => Level::Array(items),
        serde_json::Value::Object(members) => Level::Object(members.into_iter().collect()),
    }
}

/// Makes a `serde_json::Value` of one level of parts: `Value::from` for an
/// integer, the variant itself for the rest. The value's tree is that of the
/// parts.
#[verifier::external_body]
fn put_together(parts: Parts) -> (value: serde_json::Value)
    requires
        parts matches Parts::Object(members) ==> distinct_names(members@),
    ensures
        value_tree(value) == parts.tree(),
{
    match parts {
        Parts::Null => serde_json::Value::Null,
        Parts::Bool(b) => serde_json::Value::Bool(b),
        Parts::Numeric(Numeric::Unsigned(n)) => serde_json::Value::from(n),
        Parts::Numeric(Numeric::Signed(n)) => serde_json::Value::from(n),
        Parts::Numeric(Numeric::Decimal(d)) => serde_json::Value::Number(d.number),
        Parts::Text(text) => serde_json::Value::String(text),
        Parts::Array(items) => serde_json::Value::Array(items),
        Parts::Object(members) => serde_json::Value::Object(members.into_iter().collect()),
    }
}

/// The value is one that reading gives back after writing: it holds no decimal
/// number, nests at most so deep, and no member has the name that `serde_json`
/// keeps for itself.
pub open spec fn reads_back(tree: Tree, depth: nat) -> bool
    decreases depth,
{
    match tree {
        Tree::Decimal(_) => false,
        Tree::Array(items) => {
            &&& depth > 0
            &&& forall|i: int|
                0 <= i < items.len() ==> #[trigger] reads_back(items[i], (depth - 1) as nat)
        },
        Tree::Object(members) => {
            &&& depth > 0
            &&& !members.contains_key("$serde_json::private::RawValue"@)
            &&& forall|name: Seq<char>|
                members.contains_key(name) ==> #[trigger] reads_back(
                    members[name],
                    (depth - 1) as nat,
                )
        },
        _ => true,
    }
}

/// `serde_json::to_string` of a value, which does not fail: the text is a
/// function of what the value holds, and reading it gives the value back where
/// it nests less than `serde_json`'s limit and holds no decimal number.
#[verifier::external_body]
fn write_value(value: &serde_json::Value) -> (text: String)
    ensures
        text@ == json_text(value_tree(*value)),
        reads_back(value_tree(*value), 127) ==> json_parse(text@) == Some(value_tree(*value)),
{
    serde_json::to_string(value).unwrap_or_default()
}

/// `serde_json::from_str` into a value: whether it reads one, and which, is a
/// function of the text.
#[verifier::external_body]
fn read_value(text: &str) -> (value: Option<serde_json::Value>)
    ensures
        match value {
            Some(v) => json_parse(text@) == Some(value_tree(v)),
            None => json_parse(text@) is None,
        },
{
    serde_json::from_str(text).ok()
}

impl Json {
    /// The value as `serde_json` holds it.
    pub fn to_value(&self) -> (value: serde_json::Value)
        ensures
            value_tree(value) == self@,
        decreases self,
    {
        match self {
            Json::Null => put_together(Parts::Null),
            Json::Bool(b) => put_together(Parts::Bool(*b)),
            Json::Numeric(Numeric::Unsigned(n)) => put_together(
                Parts::Numeric(Numeric::Unsigned(*n)),
            ),
            Json::Numeric(Numeric::Signed(n)) => put_together(Parts::Numeric(Numeric::Signed(*n))),
            Json::Numeric(Numeric::Decimal(d)) => put_together(
                Parts::Numeric(Numeric::Decimal(d.copy())),
            ),
            Json::Text(text) => put_together(Parts::Text(text.clone())),
            Json::Object(object) => object.to_value(),
            Json::Array(items) => {
                let count: usize = items.len();
                let mut values: Vec<serde_json::Value> = Vec::new();
                let mut i: usize = 0;
                while i < count
                    invariant
                        i <= count,
                        count == items.len(),
                        values.len() == i,
                        *self == Json::Array(*items),
                        forall|j: int|
                            0 <= j < i ==> value_tree(#[trigger] values@[j]) == items@[j]@,
                    decreases count - i,
                {
                    proof {
                        assert(decreases_to!(*self => self->Array_0));
                        assert(decreases_to!(*items => items[i as int]));
                    }
                    let value: serde_json::Value = items[i].to_value();
                    values.push(value);
                    i = i + 1;
                }
                proof {
                    lemma_trees(items@);
                    assert(values@.map_values(|v: serde_json::Value| value_tree(v)) =~= trees(
                        items@,
                    ));
                }
                put_together(Parts::Array(values))
            },
        }
    }

    /// The value that a `serde_json` value holds.
    pub fn from_value(value: serde_json::Value) -> (json: Json)
        ensures
            json@ == value_tree(value),
        decreases value_tree(value),
    {
        let ghost tree = value_tree(value);
        match take_apart(value) {
            Level::Null => Json::Null,
            Level::Bool(b) => Json::Bool(b),
            Level::Numeric(number) => match (number.as_u64(), number.as_i64()) {
                (Some(n), _) => Json::Numeric(Numeric::Unsigned(n)),
                (None, Some(n)) => Json::Numeric(Numeric::Signed(n)),
                (None, None) => Json::Numeric(Numeric::Decimal(Decimal { number })),
            },
            Level::Text(text) => Json::Text(text),
            Level::Array(items) => {
                let ghost all = items@;
                let ghost model = items@.map_values(|v: serde_json::Value| value_tree(v));
                let mut list: Vec<Json> = Vec::new();
                for item in iter: items
                    invariant
                        iter.seq() == all,
                        tree == Tree::Array(model),
                        model == all.map_values(|v: serde_json::Value| value_tree(v)),
                        value_tree(value) == tree,
                        list.len() == iter.index(),
                        forall|j: int| 0 <= j < iter.index() ==> (#[trigger] list@[j])@ == model[j],
                {
                    proof {
                        let i: int = iter.index() as int;
                        assert(item == all[i]);
                        assert(model[i] == value_tree(item));
                        assert(decreases_to!(tree => tree->Array_0));
                        assert(decreases_to!(model => model[i]));
                    }
                    list.push(Json::from_value(item));
                }
                proof {
                    lemma_trees(list@);
                    assert(trees(list@) =~= model);
                }
                Json::Array(list)
            },
            Level::Object(members) => {
                let ghost all = members@;
                let ghost model = value_map(all);
                let mut list: Vec<(String, Json)> = Vec::new();
                for member in iter: members
                    invariant
                        iter.seq() == all,
                        tree == Tree::Object(model),
                        model == value_map(all),
                        value_tree(value) == tree,
                        distinct_names(all),
                        list.len() == iter.index(),
                        forall|j: int| 0 <= j < iter.index() ==> (#[trigger] list@[j]).0 == all[j].0,
                        member_map(list@) == value_map(all.take(iter.index() as int)),
                {
                    let ghost before = list@;
                    let ghost i = iter.index() as int;
                    proof {
                        assert(member == all[i]);
                        lemma_value_map_index(all, i);
                        assert(decreases_to!(tree => tree->Object_0));
                        assert(decreases_to!(model => model[member.0@]));
                    }
                    list.push((member.0, Json::from_value(member.1)));
                    proof {
                        assert(list@.drop_last() =~= before);
                        assert(all.take(i + 1).drop_last() =~= all.take(i));
                    }
                }
                proof {
                    assert(all.take(all.len() as int) =~= all);
                    assert forall|a: int, b: int| 0 <= a < b < list@.len() implies #[trigger] list@[a].0@
                        != #[trigger] list@[b].0@ by {
                        assert(all[a].0@ != all[b].0@);
                    }
                }
                Json::Object(Object { members: list })
            },
        }
    }

    /// The value as compact JSON text.
    pub fn to_text(&self) -> (text: String)
        ensures
            text@ == json_text(self@),
            reads_back(self@, 127) ==> json_parse(text@) == Some(self@),
    {
        write_value(&self.to_value())
    }

    /// The value that a JSON text stands for, where it is one.
    pub fn parse(text: &str) -> (json: Option<Json>)
        ensures
            match json {
                Some(j) => json_parse(text@) == Some(j@),
                None => json_parse(text@) is None,
            },
    {
        match read_value(text) {
            Some(value) => Some(Json::from_value(value)),
            None => None,
        }
    }
}

impl Object {
    fn to_value(&self) -> (value: serde_json::Value)
        ensures
            value_tree(value) == Tree::Object(self@),
        decreases self,
    {
        proof {
            use_type_invariant(self);
        }
        let count: usize = self.members.len();
        let mut values: Vec<(String, serde_json::Value)> = Vec::new();
        let mut i: usize = 0;
        while i < count
            invariant
                i <= count,
                count == self.members.len(),
                values.len() == i,
                distinct_names(self.members@),
                forall|j: int| 0 <= j < i ==> #[trigger] values@[j].0@ == self.members@[j].0@,
                value_map(values@) == member_map(self.members@.take(i as int)),
            decreases count - i,
        {
            let ghost before = values@;
            let member: &(String, Json) = &self.members[i];
            proof {
                assert(decreases_to!(self.members => self.members[i as int]));
            }
            let value: serde_json::Value = member.1.to_value();
            values.push((member.0.clone(), value));
            proof {
                assert(values@.drop_last() =~= before);
                assert(self.members@.take(i + 1).drop_last() =~= self.members@.take(i as int));
            }
            i = i + 1;
        }
        proof {
            assert(self.members@.take(count as int) =~= self.members@);
            assert forall|a: int, b: int| 0 <= a < b < values@.len() implies #[trigger] values@[a].0@
                != #[trigger] values@[b].0@ by {
                assert(self.members@[a].0@ != self.members@[b].0@);
            }
        }
        put_together(Parts::Object(values))
    }
}

/// A member with a name of its own is what the map holds under that name.
proof fn lemma_value_map_index(members: Seq<(String, serde_json::Value)>, i: int)
    requires
        distinct_names(members),
        0 <= i < members.len(),
    ensures
        value_map(members).contains_key(members[i].0@),
        value_map(members)[members[i].0@] == value_tree(members[i].1),
        value_map(members).dom().finite(),
    decreases members.len(),
{
    let rest = members.drop_last();
    assert forall|a: int, b: int| 0 <= a < b < rest.len() implies #[trigger] rest[a].0@
        != #[trigger] rest[b].0@ by {
        assert(members[a].0@ != members[b].0@);
    }
    if i < members.len() - 1 {
        lemma_value_map_index(rest, i);
        assert(members[i].0@ != members[members.len() - 1].0@);
        assert(rest[i] == members[i]);
    } else if i > 0 {
        lemma_value_map_index(rest, i - 1);
    }
}

// ---------------------------------------------------------------------------
// Laws
// ---------------------------------------------------------------------------

/// A member is found under its own name, and under no other; what is no object
/// has no members. What is absent counts as null.
pub proof fn law_members(members: Map<Seq<char>, Tree>, name: Seq<char>, value: Tree, tree: Tree)
    ensures
        Tree::Object(members.insert(name, value)).get(name) == Some(value),
        Tree::Object(members.insert(name, value)).at(name) == value,
        forall|other: Seq<char>|
            other != name ==> #[trigger] Tree::Object(members.insert(name, value)).get(other)
                == Tree::Object(members).get(other),
        Tree::Object(Map::empty()).get(name) is None,
        !(tree is Object) ==> tree.get(name) is None,
        tree.at(name) == if tree.get(name) is Some {
            tree.get(name)->0
        } else {
            Tree::Null
        },
{
}

/// A value is read as what it is, and as nothing else; integers within the range
/// that is asked for.
pub proof fn law_values_are_what_they_are(
    tree: Tree,
    text: Seq<char>,
    b: bool,
    items: Seq<Tree>,
    n: int,
)
    ensures
        tree.as_text() == Some(text) <==> tree == Tree::Text(text),
        tree.as_bool() == Some(b) <==> tree == Tree::Bool(b),
        tree.as_array() == Some(items) <==> tree == Tree::Array(items),
        0 <= n <= u64::MAX ==> (tree.as_u64() == Some(n as u64) <==> tree == Tree::Int(n)),
        i64::MIN <= n <= i64::MAX ==> (tree.as_i64() == Some(n as i64) <==> tree == Tree::Int(n)),
        tree is Text <==> tree.as_text() is Some,
        tree is Bool <==> tree.as_bool() is Some,
        tree is Array <==> tree.as_array() is Some,
        tree.as_u64() is Some ==> tree is Int,
        tree.as_i64() is Some ==> tree is Int,
        forall|i: int|
            0 <= i < items.len() ==> #[trigger] Tree::Array(items).item(i) == items[i],
        Tree::Array(items).item(items.len() as int) == Tree::Null,
        forall|default: Seq<char>| #[trigger] text_or(Some(text), default) == text,
        text_or(None, text) == text,
{
}

/// A value stands for the tree of its own kind, a list for the trees of its items
/// in order.
pub proof fn law_values_stand_for_trees(json: Json, items: Seq<Json>, i: int)
    ensures
        match json {
            Json::Null => json@ == Tree::Null,
            Json::Bool(b) => json@ == Tree::Bool(b),
            Json::Numeric(Numeric::Unsigned(n)) => json@ == Tree::Int(n as int),
            Json::Numeric(Numeric::Signed(n)) => json@ == Tree::Int(n as int),
            Json::Numeric(Numeric::Decimal(d)) => json@ == Tree::Decimal(d),
            Json::Text(s) => json@ == Tree::Text(s@),
            Json::Array(list) => json@ == Tree::Array(trees(list@)),
            Json::Object(object) => json@ == Tree::Object(object@),
        },
        trees(items).len() == items.len(),
        0 <= i < items.len() ==> trees(items)[i] == items[i]@,
{
    lemma_trees(items);
}

} // verus!
