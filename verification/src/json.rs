//! JSON values, as far as the message codec reads and builds them.
//!
//! The grammar belongs to `serde_json`: a parsed value is the crate's own, and what it holds goes
//! by the name [`json_tree`].

use crate::remote;
use crate::text;
use vstd::prelude::*;

verus! {

/// A value of `serde_json`.
#[verifier::external_type_specification]
#[verifier::external_body]
pub struct ExValue(serde_json::Value);

/// What a JSON value holds.
pub enum JsonTree {
    /// `null`.
    Null,
    /// `true` or `false`.
    Truth(bool),
    /// A whole number that is not negative.
    Unsigned(u64),
    /// A negative whole number.
    Negative(i64),
    /// Any other number.
    OtherNumber,
    /// A text.
    Text(Seq<char>),
    /// A list of values.
    List(Seq<JsonTree>),
    /// Values by name.
    Object(Map<Seq<char>, JsonTree>),
}

/// What a value holds.
pub uninterp spec fn json_tree(value: serde_json::Value) -> JsonTree;

/// What every value of a list holds.
pub open spec fn trees(list: Seq<serde_json::Value>) -> Seq<JsonTree> {
    list.map_values(|value: serde_json::Value| json_tree(value))
}

/// The members of an object built from pairs. Of pairs with the same name the last one counts.
pub open spec fn keyed(pairs: Seq<(Seq<char>, JsonTree)>) -> Map<Seq<char>, JsonTree>
    decreases pairs.len(),
{
    if pairs.len() == 0 {
        Map::empty()
    } else {
        keyed(pairs.drop_last()).insert(pairs.last().0, pairs.last().1)
    }
}

/// An object built from pairs.
pub open spec fn object(pairs: Seq<(Seq<char>, JsonTree)>) -> JsonTree {
    JsonTree::Object(keyed(pairs))
}

/// What every pair of a list holds.
pub open spec fn pair_trees(pairs: Seq<(String, serde_json::Value)>) -> Seq<
    (Seq<char>, JsonTree),
> {
    pairs.map_values(|pair: (String, serde_json::Value)| (pair.0@, json_tree(pair.1)))
}

/// A whole number.
pub open spec fn whole(number: i64) -> JsonTree {
    if number >= 0 {
        JsonTree::Unsigned(number as u64)
    } else {
        JsonTree::Negative(number)
    }
}

/// The tree holds only numbers that are written exactly, negative ones below zero, and nests lists
/// and objects at most so deep.
pub open spec fn fits(tree: JsonTree, depth: nat) -> bool
    decreases depth,
{
    match tree {
        JsonTree::Null => true,
        JsonTree::Truth(_) => true,
        JsonTree::Unsigned(_) => true,
        JsonTree::Negative(number) => number < 0,
        JsonTree::OtherNumber => false,
        JsonTree::Text(_) => true,
        JsonTree::List(items) => depth > 0 && forall|i: int|
            0 <= i < items.len() ==> fits(#[trigger] items[i], (depth - 1) as nat),
        JsonTree::Object(members) => depth > 0 && forall|name: Seq<char>|
            members.contains_key(name) ==> fits(#[trigger] members[name], (depth - 1) as nat),
    }
}

/// What `serde_json::from_slice` makes of a byte string.
pub uninterp spec fn parsed_json(bytes: Seq<u8>) -> Option<JsonTree>;

/// What `serde_json::to_vec` writes.
pub uninterp spec fn printed_json(tree: JsonTree) -> Seq<u8>;

/// Calls `serde_json::from_slice` for a `serde_json::Value`. Which bytes are JSON, and what they
/// hold, is left to the crate; of members with the same name it keeps the last.
#[verifier::external_body]
pub(crate) fn parse(bytes: &[u8]) -> (value: Option<serde_json::Value>)
    ensures
        (match value {
            Some(value) => Some(json_tree(value)),
            None => None,
        }) == parsed_json(bytes@),
{
    serde_json::from_slice(bytes).ok()
}

/// Calls `serde_json::to_vec`. For a value whose numbers are whole and that nests no deeper than the
/// crate reads, writing into memory does not fail, what is written depends on nothing but what the
/// value holds, and it reads back as the same. Nothing is said of other values.
#[verifier::external_body]
pub(crate) fn print(value: &serde_json::Value) -> (bytes: Option<Vec<u8>>)
    ensures
        fits(json_tree(*value), 127) ==> {
            &&& bytes is Some
            &&& bytes->0@ == printed_json(json_tree(*value))
            &&& parsed_json(bytes->0@) == Some(json_tree(*value))
        },
{
    serde_json::to_vec(value).ok()
}

/// Calls `serde_json::Value::get` with a name: the member of that name, where the value is an
/// object and has one.
#[verifier::external_body]
pub(crate) fn member<'a>(value: &'a serde_json::Value, name: &str) -> (member: Option<&'a serde_json::Value>)
    ensures
        (match member {
            Some(member) => Some(json_tree(*member)),
            None => None,
        }) == json_tree(*value).member(name@),
{
    value.get(name)
}

/// Calls `serde_json::Value::as_object` and `serde_json::Map::keys`: the names of an object's
/// members, and nothing for any other value.
#[verifier::external_body]
fn names(value: &serde_json::Value) -> (names: Option<Vec<String>>)
    ensures
        names is Some <==> json_tree(*value) is Object,
        names is Some ==> remote::texts(names->0@).to_set() == json_tree(
            *value,
        )->Object_0.dom(),
{
    value.as_object().map(|members| members.keys().cloned().collect())
}

/// Calls `serde_json::Value::as_str`: the text that a value is.
#[verifier::external_body]
fn as_text(value: &serde_json::Value) -> (text: Option<&str>)
    ensures
        text::viewed(text) == json_tree(*value).text(),
{
    value.as_str()
}

/// Calls `serde_json::Value::as_u64`: the number that is not negative that a value is.
#[verifier::external_body]
fn as_unsigned(value: &serde_json::Value) -> (number: Option<u64>)
    ensures
        number == json_tree(*value).unsigned(),
{
    value.as_u64()
}

/// Calls `serde_json::Value::as_i64`: the whole number that a value is, where 64 bits with a sign
/// hold it.
#[verifier::external_body]
fn as_signed(value: &serde_json::Value) -> (number: Option<i64>)
    ensures
        number == json_tree(*value).signed(),
{
    value.as_i64()
}

/// Calls `serde_json::Value::as_bool`: the truth value that a value is.
#[verifier::external_body]
fn as_truth(value: &serde_json::Value) -> (truth: Option<bool>)
    ensures
        truth == json_tree(*value).truth(),
{
    value.as_bool()
}

/// Calls `serde_json::Value::is_null`.
#[verifier::external_body]
fn is_null(value: &serde_json::Value) -> (yes: bool)
    ensures
        yes == (json_tree(*value) is Null),
{
    value.is_null()
}

/// Calls `serde_json::Value::as_array`: the values of a list, and nothing for any other value.
#[verifier::external_body]
fn as_list(value: &serde_json::Value) -> (items: Option<&Vec<serde_json::Value>>)
    ensures
        (match items {
            Some(items) => Some(trees(items@)),
            None => None,
        }) == json_tree(*value).items(),
{
    value.as_array()
}

/// Makes a `serde_json::Value` of nothing.
#[verifier::external_body]
pub(crate) fn null_value() -> (value: serde_json::Value)
    ensures
        json_tree(value) is Null,
{
    serde_json::Value::Null
}

/// Makes a `serde_json::Value` of a truth value.
#[verifier::external_body]
pub(crate) fn truth_value(truth: bool) -> (value: serde_json::Value)
    ensures
        json_tree(value) == JsonTree::Truth(truth),
{
    serde_json::Value::from(truth)
}

/// Makes a `serde_json::Value` of a number that is not negative.
#[verifier::external_body]
pub(crate) fn unsigned_value(number: u64) -> (value: serde_json::Value)
    ensures
        json_tree(value) == JsonTree::Unsigned(number),
{
    serde_json::Value::from(number)
}

/// Makes a `serde_json::Value` of a whole number.
#[verifier::external_body]
pub(crate) fn signed_value(number: i64) -> (value: serde_json::Value)
    ensures
        json_tree(value) == whole(number),
{
    serde_json::Value::from(number)
}

/// Makes a `serde_json::Value` of a text.
#[verifier::external_body]
pub(crate) fn text_value(text: &str) -> (value: serde_json::Value)
    ensures
        json_tree(value) == JsonTree::Text(text@),
{
    serde_json::Value::from(text)
}

/// Makes a `serde_json::Value` of a list of values.
#[verifier::external_body]
pub(crate) fn list_value(items: Vec<serde_json::Value>) -> (value: serde_json::Value)
    ensures
        json_tree(value) == JsonTree::List(trees(items@)),
{
    serde_json::Value::Array(items)
}

/// Makes a `serde_json::Value` of named values, through `serde_json::Map`'s `FromIterator`. Where no
/// two have the same name, the object holds each under its own; of values that share a name nothing
/// is said.
#[verifier::external_body]
pub(crate) fn object_value(pairs: Vec<(String, serde_json::Value)>) -> (value: serde_json::Value)
    ensures
        distinct(pair_trees(pairs@)) ==> json_tree(value) == object(pair_trees(pairs@)),
{
    serde_json::Value::Object(pairs.into_iter().collect())
}

impl JsonTree {
    /// The member of a name.
    pub open spec fn member(self, name: Seq<char>) -> Option<JsonTree> {
        match self {
            JsonTree::Object(members) if members.contains_key(name) => Some(members[name]),
            _ => None,
        }
    }

    /// The text that the value is.
    pub open spec fn text(self) -> Option<Seq<char>> {
        match self {
            JsonTree::Text(text) => Some(text),
            _ => None,
        }
    }

    /// The number that is not negative that the value is.
    pub open spec fn unsigned(self) -> Option<u64> {
        match self {
            JsonTree::Unsigned(number) => Some(number),
            _ => None,
        }
    }

    /// The whole number that the value is, where 64 bits with a sign hold it.
    pub open spec fn signed(self) -> Option<i64> {
        match self {
            JsonTree::Unsigned(number) if number <= i64::MAX => Some(number as i64),
            JsonTree::Negative(number) => Some(number),
            _ => None,
        }
    }

    /// The truth value that the value is.
    pub open spec fn truth(self) -> Option<bool> {
        match self {
            JsonTree::Truth(truth) => Some(truth),
            _ => None,
        }
    }

    /// The values of a list.
    pub open spec fn items(self) -> Option<Seq<JsonTree>> {
        match self {
            JsonTree::List(items) => Some(items),
            _ => None,
        }
    }

    /// The value is an object all of whose members have one of the given names.
    pub open spec fn only_has(self, known: Seq<Seq<char>>) -> bool {
        match self {
            JsonTree::Object(members) => forall|name: Seq<char>|
                #[trigger] members.contains_key(name) ==> known.contains(name),
            _ => false,
        }
    }

    /// The text of a member.
    pub open spec fn text_of(self, name: Seq<char>) -> Option<Seq<char>> {
        match self.member(name) {
            Some(member) => member.text(),
            None => None,
        }
    }

    /// The number of a member, where it is at most `maximum`.
    pub open spec fn number_of(self, name: Seq<char>, maximum: u64) -> Option<u64> {
        match self.member(name) {
            Some(member) => match member.unsigned() {
                Some(number) if number <= maximum => Some(number),
                _ => None,
            },
            None => None,
        }
    }

    /// An optional number: absent and `null` both say that there is none.
    pub open spec fn optional_number(self, name: Seq<char>, maximum: u64) -> Option<Option<u64>> {
        match self.member(name) {
            None => Some(None),
            Some(member) => if member is Null {
                Some(None)
            } else {
                match self.number_of(name, maximum) {
                    Some(number) => Some(Some(number)),
                    None => None,
                }
            },
        }
    }

    /// An optional text: absent and `null` both say that there is none.
    pub open spec fn optional_text(self, name: Seq<char>) -> Option<Option<Seq<char>>> {
        match self.member(name) {
            None => Some(None),
            Some(member) => if member is Null {
                Some(None)
            } else {
                match member.text() {
                    Some(text) => Some(Some(text)),
                    None => None,
                }
            },
        }
    }
}

/// The texts of a list of texts.
pub open spec fn all_texts(items: Seq<JsonTree>) -> Option<Seq<Seq<char>>>
    decreases items.len(),
{
    if items.len() == 0 {
        Some(Seq::empty())
    } else {
        match (all_texts(items.drop_last()), items.last().text()) {
            (Some(texts), Some(text)) => Some(texts.push(text)),
            _ => None,
        }
    }
}

/// A list of texts.
pub open spec fn text_list(texts: Seq<Seq<char>>) -> JsonTree {
    JsonTree::List(texts.map_values(|text: Seq<char>| JsonTree::Text(text)))
}

/// Whether a text is among some others.
fn contains(known: &[&str], name: &str) -> (yes: bool)
    ensures
        yes == literals(known@).contains(name@),
{
    let mut index: usize = 0;
    while index < known.len()
        invariant
            index <= known@.len(),
            forall|i: int| 0 <= i < index ==> (#[trigger] known@[i])@ != name@,
        decreases known@.len() - index,
    {
        if text::same(known[index], name) {
            proof {
                assert(literals(known@)[index as int] == name@);
            }
            return true;
        }
        index = index + 1;
    }
    proof {
        assert forall|i: int| 0 <= i < literals(known@).len() implies #[trigger] literals(
            known@,
        )[i] != name@ by {
            assert(known@[i]@ != name@);
        }
    }
    false
}

/// The characters of some texts.
pub open spec fn literals(texts: Seq<&str>) -> Seq<Seq<char>> {
    texts.map_values(|text: &str| text@)
}

/// Whether a value is an object all of whose members have one of the given names.
pub fn has_only(value: &serde_json::Value, known: &[&str]) -> (yes: bool)
    ensures
        yes == json_tree(*value).only_has(literals(known@)),
{
    let found = match names(value) {
        Some(found) => found,
        None => {
            return false;
        },
    };
    let ghost members = json_tree(*value)->Object_0;
    let ghost listed = remote::texts(found@);
    let mut index: usize = 0;
    while index < found.len()
        invariant
            index <= found@.len(),
            listed == remote::texts(found@),
            listed.to_set() == members.dom(),
            json_tree(*value) == JsonTree::Object(members),
            forall|i: int| 0 <= i < index ==> literals(known@).contains(#[trigger] listed[i]),
        decreases found@.len() - index,
    {
        if !contains(known, found[index].as_str()) {
            proof {
                assert(listed[index as int] == found@[index as int]@);
                assert(!literals(known@).contains(listed[index as int]));
                assert(listed.contains(listed[index as int]));
                assert(listed.to_set().contains(listed[index as int]));
                assert(json_tree(*value)->Object_0.contains_key(listed[index as int]));
                assert(exists|name: Seq<char>|
                    #[trigger] members.contains_key(name) && !literals(known@).contains(name));
            }
            return false;
        }
        index = index + 1;
    }
    proof {
        assert forall|name: Seq<char>| #[trigger] members.contains_key(name) implies literals(
            known@,
        ).contains(name) by {
            assert(listed.to_set().contains(name));
            let i = choose|i: int| 0 <= i < listed.len() && listed[i] == name;
            assert(literals(known@).contains(listed[i]));
        }
    }
    true
}

/// The text of a member.
pub fn text_of<'a>(value: &'a serde_json::Value, name: &str) -> (text: Option<&'a str>)
    ensures
        text::viewed(text) == json_tree(*value).text_of(name@),
{
    match member(value, name) {
        Some(member) => as_text(member),
        None => None,
    }
}

/// The number of a member, where it is at most `maximum`.
pub fn number_of(value: &serde_json::Value, name: &str, maximum: u64) -> (number: Option<u64>)
    ensures
        number == json_tree(*value).number_of(name@, maximum),
{
    match member(value, name) {
        Some(member) => match as_unsigned(member) {
            Some(number) => if number <= maximum {
                Some(number)
            } else {
                None
            },
            None => None,
        },
        None => None,
    }
}

/// The whole number of a member.
pub fn signed_of(value: &serde_json::Value, name: &str) -> (number: Option<i64>)
    ensures
        number == (match json_tree(*value).member(name@) {
            Some(member) => member.signed(),
            None => None,
        }),
{
    match member(value, name) {
        Some(member) => as_signed(member),
        None => None,
    }
}

/// The truth value of a member.
pub fn truth_of(value: &serde_json::Value, name: &str) -> (truth: Option<bool>)
    ensures
        truth == (match json_tree(*value).member(name@) {
            Some(member) => member.truth(),
            None => None,
        }),
{
    match member(value, name) {
        Some(member) => as_truth(member),
        None => None,
    }
}

/// An optional number: absent and `null` both say that there is none.
pub fn optional_number(value: &serde_json::Value, name: &str, maximum: u64) -> (number: Option<
    Option<u64>,
>)
    ensures
        number == json_tree(*value).optional_number(name@, maximum),
{
    match member(value, name) {
        None => Some(None),
        Some(member) => if is_null(member) {
            Some(None)
        } else {
            match number_of(value, name, maximum) {
                Some(number) => Some(Some(number)),
                None => None,
            }
        },
    }
}

/// An optional text: absent and `null` both say that there is none.
pub fn optional_text(value: &serde_json::Value, name: &str) -> (text: Option<Option<String>>)
    ensures
        (match text {
            Some(text) => Some(text::owned(text)),
            None => None,
        }) == json_tree(*value).optional_text(name@),
{
    match member(value, name) {
        None => Some(None),
        Some(member) => if is_null(member) {
            Some(None)
        } else {
            match as_text(member) {
                Some(text) => Some(Some(text.to_owned())),
                None => None,
            }
        },
    }
}

/// The texts of a member that is a list of texts.
pub fn texts_of(value: &serde_json::Value, name: &str) -> (texts: Option<Vec<String>>)
    ensures
        (match texts {
            Some(texts) => Some(remote::texts(texts@)),
            None => None,
        }) == (match json_tree(*value).member(name@) {
            Some(member) => match member.items() {
                Some(items) => all_texts(items),
                None => None,
            },
            None => None,
        }),
{
    let member = match member(value, name) {
        Some(member) => member,
        None => {
            return None;
        },
    };
    let items = match as_list(member) {
        Some(items) => items,
        None => {
            return None;
        },
    };
    let ghost all = trees(items@);
    let mut texts: Vec<String> = Vec::new();
    let mut index: usize = 0;
    proof {
        assert(all.take(0) =~= Seq::<JsonTree>::empty());
        assert(remote::texts(texts@) =~= Seq::<Seq<char>>::empty());
    }
    while index < items.len()
        invariant
            index <= items@.len(),
            all == trees(items@),
            json_tree(*value).member(name@) == Some(json_tree(*member)),
            json_tree(*member).items() == Some(all),
            all_texts(all.take(index as int)) == Some(remote::texts(texts@)),
        decreases items@.len() - index,
    {
        let ghost before = remote::texts(texts@);
        proof {
            assert(all.take(index + 1).drop_last() =~= all.take(index as int));
            assert(all.take(index + 1).last() == json_tree(items@[index as int]));
        }
        match as_text(&items[index]) {
            Some(text) => {
                texts.push(text.to_owned());
                proof {
                    assert(remote::texts(texts@) =~= before.push(text@));
                }
            },
            None => {
                proof {
                    lemma_all_texts_fails_early(all, index + 1);
                }
                return None;
            },
        }
        index = index + 1;
    }
    proof {
        assert(all.take(items@.len() as int) =~= all);
    }
    Some(texts)
}

proof fn lemma_all_texts_fails_early(items: Seq<JsonTree>, at: int)
    requires
        0 <= at <= items.len(),
        all_texts(items.take(at)) is None,
    ensures
        all_texts(items) is None,
    decreases items.len(),
{
    if at < items.len() {
        assert(items.drop_last().take(at) =~= items.take(at));
        lemma_all_texts_fails_early(items.drop_last(), at);
    } else {
        assert(items.take(at) =~= items);
    }
}

/// A value for an optional number.
pub fn optional_number_value(number: Option<u64>) -> (value: serde_json::Value)
    ensures
        json_tree(value) == (match number {
            Some(number) => JsonTree::Unsigned(number),
            None => JsonTree::Null,
        }),
{
    match number {
        Some(number) => unsigned_value(number),
        None => null_value(),
    }
}

/// A value for an optional text.
pub fn optional_text_value(text: Option<&str>) -> (value: serde_json::Value)
    ensures
        json_tree(value) == (match text::viewed(text) {
            Some(text) => JsonTree::Text(text),
            None => JsonTree::Null,
        }),
{
    match text {
        Some(text) => text_value(text),
        None => null_value(),
    }
}

/// A value for a list of texts.
pub fn text_list_value(texts: &Vec<String>) -> (value: serde_json::Value)
    ensures
        json_tree(value) == text_list(remote::texts(texts@)),
{
    let mut items: Vec<serde_json::Value> = Vec::new();
    let mut index: usize = 0;
    while index < texts.len()
        invariant
            index <= texts@.len(),
            items@.len() == index,
            forall|i: int|
                0 <= i < index ==> json_tree(#[trigger] items@[i]) == JsonTree::Text(texts@[i]@),
        decreases texts@.len() - index,
    {
        items.push(text_value(texts[index].as_str()));
        index = index + 1;
    }
    proof {
        assert(trees(items@) =~= text_list(remote::texts(texts@))->List_0);
    }
    list_value(items)
}

/// No two pairs have the same name.
pub open spec fn distinct(pairs: Seq<(Seq<char>, JsonTree)>) -> bool {
    forall|i: int, j: int|
        0 <= i < j < pairs.len() ==> (#[trigger] pairs[i]).0 != (#[trigger] pairs[j]).0
}

/// An object of distinct names has just those members.
pub proof fn lemma_object(pairs: Seq<(Seq<char>, JsonTree)>)
    requires
        distinct(pairs),
    ensures
        forall|i: int|
            0 <= i < pairs.len() ==> keyed(pairs).contains_key((#[trigger] pairs[i]).0)
                && keyed(pairs)[pairs[i].0] == pairs[i].1,
        forall|name: Seq<char>| #[trigger]
            keyed(pairs).contains_key(name) ==> exists|i: int|
                0 <= i < pairs.len() && (#[trigger] pairs[i]).0 == name,
    decreases pairs.len(),
{
    if pairs.len() > 0 {
        let front = pairs.drop_last();
        assert(distinct(front)) by {
            assert forall|i: int, j: int| 0 <= i < j < front.len() implies (#[trigger] front[i]).0
                != (#[trigger] front[j]).0 by {
                assert(front[i] == pairs[i] && front[j] == pairs[j]);
            }
        }
        lemma_object(front);
        assert forall|i: int| 0 <= i < pairs.len() implies keyed(pairs).contains_key(
            (#[trigger] pairs[i]).0,
        ) && keyed(pairs)[pairs[i].0] == pairs[i].1 by {
            if i < front.len() {
                assert(front[i] == pairs[i]);
                assert(pairs[i].0 != pairs[pairs.len() - 1].0);
            }
        }
        assert forall|name: Seq<char>| #[trigger] keyed(pairs).contains_key(name) implies exists|
            i: int,
        |
            0 <= i < pairs.len() && (#[trigger] pairs[i]).0 == name by {
            if name == pairs.last().0 {
                assert(pairs[pairs.len() - 1].0 == name);
            } else {
                assert(keyed(front).contains_key(name));
                let i = choose|i: int| 0 <= i < front.len() && (#[trigger] front[i]).0 == name;
                assert(pairs[i].0 == name);
            }
        }
    }
}

/// An object fits where its members do.
pub proof fn lemma_object_fits(pairs: Seq<(Seq<char>, JsonTree)>, depth: nat)
    requires
        depth > 0,
        distinct(pairs),
        forall|i: int| 0 <= i < pairs.len() ==> fits((#[trigger] pairs[i]).1, (depth - 1) as nat),
    ensures
        fits(object(pairs), depth),
{
    lemma_object(pairs);
    let members = keyed(pairs);
    assert forall|name: Seq<char>| members.contains_key(name) implies fits(
        #[trigger] members[name],
        (depth - 1) as nat,
    ) by {
        let i = choose|i: int| 0 <= i < pairs.len() && (#[trigger] pairs[i]).0 == name;
        assert(members[pairs[i].0] == pairs[i].1);
    }
}

/// An object of distinct names has those names alone, each with its value.
pub proof fn lemma_members(pairs: Seq<(Seq<char>, JsonTree)>, known: Seq<Seq<char>>)
    requires
        distinct(pairs),
        known.len() == pairs.len(),
        forall|i: int| 0 <= i < pairs.len() ==> known[i] == (#[trigger] pairs[i]).0,
    ensures
        object(pairs).only_has(known),
        forall|i: int|
            0 <= i < pairs.len() ==> object(pairs).member((#[trigger] pairs[i]).0) == Some(
                pairs[i].1,
            ),
{
    lemma_object(pairs);
    let members = keyed(pairs);
    assert forall|name: Seq<char>| #[trigger] members.contains_key(name) implies known.contains(
        name,
    ) by {
        let i = choose|i: int| 0 <= i < pairs.len() && (#[trigger] pairs[i]).0 == name;
        assert(known[i] == name);
    }
}

/// A list of texts reads back as those texts.
pub proof fn lemma_text_list(texts: Seq<Seq<char>>)
    ensures
        all_texts(text_list(texts)->List_0) == Some(texts),
    decreases texts.len(),
{
    let items = text_list(texts)->List_0;
    if texts.len() == 0 {
        assert(texts =~= Seq::<Seq<char>>::empty());
    } else {
        assert(items.drop_last() =~= text_list(texts.drop_last())->List_0);
        lemma_text_list(texts.drop_last());
        assert(texts.drop_last().push(texts.last()) =~= texts);
    }
}

/// A list of texts fits wherever a list may stand.
pub proof fn lemma_text_list_fits(texts: Seq<Seq<char>>, depth: nat)
    requires
        depth > 0,
    ensures
        fits(text_list(texts), depth),
{
    let items = text_list(texts)->List_0;
    assert forall|i: int| 0 <= i < items.len() implies fits(
        #[trigger] items[i],
        (depth - 1) as nat,
    ) by {
        assert(items[i] == JsonTree::Text(texts[i]));
    }
}

/// What fits also fits where more nesting is allowed.
pub proof fn lemma_fits_deeper(tree: JsonTree, depth: nat, deeper: nat)
    requires
        fits(tree, depth),
        depth <= deeper,
    ensures
        fits(tree, deeper),
    decreases depth,
{
    match tree {
        JsonTree::List(items) => {
            assert forall|i: int| 0 <= i < items.len() implies fits(
                #[trigger] items[i],
                (deeper - 1) as nat,
            ) by {
                lemma_fits_deeper(items[i], (depth - 1) as nat, (deeper - 1) as nat);
            }
        },
        JsonTree::Object(members) => {
            assert forall|name: Seq<char>| members.contains_key(name) implies fits(
                #[trigger] members[name],
                (deeper - 1) as nat,
            ) by {
                lemma_fits_deeper(members[name], (depth - 1) as nat, (deeper - 1) as nat);
            }
        },
        _ => {},
    }
}

/// A member is read as what it is: a name that is not there gives nothing, a value of another kind
/// gives nothing, a number above the bound gives nothing, and only an optional member may be `null`.
pub proof fn law_members_are_read_as_what_they_are(
    members: Map<Seq<char>, JsonTree>,
    name: Seq<char>,
    maximum: u64,
    number: u64,
    text: Seq<char>,
)
    ensures
        ({
            let tree = JsonTree::Object(members);
            let there = members.contains_key(name);
            let value = members[name];
            &&& tree.member(name) is Some <==> there
            &&& there ==> tree.member(name) == Some(value)
            &&& tree.text_of(name) == Some(text) <==> there && value == JsonTree::Text(text)
            &&& tree.number_of(name, maximum) == Some(number) <==> there && value
                == JsonTree::Unsigned(number) && number <= maximum
            &&& tree.optional_number(name, maximum) == Some(None::<u64>) <==> !there || value is Null
            &&& tree.optional_number(name, maximum) == Some(Some(number)) <==> there && value
                == JsonTree::Unsigned(number) && number <= maximum
            &&& tree.optional_text(name) == Some(None::<Seq<char>>) <==> !there || value is Null
            &&& tree.optional_text(name) == Some(Some(text)) <==> there && value == JsonTree::Text(
                text,
            )
        }),
        JsonTree::Text(text).member(name) is None,
        JsonTree::Null.text() is None && JsonTree::Null.unsigned() is None,
{
}

/// A whole number reads back with its sign.
pub proof fn law_a_whole_number_keeps_its_sign(number: i64)
    ensures
        whole(number).signed() == Some(number),
        whole(number).unsigned() is Some <==> number >= 0,
        number >= 0 ==> whole(number).unsigned() == Some(number as u64),
{
}

/// A list is one of texts exactly if every item is one, and they are read in order.
pub proof fn law_a_list_of_texts_is_read_in_order(items: Seq<JsonTree>, at: int)
    requires
        0 <= at < items.len(),
    ensures
        all_texts(items) matches Some(texts) ==> texts.len() == items.len() && items[at]
            == JsonTree::Text(texts[at]),
        !(items[at] is Text) ==> all_texts(items) is None,
    decreases items.len(),
{
    if at < items.len() - 1 {
        law_a_list_of_texts_is_read_in_order(items.drop_last(), at);
    } else {
        lemma_as_many_texts(items.drop_last());
    }
}

proof fn lemma_as_many_texts(items: Seq<JsonTree>)
    ensures
        all_texts(items) matches Some(texts) ==> texts.len() == items.len(),
    decreases items.len(),
{
    if items.len() > 0 {
        lemma_as_many_texts(items.drop_last());
    }
}

} // verus!
