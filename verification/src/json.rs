//! Structured data as the templates see it: JSON values, and the merge of
//! one value into another.

use vstd::prelude::*;
use crate::text::same_text;

verus! {

/// A JSON value. The members of an object stand in the order in which
/// they were entered, and no two have one name.
#[derive(Debug)]
pub enum JsonValue {
    Null,
    Bool(bool),
    /// A number, as its JSON text.
    Number(String),
    Text(String),
    Array(Vec<JsonValue>),
    Object(Vec<JsonMember>),
}

/// A member of a JSON object.
#[derive(Debug)]
pub struct JsonMember {
    pub key: String,
    pub value: JsonValue,
}

/// A `JsonValue` as contracts see it.
pub enum JsonView {
    Null,
    Bool(bool),
    Number(Seq<char>),
    Text(Seq<char>),
    Array(Seq<JsonView>),
    Object(Seq<MemberView>),
}

/// A `JsonMember` as contracts see it.
pub struct MemberView {
    pub key: Seq<char>,
    pub value: JsonView,
}

/// The views of the first `n` values.
pub open spec fn values_view(items: Seq<JsonValue>, n: int) -> Seq<JsonView>
    decreases items, n,
{
    if n <= 0 || n > items.len() {
        Seq::empty()
    } else {
        values_view(items, n - 1).push(items[n - 1].view())
    }
}

/// The views of the first `n` members.
pub open spec fn members_view(members: Seq<JsonMember>, n: int) -> Seq<MemberView>
    decreases members, n,
{
    if n <= 0 || n > members.len() {
        Seq::empty()
    } else {
        members_view(members, n - 1).push(
            MemberView { key: members[n - 1].key@, value: members[n - 1].value.view() },
        )
    }
}

impl JsonValue {
    /// The value as contracts see it.
    pub open spec fn view(&self) -> JsonView
        decreases self,
    {
        match self {
            JsonValue::Null => JsonView::Null,
            JsonValue::Bool(b) => JsonView::Bool(*b),
            JsonValue::Number(n) => JsonView::Number(n@),
            JsonValue::Text(t) => JsonView::Text(t@),
            JsonValue::Array(items) => JsonView::Array(values_view(items@, items@.len() as int)),
            JsonValue::Object(members) => JsonView::Object(
                members_view(members@, members@.len() as int),
            ),
        }
    }
}

/// The place of the first member with the name `key`, or the number of
/// members if there is none.
pub open spec fn member_index(members: Seq<MemberView>, key: Seq<char>) -> int
    decreases members.len(),
{
    if members.len() == 0 {
        0
    } else if members[0].key == key {
        0
    } else {
        1 + member_index(members.drop_first(), key)
    }
}

/// The value `b` merged into the value `a`: an object is merged into an
/// object member by member, and anything else takes the place of `a`.
pub open spec fn merged(a: JsonView, b: JsonView) -> JsonView
    decreases b, 0int,
{
    match (a, b) {
        (JsonView::Object(x), JsonView::Object(y)) => JsonView::Object(
            merged_members(x, y, y.len() as int),
        ),
        (_, other) => other,
    }
}

/// The first `n` members of `y` merged into the members `x`: a member whose
/// name `x` has is merged into its namesake, where that stands; any other
/// is added behind.
pub open spec fn merged_members(x: Seq<MemberView>, y: Seq<MemberView>, n: int) -> Seq<MemberView>
    decreases y, n,
{
    if n <= 0 || n > y.len() {
        x
    } else {
        let so_far = merged_members(x, y, n - 1);
        let at = member_index(so_far, y[n - 1].key);
        if 0 <= at < so_far.len() {
            so_far.update(
                at,
                MemberView { key: y[n - 1].key, value: merged(so_far[at].value, y[n - 1].value) },
            )
        } else {
            so_far.push(y[n - 1])
        }
    }
}

/// The views of values, value by value.
pub proof fn lemma_values_view(items: Seq<JsonValue>, n: int)
    requires
        0 <= n <= items.len(),
    ensures
        values_view(items, n).len() == n,
        forall|i: int| 0 <= i < n ==> (#[trigger] values_view(items, n)[i]) == items[i].view(),
    decreases n,
{
    if n > 0 {
        lemma_values_view(items, n - 1);
    }
}

/// The views of members, member by member.
pub proof fn lemma_members_view(members: Seq<JsonMember>, n: int)
    requires
        0 <= n <= members.len(),
    ensures
        members_view(members, n).len() == n,
        forall|i: int|
            0 <= i < n ==> (#[trigger] members_view(members, n)[i]) == (MemberView {
                key: members[i].key@,
                value: members[i].value.view(),
            }),
    decreases n,
{
    if n > 0 {
        lemma_members_view(members, n - 1);
    }
}

/// Where `member_index` points, the member has the name; before it none has.
pub proof fn lemma_member_index(members: Seq<MemberView>, key: Seq<char>)
    ensures
        0 <= member_index(members, key) <= members.len(),
        member_index(members, key) < members.len() ==> members[member_index(members, key)].key
            == key,
    decreases members.len(),
{
    if members.len() > 0 && members[0].key != key {
        lemma_member_index(members.drop_first(), key);
    }
}

/// The place of the first member with the name `key`, or the number of
/// members if there is none.
pub fn find_member(members: &Vec<JsonMember>, key: &str) -> (at: usize)
    ensures
        at == member_index(members_view(members@, members@.len() as int), key@),
        at <= members.len(),
{
    let ghost mv = members_view(members@, members@.len() as int);
    proof {
        lemma_members_view(members@, members@.len() as int);
    }
    let mut i: usize = 0;
    assert(mv.skip(0) == mv);
    while i < members.len()
        invariant
            i <= members.len(),
            mv == members_view(members@, members@.len() as int),
            mv.len() == members.len(),
            forall|k: int| 0 <= k < mv.len() ==> (#[trigger] mv[k]).key == members@[k].key@,
            member_index(mv, key@) == i + member_index(mv.skip(i as int), key@),
        decreases members.len() - i,
    {
        assert(mv.skip(i as int)[0] == mv[i as int]);
        if same_text(members[i].key.as_str(), key) {
            return i;
        }
        assert(mv.skip(i as int).drop_first() == mv.skip(i + 1));
        i += 1;
    }
    i
}

impl JsonValue {
    /// A copy of the value.
    pub fn duplicate(&self) -> (out: JsonValue)
        ensures
            out.view() == self.view(),
        decreases self, 0int,
    {
        match self {
            JsonValue::Null => JsonValue::Null,
            JsonValue::Bool(b) => JsonValue::Bool(*b),
            JsonValue::Number(n) => JsonValue::Number(n.clone()),
            JsonValue::Text(t) => JsonValue::Text(t.clone()),
            JsonValue::Array(items) => {
                let copy = duplicate_values(items, items.len());
                proof {
                    lemma_values_view(items@, items@.len() as int);
                    lemma_values_view(copy@, copy@.len() as int);
                    assert(values_view(copy@, copy@.len() as int) =~= values_view(
                        items@,
                        items@.len() as int,
                    ));
                }
                JsonValue::Array(copy)
            },
            JsonValue::Object(members) => {
                let copy = duplicate_members(members, members.len());
                proof {
                    lemma_members_view(members@, members@.len() as int);
                    lemma_members_view(copy@, copy@.len() as int);
                    assert(members_view(copy@, copy@.len() as int) =~= members_view(
                        members@,
                        members@.len() as int,
                    ));
                }
                JsonValue::Object(copy)
            },
        }
    }

    /// Merges `other` into this value: an object is merged into an object
    /// member by member, and anything else takes this value's place.
    pub fn merge(&mut self, other: &JsonValue)
        ensures
            final(self).view() == merged(old(self).view(), other.view()),
        decreases other, 0int,
    {
        let mut mine = JsonValue::Null;
        core::mem::swap(self, &mut mine);
        let merged_value = match mine {
            JsonValue::Object(ours) => match other {
                JsonValue::Object(theirs) => {
                    let mut ours = ours;
                    proof {
                        lemma_members_view(theirs@, theirs@.len() as int);
                    }
                    merge_members(&mut ours, theirs, theirs.len());
                    JsonValue::Object(ours)
                },
                _ => other.duplicate(),
            },
            _ => other.duplicate(),
        };
        *self = merged_value;
    }
}

/// Copies the first `n` values.
fn duplicate_values(items: &Vec<JsonValue>, n: usize) -> (out: Vec<JsonValue>)
    requires
        n <= items.len(),
    ensures
        out.len() == n,
        forall|i: int| 0 <= i < n ==> (#[trigger] out@[i]).view() == items@[i].view(),
    decreases items, n,
{
    if n == 0 {
        Vec::new()
    } else {
        let mut out = duplicate_values(items, n - 1);
        proof {
            vstd::std_specs::vec::axiom_vec_index_decreases(*items, n - 1);
        }
        out.push(items[n - 1].duplicate());
        out
    }
}

/// Copies the first `n` members.
fn duplicate_members(members: &Vec<JsonMember>, n: usize) -> (out: Vec<JsonMember>)
    requires
        n <= members.len(),
    ensures
        out.len() == n,
        forall|i: int|
            0 <= i < n ==> (#[trigger] out@[i]).key@ == members@[i].key@ && out@[i].value.view()
                == members@[i].value.view(),
    decreases members, n,
{
    if n == 0 {
        Vec::new()
    } else {
        let mut out = duplicate_members(members, n - 1);
        proof {
            vstd::std_specs::vec::axiom_vec_index_decreases(*members, n - 1);
        }
        out.push(
            JsonMember { key: members[n - 1].key.clone(), value: members[n - 1].value.duplicate() },
        );
        out
    }
}

/// Merges the first `n` members of `theirs` into `ours`.
fn merge_members(ours: &mut Vec<JsonMember>, theirs: &Vec<JsonMember>, n: usize)
    requires
        n <= theirs.len(),
    ensures
        members_view(final(ours)@, final(ours)@.len() as int) == merged_members(
            members_view(old(ours)@, old(ours)@.len() as int),
            members_view(theirs@, theirs@.len() as int),
            n as int,
        ),
    decreases theirs, n,
{
    if n == 0 {
        return ;
    }
    merge_members(ours, theirs, n - 1);
    let ghost y = members_view(theirs@, theirs@.len() as int);
    let ghost so_far = members_view(ours@, ours@.len() as int);
    let ghost before = ours@;
    proof {
        lemma_members_view(theirs@, theirs@.len() as int);
        lemma_members_view(ours@, ours@.len() as int);
        vstd::std_specs::vec::axiom_vec_index_decreases(*theirs, n - 1);
    }
    let theirs_member = &theirs[n - 1];
    let at = find_member(ours, theirs_member.key.as_str());
    if at < ours.len() {
        proof {
            lemma_member_index(so_far, y[n - 1].key);
        }
        ours[at].value.merge(&theirs_member.value);
        proof {
            assert(ours@.len() == before.len());
            assert(ours@[at as int].key == before[at as int].key);
            assert(forall|k: int| 0 <= k < before.len() && k != at ==> ours@[k] == before[k]);
            lemma_members_view(ours@, ours@.len() as int);
            assert(members_view(ours@, ours@.len() as int) =~= so_far.update(
                at as int,
                MemberView {
                    key: y[n - 1].key,
                    value: merged(so_far[at as int].value, y[n - 1].value),
                },
            ));
        }
    } else {
        ours.push(
            JsonMember { key: theirs_member.key.clone(), value: theirs_member.value.duplicate() },
        );
        proof {
            lemma_members_view(ours@, ours@.len() as int);
            assert(members_view(ours@, ours@.len() as int) =~= so_far.push(y[n - 1]));
        }
    }
}

/// The members with `value` under the name `key`: in the place of the
/// member that had the name, or behind the others if none had.
pub open spec fn with_member(members: Seq<MemberView>, key: Seq<char>, value: JsonView) -> Seq<
    MemberView,
> {
    let at = member_index(members, key);
    if 0 <= at < members.len() {
        members.update(at, MemberView { key, value })
    } else {
        members.push(MemberView { key, value })
    }
}

/// Puts `value` under the name `key`.
pub fn set_member(members: &mut Vec<JsonMember>, key: &str, value: JsonValue)
    ensures
        members_view(final(members)@, final(members)@.len() as int) == with_member(
            members_view(old(members)@, old(members)@.len() as int),
            key@,
            value.view(),
        ),
{
    let ghost before = members_view(members@, members@.len() as int);
    proof {
        lemma_members_view(members@, members@.len() as int);
    }
    let at = find_member(members, key);
    if at < members.len() {
        let ghost old_members = members@;
        members[at] = JsonMember { key: String::from_str(key), value };
        proof {
            lemma_members_view(members@, members@.len() as int);
            assert(members_view(members@, members@.len() as int) =~= before.update(
                at as int,
                MemberView { key: key@, value: value.view() },
            ));
        }
    } else {
        members.push(JsonMember { key: String::from_str(key), value });
        proof {
            lemma_members_view(members@, members@.len() as int);
            assert(members_view(members@, members@.len() as int) =~= before.push(
                MemberView { key: key@, value: value.view() },
            ));
        }
    }
}

/// The value under the name `key`, if the members have one.
pub fn get_member<'a>(members: &'a Vec<JsonMember>, key: &str) -> (r: Option<&'a JsonValue>)
    ensures
        ({
            let mv = members_view(members@, members@.len() as int);
            let at = member_index(mv, key@);
            match r {
                Some(value) => 0 <= at < mv.len() && value.view() == mv[at].value,
                None => at == mv.len(),
            }
        }),
{
    proof {
        lemma_members_view(members@, members@.len() as int);
    }
    let at = find_member(members, key);
    if at < members.len() {
        Some(&members[at].value)
    } else {
        None
    }
}

} // verus!
