//! JSON merge patches (RFC 7396).

use crate::json::{Json, JsonView};
use crate::serde_bridge::value_content;
use vstd::prelude::*;

verus! {

/// The members of an object; anything else has none.
pub open spec fn members_of(content: JsonView) -> Map<Seq<char>, JsonView> {
    match content {
        JsonView::Object(members) => members,
        _ => Map::empty(),
    }
}

/// The member called `name`, and null where there is none.
pub open spec fn member_or_null(members: Map<Seq<char>, JsonView>, name: Seq<char>) -> JsonView {
    if members.contains_key(name) {
        members[name]
    } else {
        JsonView::Null
    }
}

/// What `patch` makes of `target`.
///
/// A patch that is no object replaces the target. An object changes the members that it
/// names and no others: it removes those for which it gives null, and patches the rest.
pub open spec fn merge_patch(target: JsonView, patch: JsonView) -> JsonView
    decreases patch,
{
    match patch {
        JsonView::Object(changes) => {
            let members = members_of(target);
            JsonView::Object(
                Map::new(
                    |name: Seq<char>|
                        if changes.contains_key(name) {
                            changes[name] !is Null
                        } else {
                            members.contains_key(name)
                        },
                    |name: Seq<char>|
                        if changes.contains_key(name) {
                            merge_patch(member_or_null(members, name), changes[name])
                        } else {
                            members[name]
                        },
                ),
            )
        },
        _ => patch,
    }
}

/// `json_patch::merge`.
///
/// Trusted: it turns the document into what the merge patch makes of it.
pub assume_specification[ json_patch::merge ](
    doc: &mut serde_json::Value,
    patch: &serde_json::Value,
)
    ensures
        value_content(*final(doc)) == merge_patch(value_content(*old(doc)), value_content(*patch)),
;

/// Applies a merge patch to a value.
pub fn merge_json(target: Json, patch: Json) -> (merged: Json)
    ensures
        merged@ == merge_patch(target@, patch@),
        merged.in_order(),
{
    let mut doc = target.into_value();
    let changes = patch.into_value();
    json_patch::merge(&mut doc, &changes);
    Json::from_value(doc)
}

/// An empty object as a patch leaves an object as it is.
pub proof fn law_empty_patch_changes_nothing(members: Map<Seq<char>, JsonView>)
    ensures
        merge_patch(JsonView::Object(members), JsonView::Object(Map::empty())) == JsonView::Object(
            members,
        ),
{
    let merged = merge_patch(JsonView::Object(members), JsonView::Object(Map::empty()));
    assert(merged->Object_0 =~= members);
}

/// A patch leaves the members that it does not name as they are.
pub proof fn law_patch_keeps_other_members(
    target: JsonView,
    changes: Map<Seq<char>, JsonView>,
    name: Seq<char>,
)
    requires
        !changes.contains_key(name),
    ensures
        members_of(merge_patch(target, JsonView::Object(changes))).contains_key(name)
            == members_of(target).contains_key(name),
        members_of(target).contains_key(name) ==> members_of(
            merge_patch(target, JsonView::Object(changes)),
        )[name] == members_of(target)[name],
{
}

/// A patch removes the members for which it gives null, and no member with null as its
/// value comes in through it at the top.
pub proof fn law_null_removes_a_member(
    target: JsonView,
    changes: Map<Seq<char>, JsonView>,
    name: Seq<char>,
)
    requires
        changes.contains_key(name),
    ensures
        members_of(merge_patch(target, JsonView::Object(changes))).contains_key(name) == (
        changes[name] !is Null),
{
}

/// Applying a patch a second time changes nothing.
pub proof fn law_merge_is_idempotent(target: JsonView, patch: JsonView)
    ensures
        merge_patch(merge_patch(target, patch), patch) == merge_patch(target, patch),
    decreases patch,
{
    if let JsonView::Object(changes) = patch {
        let once = merge_patch(target, patch);
        let twice = merge_patch(once, patch);
        assert forall|name: Seq<char>| #[trigger] once->Object_0.contains_key(name) implies
            twice->Object_0[name] == once->Object_0[name] by {
            if changes.contains_key(name) {
                assert(decreases_to!(patch => patch->Object_0));
                assert(decreases_to!(patch => changes[name]));
                law_merge_is_idempotent(
                    member_or_null(members_of(target), name),
                    changes[name],
                );
            }
        }
        assert(twice->Object_0 =~= once->Object_0);
    }
}

/// No object in the value, itself included, has a member whose value is null. What stands
/// in arrays does not count: a patch takes an array as a whole.
pub open spec fn without_null_members(content: JsonView) -> bool
    decreases content,
{
    match content {
        JsonView::Object(members) => forall|name: Seq<char>| #[trigger]
            members.contains_key(name) ==> members[name] !is Null && without_null_members(
                members[name],
            ),
        _ => true,
    }
}

/// A patch without null members, applied where there was no object, is what then stands
/// there.
pub proof fn law_merge_into_nothing(target: JsonView, patch: JsonView)
    requires
        target !is Object,
        without_null_members(patch),
    ensures
        merge_patch(target, patch) == patch,
    decreases patch,
{
    if let JsonView::Object(changes) = patch {
        let merged = merge_patch(target, patch);
        assert forall|name: Seq<char>| #[trigger] changes.contains_key(name) implies
            merged->Object_0[name] == changes[name] by {
            assert(decreases_to!(patch => changes[name]));
            law_merge_into_nothing(JsonView::Null, changes[name]);
        }
        assert(merged->Object_0 =~= changes);
    }
}

/// What stands in a value at a path of member names.
pub open spec fn member_at(content: JsonView, path: Seq<Seq<char>>) -> Option<JsonView>
    decreases path.len(),
{
    if path.len() == 0 {
        Some(content)
    } else {
        match content {
            JsonView::Object(members) => if members.contains_key(path[0]) {
                member_at(members[path[0]], path.drop_first())
            } else {
                None
            },
            _ => None,
        }
    }
}

/// Going down the path through objects, the patch comes to one that does not name the next
/// member.
pub open spec fn leaves_alone(patch: JsonView, path: Seq<Seq<char>>) -> bool
    decreases path.len(),
{
    match patch {
        JsonView::Object(changes) => path.len() > 0 && (changes.contains_key(path[0])
            ==> leaves_alone(changes[path[0]], path.drop_first())),
        _ => false,
    }
}

/// At every depth, a patch leaves what it does not name as it is.
pub proof fn law_patch_keeps_what_it_does_not_name(
    target: JsonView,
    patch: JsonView,
    path: Seq<Seq<char>>,
)
    requires
        leaves_alone(patch, path),
    ensures
        member_at(merge_patch(target, patch), path) == member_at(target, path),
    decreases path.len(),
{
    let changes = patch->Object_0;
    if changes.contains_key(path[0]) {
        law_patch_keeps_what_it_does_not_name(
            member_or_null(members_of(target), path[0]),
            changes[path[0]],
            path.drop_first(),
        );
        assert(leaves_alone(changes[path[0]], path.drop_first()));
        assert(member_at(JsonView::Null, path.drop_first()) is None);
    }
}

/// At every depth, what a patch gives stands there from then on, but where it gives null nothing
/// does, and where it gives an object there is one.
pub proof fn law_patch_sets_what_it_names(
    target: JsonView,
    patch: JsonView,
    path: Seq<Seq<char>>,
    value: JsonView,
)
    requires
        member_at(patch, path) == Some(value),
    ensures
        value is Object ==> (member_at(merge_patch(target, patch), path) matches Some(merged)
            && merged is Object),
        value !is Object && value !is Null ==> member_at(merge_patch(target, patch), path) == Some(
            value,
        ),
        value is Null && path.len() > 0 ==> member_at(merge_patch(target, patch), path) is None,
    decreases path.len(),
{
    if path.len() > 0 {
        let changes = patch->Object_0;
        let below = changes[path[0]];
        law_patch_sets_what_it_names(
            member_or_null(members_of(target), path[0]),
            below,
            path.drop_first(),
            value,
        );
        if below is Null && path.len() > 1 {
            assert(member_at(below, path.drop_first()) is None);
        }
    }
}

} // verus!
