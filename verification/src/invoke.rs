//! Finding a chosen element again, and the click that activates it.

use vstd::prelude::*;
use crate::geometry::{middle, midpoint};
use crate::traits::{element_views, Action, ElementView, UiElement};

verus! {

/// A click to synthesise: where the pointer goes, and which button is pressed.
#[derive(Clone, Copy, Debug, PartialEq, Eq, Structural)]
pub struct Click {
    pub x: i64,
    pub y: i64,
    pub action: Action,
}

/// Whether a live node is the one that a snapshot was taken of: same text,
/// same role, same position. The position is part of the key, because many
/// controls share a text and a role.
pub open spec fn same_target(live: ElementView, target: ElementView) -> bool {
    live.name == target.name && live.control == target.control && live.x == target.x && live.y
        == target.y
}

pub fn is_same_target(live: &UiElement, target: &UiElement) -> (r: bool)
    ensures
        r == same_target(live@, target@),
{
    live.name == target.name && live.control == target.control && live.x == target.x && live.y
        == target.y
}

/// The place of the first live node that is `target`, if there is one.
pub open spec fn located(live: Seq<ElementView>, target: ElementView) -> Option<int> {
    if exists|i: int| 0 <= i < live.len() && same_target(#[trigger] live[i], target) {
        Some(first_match(live, target, 0))
    } else {
        None
    }
}

/// The least place at or after `from` at which `target` is found, or the end.
pub open spec fn first_match(live: Seq<ElementView>, target: ElementView, from: int) -> int
    decreases live.len() - from,
{
    if from < 0 || from >= live.len() {
        live.len() as int
    } else if same_target(live[from], target) {
        from
    } else {
        first_match(live, target, from + 1)
    }
}

pub fn locate(live: &[UiElement], target: &UiElement) -> (r: Option<usize>)
    ensures
        match located(element_views(live@), target@) {
            Some(i) => r == Some(i as usize) && 0 <= i < live@.len() && same_target(
                live@[i]@,
                target@,
            ),
            None => r is None,
        },
{
    let ghost views = element_views(live@);
    let mut i: usize = 0;
    while i < live.len()
        invariant
            i <= live.len(),
            views == element_views(live@),
            first_match(views, target@, 0) == first_match(views, target@, i as int),
            forall|k: int| 0 <= k < i ==> !same_target(#[trigger] views[k], target@),
        decreases live.len() - i,
    {
        if is_same_target(&live[i], target) {
            assert(same_target(views[i as int], target@));
            return Some(i);
        }
        i += 1;
    }
    None
}

/// The point at which an element is clicked: the middle of its rectangle.
pub open spec fn click_point(e: ElementView) -> (int, int) {
    (middle(e.x, e.width), middle(e.y, e.height))
}

/// The click that performs `action` on `target`.
pub open spec fn click_on(target: ElementView, action: Action) -> Click {
    Click { x: click_point(target).0 as i64, y: click_point(target).1 as i64, action }
}

pub fn click_for(target: &UiElement, action: Action) -> (r: Click)
    ensures
        r == click_on(target@, action),
        r.x == click_point(target@).0,
        r.y == click_point(target@).1,
{
    Click { x: midpoint(target.x, target.width), y: midpoint(target.y, target.height), action }
}

/// What invoking `target` comes to when the live nodes are `live`: the click
/// in the middle of the snapshot's rectangle where the node is found again,
/// nothing where it is not.
pub open spec fn resolved(live: Seq<ElementView>, target: ElementView, action: Action) -> Option<
    Click,
> {
    match located(live, target) {
        Some(_) => Some(click_on(target, action)),
        None => None,
    }
}

pub fn resolve(live: &[UiElement], target: &UiElement, action: Action) -> (r: Option<Click>)
    ensures
        r == resolved(element_views(live@), target@, action),
{
    match locate(live, target) {
        Some(_) => Some(click_for(target, action)),
        None => None,
    }
}

/// While `target` is still among the live nodes, such as it was scanned,
/// invoking it clicks the middle of its rectangle.
pub proof fn lemma_round_trip(live: Seq<ElementView>, target: ElementView, action: Action)
    requires
        live.contains(target),
    ensures
        resolved(live, target, action) == Some(click_on(target, action)),
        click_point(target) == (
            target.x + crate::geometry::half(target.width),
            target.y + crate::geometry::half(target.height),
        ),
{
    let i = choose|i: int| 0 <= i < live.len() && live[i] == target;
    assert(same_target(live[i], target));
}

/// Where no live node is `target` any more, invoking it does nothing.
pub proof fn lemma_target_gone(live: Seq<ElementView>, target: ElementView, action: Action)
    requires
        forall|i: int| 0 <= i < live.len() ==> !same_target(#[trigger] live[i], target),
    ensures
        resolved(live, target, action) is None,
{
}

} // verus!
