//! The records that cross the library's boundary: a scanned element, the
//! pointer action asked of it, and what a platform back end has to offer.

use vstd::prelude::*;
use vstd::std_specs::cmp::PartialEqSpecImpl;
use vstd::std_specs::convert::FromSpecImpl;

verus! {

/// What a platform back end offers. Every method talks to the operating
/// system, so none of them promises anything about what it returns.
pub trait AccessibilityCalls {
    /// Whether the process may read other applications' controls.
    fn has_permissions(&self) -> bool;

    /// One full scan of the frontmost application.
    fn get_elements(&mut self) -> Vec<UiElement>;

    /// Finds `element` again on screen and performs `action` on it.
    fn invoke(&self, element: &UiElement, action: Action);

    /// Records which application is frontmost. Called before the overlay is
    /// shown, and so before `get_elements`.
    fn save_topmost(&mut self);
}

/// The pointer action to perform on a chosen element.
#[derive(Clone, Copy, Debug, PartialEq, Eq, Structural)]
pub enum Action {
    LeftClick,
    RightClick,
}

/// The action that the text `s` names: a right click for `RightClick`, a left
/// click for everything else.
pub open spec fn action_named(s: Seq<char>) -> Action {
    if s == "RightClick"@ {
        Action::RightClick
    } else {
        Action::LeftClick
    }
}

impl<'a> From<&'a str> for Action {
    fn from(s: &'a str) -> (r: Action) {
        if *s == *"RightClick" {
            Action::RightClick
        } else {
            Action::LeftClick
        }
    }
}

impl<'a> FromSpecImpl<&'a str> for Action {
    open spec fn obeys_from_spec() -> bool {
        true
    }

    open spec fn from_spec(s: &'a str) -> Action {
        action_named(s@)
    }
}

/// A control found by a scan: a snapshot of values, with no reference into the
/// live tree it was read from.
#[derive(Debug)]
pub struct UiElement {
    /// The visible text or description.
    pub name: String,
    /// The semantic role, as the platform spells it.
    pub control: String,
    /// Platform-specific secondary discriminators.
    pub class: String,
    pub item: String,
    /// The label of the owning window or task bar.
    pub parent: String,
    /// The owning process.
    pub pid: i32,
    /// Top-left corner, in screen coordinates.
    pub x: i32,
    pub y: i32,
    pub width: i32,
    pub height: i32,
    /// How far to shift the drawn hint; plays no part in matching.
    pub x_offset: i32,
    pub y_offset: i32,
}

/// The mathematical value of a [`UiElement`].
pub ghost struct ElementView {
    pub name: Seq<char>,
    pub control: Seq<char>,
    pub class: Seq<char>,
    pub item: Seq<char>,
    pub parent: Seq<char>,
    pub pid: int,
    pub x: int,
    pub y: int,
    pub width: int,
    pub height: int,
    pub x_offset: int,
    pub y_offset: int,
}

impl View for UiElement {
    type V = ElementView;

    open spec fn view(&self) -> ElementView {
        ElementView {
            name: self.name@,
            control: self.control@,
            class: self.class@,
            item: self.item@,
            parent: self.parent@,
            pid: self.pid as int,
            x: self.x as int,
            y: self.y as int,
            width: self.width as int,
            height: self.height as int,
            x_offset: self.x_offset as int,
            y_offset: self.y_offset as int,
        }
    }
}

impl Clone for UiElement {
    fn clone(&self) -> (r: UiElement)
        ensures
            r == *self,
    {
        UiElement {
            name: self.name.clone(),
            control: self.control.clone(),
            class: self.class.clone(),
            item: self.item.clone(),
            parent: self.parent.clone(),
            pid: self.pid,
            x: self.x,
            y: self.y,
            width: self.width,
            height: self.height,
            x_offset: self.x_offset,
            y_offset: self.y_offset,
        }
    }
}

/// Whether two elements show the same control: same text, same role, same
/// rectangle.
pub open spec fn same_control(a: ElementView, b: ElementView) -> bool {
    a.name == b.name && a.control == b.control && a.x == b.x && a.y == b.y && a.width == b.width
        && a.height == b.height
}

impl PartialEq for UiElement {
    fn eq(&self, other: &UiElement) -> (r: bool) {
        self.name == other.name && self.control == other.control && self.x == other.x && self.y
            == other.y && self.width == other.width && self.height == other.height
    }
}

impl PartialEqSpecImpl for UiElement {
    open spec fn obeys_eq_spec() -> bool {
        true
    }

    open spec fn eq_spec(&self, other: &UiElement) -> bool {
        same_control(self@, other@)
    }
}

/// An element as part of the window, or the bar, named `parent`.
pub open spec fn owned_by(e: ElementView, parent: Seq<char>) -> ElementView {
    ElementView { parent, ..e }
}

/// The views of a list of elements, in order.
pub open spec fn element_views(elements: Seq<UiElement>) -> Seq<ElementView> {
    Seq::new(elements.len(), |i: int| elements[i]@)
}

} // verus!
