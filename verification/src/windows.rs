//! The Windows back end's decisions: which automation elements of the
//! frontmost window and of the task bar become elements, and which live
//! element a chosen one is.
//!
//! What is decided here is decided on [`WinNode`], a snapshot of the
//! properties of one automation element.

use vstd::prelude::*;
use vstd::std_specs::convert::FromSpecImpl;
use crate::geometry::midpoint;
use crate::invoke::{click_on, Click};
use crate::traits::{element_views, owned_by, same_control, Action, ElementView, UiElement};

verus! {

/// The properties of one automation element, as the element answered them. A
/// property that it did not answer is `None`.
#[derive(Debug)]
pub struct WinNode {
    pub name: Option<String>,
    /// The name of the control type, such as `Button`.
    pub control: Option<String>,
    pub pid: Option<i32>,
    /// The bounding rectangle: left, top, width, height.
    pub rect: Option<(i32, i32, i32, i32)>,
    pub offscreen: Option<bool>,
}

/// The mathematical value of a [`WinNode`].
pub ghost struct WinNodeView {
    pub name: Option<Seq<char>>,
    pub control: Option<Seq<char>>,
    pub pid: Option<int>,
    pub rect: Option<(int, int, int, int)>,
    pub offscreen: Option<bool>,
}

impl View for WinNode {
    type V = WinNodeView;

    open spec fn view(&self) -> WinNodeView {
        WinNodeView {
            name: match self.name {
                Some(s) => Some(s@),
                None => None,
            },
            control: match self.control {
                Some(s) => Some(s@),
                None => None,
            },
            pid: match self.pid {
                Some(p) => Some(p as int),
                None => None,
            },
            rect: match self.rect {
                Some(r) => Some((r.0 as int, r.1 as int, r.2 as int, r.3 as int)),
                None => None,
            },
            offscreen: self.offscreen,
        }
    }
}

/// The text of a property, empty where the element did not answer.
pub open spec fn text_or_empty(t: Option<Seq<char>>) -> Seq<char> {
    match t {
        Some(s) => s,
        None => Seq::empty(),
    }
}

/// An automation element as an element: a property that was not answered
/// reads as empty, or as zero.
pub open spec fn snapshot(n: WinNodeView) -> ElementView {
    let rect = match n.rect {
        Some(r) => r,
        None => (0, 0, 0, 0),
    };
    ElementView {
        name: text_or_empty(n.name),
        control: text_or_empty(n.control),
        class: Seq::empty(),
        item: Seq::empty(),
        parent: Seq::empty(),
        pid: match n.pid {
            Some(p) => p,
            None => 0,
        },
        x: rect.0,
        y: rect.1,
        width: rect.2,
        height: rect.3,
        x_offset: 0,
        y_offset: 0,
    }
}

fn text_of(t: &Option<String>) -> (r: String)
    ensures
        r@ == text_or_empty(
            match *t {
                Some(s) => Some(s@),
                None => None,
            },
        ),
{
    match t {
        Some(s) => s.clone(),
        None => String::new(),
    }
}

impl<'a> From<&'a WinNode> for UiElement {
    fn from(element: &'a WinNode) -> (r: UiElement)
        ensures
            r@ == snapshot(element@),
    {
        let rect = match element.rect {
            Some(r) => r,
            None => (0, 0, 0, 0),
        };
        UiElement {
            name: text_of(&element.name),
            control: text_of(&element.control),
            class: String::new(),
            item: String::new(),
            parent: String::new(),
            pid: match element.pid {
                Some(p) => p,
                None => 0,
            },
            x: rect.0,
            y: rect.1,
            width: rect.2,
            height: rect.3,
            x_offset: 0,
            y_offset: 0,
        }
    }
}

/// The conversion is stated by the `ensures` of `from`, over views: two
/// strings with the same characters are not the same `String` to the verifier.
impl<'a> FromSpecImpl<&'a WinNode> for UiElement {
    open spec fn obeys_from_spec() -> bool {
        false
    }

    open spec fn from_spec(element: &'a WinNode) -> UiElement {
        arbitrary()
    }
}

/// An element did not answer a property that the filter needs.
#[derive(Clone, Copy, Debug, PartialEq, Eq, Structural)]
pub enum Unanswered {
    Offscreen,
    ControlType,
}

/// Whether a control type is one that a user activates.
pub open spec fn actionable_control(control: Seq<char>) -> bool {
    ||| control == "Button"@
    ||| control == "ListItem"@
    ||| control == "TreeItem"@
    ||| control == "Hyperlink"@
    ||| control == "ComboBox"@
    ||| control == "RadioButton"@
    ||| control == "CheckBox"@
    ||| control == "TabItem"@
    ||| control == "MenuItem"@
}

fn is_actionable(control: &str) -> (r: bool)
    ensures
        r == actionable_control(control@),
{
    *control == *"Button" || *control == *"ListItem" || *control == *"TreeItem" || *control
        == *"Hyperlink" || *control == *"ComboBox" || *control == *"RadioButton" || *control
        == *"CheckBox" || *control == *"TabItem" || *control == *"MenuItem"
}

/// Why an element is left out, or nothing where it is taken.
pub open spec fn verdict(n: WinNodeView) -> Result<(bool, Seq<char>), Unanswered> {
    match n.offscreen {
        None => Err(Unanswered::Offscreen),
        Some(true) => Ok((false, "Offscreen"@)),
        Some(false) => match n.control {
            None => Err(Unanswered::ControlType),
            Some(control) => if actionable_control(control) {
                Ok((true, Seq::empty()))
            } else {
                Ok((false, "unallowed control"@))
            },
        },
    }
}

/// Whether the filter takes an element.
pub open spec fn included(n: WinNodeView) -> bool {
    verdict(n) matches Ok(v) && v.0
}

/// Whether an element is taken, with the reason where it is not. An element
/// is taken when it is on screen and its control type is one that a user
/// activates.
pub fn must_include(element: &WinNode) -> (r: Result<(bool, String), Unanswered>)
    ensures
        match verdict(element@) {
            Ok(v) => r matches Ok(found) && found.0 == v.0 && found.1@ == v.1,
            Err(e) => r == Err::<(bool, String), Unanswered>(e),
        },
{
    match element.offscreen {
        None => {
            return Err(Unanswered::Offscreen);
        },
        Some(true) => {
            return Ok((false, "Offscreen".to_owned()));
        },
        Some(false) => {},
    }
    match &element.control {
        None => Err(Unanswered::ControlType),
        Some(control) => {
            if is_actionable(control.as_str()) {
                Ok((true, String::new()))
            } else {
                Ok((false, "unallowed control".to_owned()))
            }
        },
    }
}

/// The elements among the first `n` of `found` that the filter takes, in order.
pub open spec fn taken(found: Seq<WinNodeView>, n: int) -> Seq<ElementView>
    decreases n,
{
    if n <= 0 {
        Seq::empty()
    } else if included(found[n - 1]) {
        taken(found, n - 1).push(snapshot(found[n - 1]))
    } else {
        taken(found, n - 1)
    }
}

/// The views of a list of automation elements, in order.
pub open spec fn node_views(nodes: Seq<WinNode>) -> Seq<WinNodeView> {
    Seq::new(nodes.len(), |i: int| nodes[i]@)
}

/// Of the automation elements found below a root, those that the filter
/// takes, as elements and in the order in which they were found.
pub fn get_elements_from_root(found: &[WinNode]) -> (r: Vec<UiElement>)
    ensures
        element_views(r@) == taken(node_views(found@), found@.len() as int),
{
    let ghost views = node_views(found@);
    let mut out: Vec<UiElement> = Vec::new();
    let mut i: usize = 0;
    assert(element_views(out@) =~= taken(views, 0));
    while i < found.len()
        invariant
            i <= found@.len(),
            views == node_views(found@),
            element_views(out@) == taken(views, i as int),
        decreases found@.len() - i,
    {
        let ghost before = element_views(out@);
        assert(views[i as int] == found@[i as int]@);
        let take = match must_include(&found[i]) {
            Ok(v) => v.0,
            Err(_) => false,
        };
        if take {
            out.push(UiElement::from(&found[i]));
            assert(element_views(out@) =~= before.push(snapshot(views[i as int])));
        }
        i += 1;
    }
    out
}

/// The frontmost application.
#[derive(Debug)]
pub struct Parent {
    pub pid: i32,
    pub name: String,
}

/// The test for an element with a display text.
pub open spec fn named_pred() -> spec_fn(ElementView) -> bool {
    |e: ElementView| e.name.len() > 0
}

/// What the automation elements `found` below one root contribute to a scan:
/// those that the filter takes and that have a display text, each marked as
/// part of `parent`.
pub open spec fn part(found: Seq<WinNodeView>, parent: Seq<char>) -> Seq<ElementView> {
    let all = taken(found, found.len() as int);
    Seq::new(all.len(), |i: int| owned_by(all[i], parent)).filter(named_pred())
}

/// A scan: the part of the frontmost window, where an application is
/// frontmost, then the part of the task bar, where it is shown.
pub open spec fn scan(
    topmost: Option<Parent>,
    show_taskbar: bool,
    window: Seq<WinNodeView>,
    taskbar: Seq<WinNodeView>,
) -> Seq<ElementView> {
    let first = match topmost {
        Some(t) => part(window, t.name@),
        None => Seq::empty(),
    };
    let second = if show_taskbar {
        part(taskbar, "taskbar"@)
    } else {
        Seq::empty()
    };
    first + second
}

/// Appends to `out` the part of `found` in a scan.
fn push_part(out: &mut Vec<UiElement>, found: &[WinNode], parent: &str)
    ensures
        element_views(final(out)@) == element_views(old(out)@) + part(node_views(found@), parent@),
{
    let ghost start = element_views(out@);
    let elements = get_elements_from_root(found);
    let ghost all = element_views(elements@);
    let ghost marked = Seq::new(all.len(), |i: int| owned_by(all[i], parent@));
    let mut i: usize = 0;
    assert(marked.take(0).filter(named_pred()) =~= Seq::<ElementView>::empty()) by {
        reveal(Seq::filter);
    }
    assert(element_views(out@) =~= start + marked.take(0).filter(named_pred()));
    while i < elements.len()
        invariant
            i <= elements@.len(),
            all == element_views(elements@),
            marked == Seq::new(all.len(), |i: int| owned_by(all[i], parent@)),
            element_views(out@) == start + marked.take(i as int).filter(named_pred()),
        decreases elements@.len() - i,
    {
        let ghost before = element_views(out@);
        proof {
            marked.take(i as int).lemma_filter_push(marked[i as int], named_pred());
            assert(marked.take(i + 1) =~= marked.take(i as int).push(marked[i as int]));
            assert(all[i as int] == elements@[i as int]@);
        }
        if !elements[i].name.as_str().is_empty() {
            let mut e = elements[i].clone();
            e.parent = parent.to_owned();
            out.push(e);
            assert(element_views(out@) =~= before.push(marked[i as int]));
        }
        i += 1;
    }
    assert(marked.take(marked.len() as int) =~= marked);
}

/// The Windows back end: it remembers which application was frontmost, and
/// whether the task bar is scanned too.
pub struct Windows {
    topmost: Option<Parent>,
    debug: bool,
    show_taskbar: bool,
}

impl Windows {
    /// The application that was frontmost when last asked, if any was.
    pub closed spec fn topmost(&self) -> Option<Parent> {
        self.topmost
    }

    /// Whether the elements left out of a scan are to be reported.
    pub closed spec fn debug(&self) -> bool {
        self.debug
    }

    /// Whether the task bar is part of a scan.
    pub closed spec fn show_taskbar(&self) -> bool {
        self.show_taskbar
    }

    pub fn new(debug: bool, show_taskbar: bool) -> (r: Self)
        ensures
            r.topmost() is None,
            r.debug() == debug,
            r.show_taskbar() == show_taskbar,
    {
        Windows { topmost: None, debug, show_taskbar }
    }

    /// Reading other applications' controls needs no permission here.
    pub fn has_permissions(&self) -> (r: bool)
        ensures
            r,
    {
        true
    }

    /// Records the frontmost application. Where none can be told, the one
    /// recorded before stays.
    pub fn save_topmost(&mut self, window: Option<Parent>)
        ensures
            final(self).topmost() == match window {
                Some(w) => Some(w),
                None => old(self).topmost(),
            },
            final(self).debug() == old(self).debug(),
            final(self).show_taskbar() == old(self).show_taskbar(),
    {
        match window {
            Some(w) => {
                self.topmost = Some(w);
            },
            None => {},
        }
    }

    /// The process whose window a scan reads.
    pub fn target(&self) -> (r: Option<i32>)
        ensures
            r == match self.topmost() {
                Some(p) => Some(p.pid),
                None => None,
            },
    {
        match &self.topmost {
            Some(p) => Some(p.pid),
            None => None,
        }
    }

    /// Whether the task bar is part of a scan.
    pub fn scans_taskbar(&self) -> (r: bool)
        ensures
            r == self.show_taskbar(),
    {
        self.show_taskbar
    }

    /// Whether the elements left out of a scan are to be reported.
    pub fn reports_excluded(&self) -> (r: bool)
        ensures
            r == self.debug(),
    {
        self.debug
    }

    /// One scan, from the automation elements found below the frontmost
    /// window and below the task bar.
    pub fn get_elements(&self, window: &[WinNode], taskbar: &[WinNode]) -> (r: Vec<UiElement>)
        ensures
            element_views(r@) == scan(
                self.topmost(),
                self.show_taskbar(),
                node_views(window@),
                node_views(taskbar@),
            ),
    {
        let mut out: Vec<UiElement> = Vec::new();
        assert(element_views(out@) =~= Seq::<ElementView>::empty());
        match &self.topmost {
            Some(t) => {
                push_part(&mut out, window, t.name.as_str());
            },
            None => {},
        }
        if self.show_taskbar {
            push_part(&mut out, taskbar, "taskbar");
        }
        assert(element_views(out@) =~= scan(
            self.topmost(),
            self.show_taskbar(),
            node_views(window@),
            node_views(taskbar@),
        ));
        out
    }
}

/// The place of the first of `live` that shows the same control as `target`.
pub open spec fn control_place(live: Seq<WinNodeView>, target: ElementView, from: int) -> Option<
    int,
>
    decreases live.len() - from,
{
    if from < 0 || from >= live.len() {
        None
    } else if same_control(snapshot(live[from]), target) {
        Some(from)
    } else {
        control_place(live, target, from + 1)
    }
}

impl Windows {
    /// What invoking `element` comes to, when the automation elements kept
    /// from the scan now read as `live`: the place of the first that still
    /// shows the same control, and the click in the middle of its rectangle;
    /// nothing where there is none.
    pub fn invoke(&self, element: &UiElement, action: Action, live: &[WinNode]) -> (r: Option<
        (usize, Click),
    >)
        ensures
            match r {
                Some((place, click)) => control_place(node_views(live@), element@, 0) == Some(
                    place as int,
                ) && place < live@.len() && click == click_on(element@, action) && click
                    == click_on(snapshot(live@[place as int]@), action),
                None => control_place(node_views(live@), element@, 0) is None,
            },
    {
        let ghost views = node_views(live@);
        let mut i: usize = 0;
        while i < live.len()
            invariant
                i <= live@.len(),
                views == node_views(live@),
                control_place(views, element@, 0) == control_place(views, element@, i as int),
            decreases live@.len() - i,
        {
            let found = UiElement::from(&live[i]);
            assert(views[i as int] == live@[i as int]@);
            if found == *element {
                let click = Click {
                    x: midpoint(found.x, found.width),
                    y: midpoint(found.y, found.height),
                    action,
                };
                return Some((i, click));
            }
            i += 1;
        }
        None
    }
}

/// While the automation elements read as they did in the scan, invoking an
/// element of the scan finds a control again: the first that shows the same
/// text, role and rectangle, which is the element's own or one that cannot be
/// told from it.
pub proof fn lemma_scanned_is_found(live: Seq<WinNodeView>, i: int, parent: Seq<char>)
    requires
        0 <= i < live.len(),
    ensures
        control_place(live, owned_by(snapshot(live[i]), parent), 0) matches Some(place)
            && 0 <= place <= i && same_control(
            snapshot(live[place]),
            snapshot(live[i]),
        ),
{
    lemma_control_place(live, owned_by(snapshot(live[i]), parent), 0, i);
}

proof fn lemma_control_place(live: Seq<WinNodeView>, target: ElementView, from: int, i: int)
    requires
        0 <= from <= i < live.len(),
        same_control(snapshot(live[i]), target),
    ensures
        control_place(live, target, from) matches Some(place) && from <= place <= i
            && same_control(snapshot(live[place]), target),
    decreases i - from,
{
    if !same_control(snapshot(live[from]), target) {
        lemma_control_place(live, target, from + 1, i);
    }
}

} // verus!
