//! The macOS back end's decisions: which accessibility nodes become elements,
//! how a node's text and geometry are read, what the visitors of a tree walk
//! collect, and where a chosen element is clicked.
//!
//! The live tree belongs to the operating system. What is decided here is
//! decided on [`AxNode`], a snapshot of the attributes of one node.

use vstd::prelude::*;
use vstd::std_specs::convert::FromSpecImpl;
use crate::geometry::{half, in_bounds, pair_or_origin, read_pair, within};
use crate::invoke::{click_on, resolve, resolved, same_target, Click};
use crate::traits::{element_views, owned_by, Action, ElementView, UiElement};

verus! {

/// The attributes of one accessibility node, as the node answered them. An
/// attribute that the node did not answer is empty, or `None`.
#[derive(Debug)]
pub struct AxNode {
    /// `AXRole`.
    pub role: String,
    /// `AXDescription`.
    pub description: String,
    /// `AXTitle`.
    pub title: String,
    /// `AXValue`, where it is text.
    pub value: String,
    /// `AXPosition`, as the platform prints it.
    pub position: Option<String>,
    /// `AXSize`, as the platform prints it.
    pub size: Option<String>,
    /// The names of the actions that the node offers.
    pub actions: Option<Vec<String>>,
    /// How many visible children the node reports.
    pub visible_children: Option<usize>,
}

/// The mathematical value of an [`AxNode`].
pub ghost struct AxNodeView {
    pub role: Seq<char>,
    pub description: Seq<char>,
    pub title: Seq<char>,
    pub value: Seq<char>,
    pub position: Option<Seq<char>>,
    pub size: Option<Seq<char>>,
    pub actions: Option<Seq<Seq<char>>>,
    pub visible_children: Option<nat>,
}

impl View for AxNode {
    type V = AxNodeView;

    open spec fn view(&self) -> AxNodeView {
        AxNodeView {
            role: self.role@,
            description: self.description@,
            title: self.title@,
            value: self.value@,
            position: match self.position {
                Some(p) => Some(p@),
                None => None,
            },
            size: match self.size {
                Some(s) => Some(s@),
                None => None,
            },
            actions: match self.actions {
                Some(a) => Some(Seq::new(a@.len(), |i: int| a@[i]@)),
                None => None,
            },
            visible_children: match self.visible_children {
                Some(n) => Some(n as nat),
                None => None,
            },
        }
    }
}

/// The frontmost application and the rectangle of its window.
#[derive(Debug)]
pub struct Parent {
    pub name: String,
    pub pid: i32,
    pub x: i32,
    pub y: i32,
    pub width: i32,
    pub height: i32,
}

impl Clone for Parent {
    fn clone(&self) -> (r: Parent)
        ensures
            r == *self,
    {
        Parent {
            name: self.name.clone(),
            pid: self.pid,
            x: self.x,
            y: self.y,
            width: self.width,
            height: self.height,
        }
    }
}

// ---------------------------------------------------------------------------
// Reading a node.

/// The role of a node.
pub fn get_role(element: &AxNode) -> (r: String)
    ensures
        r@ == element@.role,
{
    element.role.clone()
}

/// Whether a role's value is its text: text fields and static text.
pub open spec fn text_role(role: Seq<char>) -> bool {
    role == "AXTextField"@ || role == "AXStaticText"@
}

/// The display text of a node: its description; failing that its title;
/// failing that, for a text role, its value; else nothing.
pub open spec fn display_name(n: AxNodeView) -> Seq<char> {
    if n.description.len() > 0 {
        n.description
    } else if n.title.len() > 0 {
        n.title
    } else if text_role(n.role) {
        n.value
    } else {
        Seq::empty()
    }
}

pub fn get_name(element: &AxNode) -> (r: String)
    ensures
        r@ == display_name(element@),
{
    if !element.description.as_str().is_empty() {
        return element.description.clone();
    }
    if !element.title.as_str().is_empty() {
        return element.title.clone();
    }
    let role = element.role.as_str();
    if *role == *"AXTextField" || *role == *"AXStaticText" {
        if !element.value.as_str().is_empty() {
            return element.value.clone();
        }
    }
    String::new()
}

/// The position that a printed `AXPosition` holds.
pub fn to_pos(text: &str) -> (r: (i32, i32))
    ensures
        (r.0 as int, r.1 as int) == pair_or_origin(text@, 'x', 'y'),
{
    read_pair(text, 'x', 'y')
}

/// The size that a printed `AXSize` holds.
pub fn to_size(text: &str) -> (r: (i32, i32))
    ensures
        (r.0 as int, r.1 as int) == pair_or_origin(text@, 'w', 'h'),
{
    read_pair(text, 'w', 'h')
}

/// The position of a node: `(0, 0)` where it has none that can be read.
pub open spec fn position_of(n: AxNodeView) -> (int, int) {
    match n.position {
        Some(text) => pair_or_origin(text, 'x', 'y'),
        None => (0, 0),
    }
}

/// The size of a node: `(0, 0)` where it has none that can be read.
pub open spec fn size_of(n: AxNodeView) -> (int, int) {
    match n.size {
        Some(text) => pair_or_origin(text, 'w', 'h'),
        None => (0, 0),
    }
}

pub fn get_pos(element: &AxNode) -> (r: (i32, i32))
    ensures
        (r.0 as int, r.1 as int) == position_of(element@),
{
    match &element.position {
        Some(text) => to_pos(text.as_str()),
        None => (0, 0),
    }
}

pub fn get_size(element: &AxNode) -> (r: (i32, i32))
    ensures
        (r.0 as int, r.1 as int) == size_of(element@),
{
    match &element.size {
        Some(text) => to_size(text.as_str()),
        None => (0, 0),
    }
}

/// The element with the given text, role and position, and with the size of
/// `n`; it belongs to no process and no window yet, and is drawn unshifted.
pub open spec fn element_of(
    n: AxNodeView,
    name: Seq<char>,
    role: Seq<char>,
    x: int,
    y: int,
) -> ElementView {
    ElementView {
        name,
        control: role,
        class: Seq::empty(),
        item: Seq::empty(),
        parent: Seq::empty(),
        pid: 0,
        x,
        y,
        width: size_of(n).0,
        height: size_of(n).1,
        x_offset: 0,
        y_offset: 0,
    }
}

pub fn into_element(element: &AxNode, name: String, role: String, posx: i32, posy: i32) -> (r:
    UiElement)
    ensures
        r@ == element_of(element@, name@, role@, posx as int, posy as int),
{
    let size = get_size(element);
    UiElement {
        name,
        control: role,
        class: String::new(),
        item: String::new(),
        parent: String::new(),
        pid: 0,
        x: posx,
        y: posy,
        width: size.0,
        height: size.1,
        x_offset: 0,
        y_offset: 0,
    }
}

/// A node as an element, whatever the node is: its role, its display text and
/// its geometry.
pub open spec fn snapshot(n: AxNodeView) -> ElementView {
    element_of(n, display_name(n), n.role, position_of(n).0, position_of(n).1)
}

impl<'a> From<&'a AxNode> for UiElement {
    fn from(element: &'a AxNode) -> (r: UiElement)
        ensures
            r@ == snapshot(element@),
    {
        let control = get_role(element);
        let name = get_name(element);
        let pos = get_pos(element);
        into_element(element, name, control, pos.0, pos.1)
    }
}

/// The conversion is stated by the `ensures` of `from`, over views: two
/// strings with the same characters are not the same `String` to the verifier.
impl<'a> FromSpecImpl<&'a AxNode> for UiElement {
    open spec fn obeys_from_spec() -> bool {
        false
    }

    open spec fn from_spec(element: &'a AxNode) -> UiElement {
        arbitrary()
    }
}

// ---------------------------------------------------------------------------
// The filter.

/// Whether a role is a container of other controls, or a whole window or
/// application: such a node gets no hint of its own.
pub open spec fn structural_role(role: Seq<char>) -> bool {
    ||| role == "AXApplication"@
    ||| role == "AXWindow"@
    ||| role == "AXWebArea"@
    ||| role == "AXOutline"@
    ||| role == "AXGroup"@
    ||| role == "AXRow"@
    ||| role == "AXStaticText"@
    ||| role == "AXToolbar"@
}

fn is_structural(role: &str) -> (r: bool)
    ensures
        r == structural_role(role@),
{
    *role == *"AXApplication" || *role == *"AXWindow" || *role == *"AXWebArea" || *role
        == *"AXOutline" || *role == *"AXGroup" || *role == *"AXRow" || *role == *"AXStaticText"
        || *role == *"AXToolbar"
}

/// Whether a list of action names holds one that activates the node.
pub open spec fn offers_activation(actions: Seq<Seq<char>>) -> bool {
    exists|i: int|
        0 <= i < actions.len() && (#[trigger] actions[i] == "AXPress"@ || actions[i]
            == "AXShowMenu"@)
}

/// Whether the node can be activated, as far as it says: a node that names
/// its actions must name a press or a show-menu among them.
pub open spec fn activatable(n: AxNodeView) -> bool {
    match n.actions {
        Some(actions) => offers_activation(actions),
        None => true,
    }
}

fn can_activate(element: &AxNode) -> (r: bool)
    ensures
        r == activatable(element@),
{
    match &element.actions {
        None => true,
        Some(actions) => {
            let mut i: usize = 0;
            while i < actions.len()
                invariant
                    i <= actions.len(),
                    element.actions == Some(*actions),
                    forall|k: int|
                        0 <= k < i ==> !(#[trigger] actions@[k]@ == "AXPress"@ || actions@[k]@
                            == "AXShowMenu"@),
                decreases actions.len() - i,
            {
                let a = actions[i].as_str();
                if *a == *"AXPress" || *a == *"AXShowMenu" {
                    proof {
                        let views = element@.actions->0;
                        assert(views[i as int] == actions@[i as int]@);
                    }
                    return true;
                }
                i += 1;
            }
            proof {
                let views = element@.actions->0;
                assert forall|k: int| 0 <= k < views.len() implies !(#[trigger] views[k]
                    == "AXPress"@ || views[k] == "AXShowMenu"@) by {
                    assert(views[k] == actions@[k]@);
                }
            }
            false
        },
    }
}

/// Whether a scan of the window with corner `(x, y)` and the given extent
/// takes a node, given the node's role, its display text, whether it can be
/// activated, and its position.
///
/// A node is taken when its role is not structural, its display text is not
/// empty, it can be activated, and its position lies in the window. An item of
/// the menu bar lies outside every window and is taken wherever it is.
pub open spec fn wanted(
    role: Seq<char>,
    name: Seq<char>,
    activatable: bool,
    px: int,
    py: int,
    x: int,
    y: int,
    width: int,
    height: int,
) -> bool {
    &&& !structural_role(role)
    &&& name.len() > 0
    &&& activatable
    &&& role == "AXMenuBarItem"@ || within(px, py, x, y, width, height)
}

pub fn is_wanted(
    role: &str,
    name: &str,
    activatable: bool,
    px: i32,
    py: i32,
    x: i32,
    y: i32,
    width: i32,
    height: i32,
) -> (r: bool)
    ensures
        r == wanted(
            role@,
            name@,
            activatable,
            px as int,
            py as int,
            x as int,
            y as int,
            width as int,
            height as int,
        ),
{
    !is_structural(role) && !name.is_empty() && activatable && (*role == *"AXMenuBarItem"
        || in_bounds(px, py, x, y, width, height))
}

/// What a node contributes to a scan of the window with corner `(x, y)` and
/// the given extent: the node as an element where the node is wanted, nothing
/// where it is not.
pub open spec fn included(n: AxNodeView, x: int, y: int, width: int, height: int) -> Option<
    ElementView,
> {
    if wanted(
        n.role,
        display_name(n),
        activatable(n),
        position_of(n).0,
        position_of(n).1,
        x,
        y,
        width,
        height,
    ) {
        Some(snapshot(n))
    } else {
        None
    }
}

pub fn must_include(element: &AxNode, x: i32, y: i32, width: i32, height: i32) -> (r: Option<
    UiElement,
>)
    ensures
        match included(element@, x as int, y as int, width as int, height as int) {
            Some(e) => r matches Some(found) && found@ == e,
            None => r is None,
        },
{
    let role = get_role(element);
    let name = get_name(element);
    let (posx, posy) = get_pos(element);
    if is_wanted(
        role.as_str(),
        name.as_str(),
        can_activate(element),
        posx,
        posy,
        x,
        y,
        width,
        height,
    ) {
        Some(into_element(element, name, role, posx, posy))
    } else {
        None
    }
}

/// Whether a walk goes on below a node: it does unless the node reports that
/// it has no visible child.
pub open spec fn descends(n: AxNodeView) -> bool {
    match n.visible_children {
        Some(count) => count > 0,
        None => true,
    }
}

pub fn must_descend(element: &AxNode) -> (r: bool)
    ensures
        r == descends(element@),
{
    match element.visible_children {
        Some(count) => count > 0,
        None => true,
    }
}

/// What a visitor answers on entering a node.
#[derive(Clone, Copy, Debug, PartialEq, Eq, Structural)]
pub enum Flow {
    /// Go on into the node's children.
    Continue,
    /// Leave the node's children out.
    SkipSubtree,
}

/// How far down the hint of a menu-bar item is drawn, to clear the bar.
pub const MENU_BAR_SHIFT: i32 = 20;

/// An element as a scan hands it out: the hint of a menu-bar item is drawn
/// lower, every other one in place.
pub open spec fn placed(e: ElementView) -> ElementView {
    if e.control == "AXMenuBarItem"@ {
        ElementView { y_offset: MENU_BAR_SHIFT as int, ..e }
    } else {
        e
    }
}

/// The elements collected so far, with what entering the node `n` adds to them
/// in a scan of the window `root`.
pub open spec fn collected_after(before: Seq<ElementView>, n: AxNodeView, root: Parent) -> Seq<
    ElementView,
> {
    match included(n, root.x as int, root.y as int, root.width as int, root.height as int) {
        Some(e) => before.push(placed(e)),
        None => before,
    }
}

/// What a walk does below the node `n`.
pub open spec fn flow_at(n: AxNodeView) -> Flow {
    if descends(n) {
        Flow::Continue
    } else {
        Flow::SkipSubtree
    }
}

/// Whether an element is one that a scan of a window hands out: it has a
/// display text, and its role is not that of a container.
pub open spec fn hintable(e: ElementView) -> bool {
    !structural_role(e.control) && e.name.len() > 0
}

/// The visitor of a scan: it collects the elements of the frontmost window.
/// Whatever it is made to enter, it never holds a container or an element
/// without display text.
pub struct MyVisitor {
    level: usize,
    elements: Vec<UiElement>,
    root: Parent,
}

impl MyVisitor {
    #[verifier::type_invariant]
    spec fn holds_hintable(self) -> bool {
        forall|i: int| 0 <= i < self.elements@.len() ==> hintable(#[trigger] self.elements@[i]@)
    }

    /// How many nodes have been entered and not yet left.
    pub closed spec fn level(&self) -> nat {
        self.level as nat
    }

    /// The elements collected so far, in the order of the walk.
    pub closed spec fn collected(&self) -> Seq<ElementView> {
        element_views(self.elements@)
    }

    /// The window that is scanned.
    pub closed spec fn root(&self) -> Parent {
        self.root
    }

    pub fn new(root: Parent) -> (r: Self)
        ensures
            r.level() == 0,
            r.collected() == Seq::<ElementView>::empty(),
            r.root() == root,
    {
        let r = Self { level: 0, elements: Vec::new(), root };
        assert(element_views(r.elements@) =~= Seq::<ElementView>::empty());
        r
    }

    /// Enters a node: collects it where the filter takes it, and says whether
    /// the walk goes on below it.
    pub fn enter_element(&mut self, element: &AxNode) -> (flow: Flow)
        requires
            old(self).level() < usize::MAX,
        ensures
            final(self).level() == old(self).level() + 1,
            final(self).root() == old(self).root(),
            final(self).collected() == collected_after(
                old(self).collected(),
                element@,
                old(self).root(),
            ),
            flow == flow_at(element@),
    {
        proof {
            use_type_invariant(&*self);
        }
        self.level = self.level + 1;
        let ghost before = element_views(self.elements@);
        match must_include(element, self.root.x, self.root.y, self.root.width, self.root.height) {
            Some(found) => {
                let mut uie = found;
                if *uie.control.as_str() == *"AXMenuBarItem" {
                    uie.y_offset = MENU_BAR_SHIFT;
                }
                // The list is taken out for the push and put back, so that the
                // visitor holds nothing unfit in between.
                let mut held: Vec<UiElement> = Vec::new();
                std::mem::swap(&mut self.elements, &mut held);
                held.push(uie);
                std::mem::swap(&mut self.elements, &mut held);
                assert(element_views(self.elements@) =~= before.push(placed(found@)));
            },
            None => {},
        }
        if must_descend(element) {
            Flow::Continue
        } else {
            Flow::SkipSubtree
        }
    }

    /// Leaves a node that was entered. Nothing of the node is read for that.
    pub fn exit_element(&mut self)
        requires
            old(self).level() > 0,
        ensures
            final(self).level() == old(self).level() - 1,
            final(self).root() == old(self).root(),
            final(self).collected() == old(self).collected(),
    {
        proof {
            use_type_invariant(&*self);
        }
        self.level = self.level - 1;
    }

    /// The number of nodes entered and not yet left.
    pub fn depth(&self) -> (r: usize)
        ensures
            r == self.level(),
    {
        self.level
    }

    /// Hands out what was collected: elements with display text, none of
    /// them a container.
    pub fn into_elements(self) -> (r: Vec<UiElement>)
        ensures
            element_views(r@) == self.collected(),
            forall|i: int| 0 <= i < r@.len() ==> hintable(#[trigger] r@[i]@),
    {
        proof {
            use_type_invariant(&self);
        }
        self.elements
    }
}

/// The visitor of the dock: it collects every node it enters.
pub struct DockVisitor {
    elements: Vec<UiElement>,
}

impl DockVisitor {
    /// The elements collected so far, in the order of the walk.
    pub closed spec fn collected(&self) -> Seq<ElementView> {
        element_views(self.elements@)
    }

    pub fn new() -> (r: Self)
        ensures
            r.collected() == Seq::<ElementView>::empty(),
    {
        let r = Self { elements: Vec::new() };
        assert(element_views(r.elements@) =~= Seq::<ElementView>::empty());
        r
    }

    /// Enters a node: collects it as it is, and goes on below it.
    pub fn enter_element(&mut self, element: &AxNode) -> (flow: Flow)
        ensures
            final(self).collected() == old(self).collected().push(snapshot(element@)),
            flow == Flow::Continue,
    {
        let ghost before = element_views(self.elements@);
        let uie = UiElement::from(element);
        self.elements.push(uie);
        assert(element_views(self.elements@) =~= before.push(snapshot(element@)));
        Flow::Continue
    }

    /// Leaves a node that was entered. Nothing of the node is read for that.
    pub fn exit_element(&mut self)
        ensures
            final(self).collected() == old(self).collected(),
    {
    }

    /// Hands out what was collected.
    pub fn into_elements(self) -> (r: Vec<UiElement>)
        ensures
            element_views(r@) == self.collected(),
    {
        self.elements
    }
}

/// The macOS back end: it remembers which application was frontmost.
pub struct Osx {
    topmost: Option<Parent>,
}

impl Osx {
    /// The application that was frontmost when last asked, if any was.
    pub closed spec fn topmost(&self) -> Option<Parent> {
        self.topmost
    }

    pub fn new() -> (r: Self)
        ensures
            r.topmost() is None,
    {
        Self { topmost: None }
    }

    /// Records the frontmost application, or that there is none.
    pub fn save_topmost(&mut self, window: Option<Parent>)
        ensures
            final(self).topmost() == window,
    {
        self.topmost = window;
    }

    /// The process whose tree a scan walks.
    pub fn target(&self) -> (r: Option<i32>)
        ensures
            r == match self.topmost() {
                Some(p) => Some(p.pid),
                None => None,
            },
    {
        match &self.topmost {
            Some(p) => Some(p.pid),
            None => None,
        }
    }

    /// The visitor for a scan of the frontmost window; none where no
    /// application is frontmost.
    pub fn visitor(&self) -> (r: Option<MyVisitor>)
        ensures
            match self.topmost() {
                Some(p) => r matches Some(v) && v.level() == 0 && v.collected() == Seq::<
                    ElementView,
                >::empty() && v.root() == p,
                None => r is None,
            },
    {
        match &self.topmost {
            Some(p) => Some(MyVisitor::new(p.clone())),
            None => None,
        }
    }

    /// The result of a scan: what the visitor collected, each element marked
    /// as part of the frontmost application. Nothing where no application is
    /// frontmost. However deep the walk went, no element of the result is a
    /// container, and none is without display text.
    pub fn get_elements(&self, visitor: MyVisitor) -> (r: Vec<UiElement>)
        ensures
            element_views(r@) == match self.topmost() {
                Some(p) => Seq::new(
                    visitor.collected().len(),
                    |i: int| owned_by(visitor.collected()[i], p.name@),
                ),
                None => Seq::empty(),
            },
            forall|i: int| 0 <= i < r@.len() ==> hintable(#[trigger] r@[i]@),
    {
        let ghost collected = visitor.collected();
        let mut elements = visitor.into_elements();
        match &self.topmost {
            None => {
                let out: Vec<UiElement> = Vec::new();
                assert(element_views(out@) =~= Seq::<ElementView>::empty());
                out
            },
            Some(p) => {
                let n: usize = elements.len();
                let mut i: usize = 0;
                while i < n
                    invariant
                        i <= n,
                        n == elements@.len(),
                        n == collected.len(),
                        forall|k: int|
                            0 <= k < i ==> #[trigger] elements@[k]@ == owned_by(
                                collected[k],
                                p.name@,
                            ),
                        forall|k: int| i <= k < n ==> #[trigger] elements@[k]@ == collected[k],
                        forall|k: int| 0 <= k < n ==> hintable(#[trigger] elements@[k]@),
                    decreases n - i,
                {
                    assert(elements@[i as int]@ == collected[i as int]);
                    let mut e = elements[i].clone();
                    e.parent = p.name.clone();
                    elements.set(i, e);
                    i += 1;
                }
                assert(element_views(elements@) =~= Seq::new(
                    collected.len(),
                    |i: int| owned_by(collected[i], p.name@),
                ));
                elements
            },
        }
    }

    /// What invoking `element` comes to, when the nodes of the frontmost
    /// application are `live`: the click in the middle of the element where
    /// one of the nodes, read now, is still the element; nothing else.
    pub fn invoke(&self, element: &UiElement, action: Action, live: &[AxNode]) -> (r: Option<
        Click,
    >)
        ensures
            r == match self.topmost() {
                Some(_) => resolved(snapshots(node_views(live@)), element@, action),
                None => None,
            },
    {
        if self.topmost.is_none() {
            return None;
        }
        let ghost nodes = node_views(live@);
        let mut scan: Vec<UiElement> = Vec::new();
        let mut i: usize = 0;
        while i < live.len()
            invariant
                i <= live@.len(),
                nodes == node_views(live@),
                scan@.len() == i,
                forall|k: int| 0 <= k < i ==> #[trigger] scan@[k]@ == snapshot(nodes[k]),
            decreases live@.len() - i,
        {
            assert(nodes[i as int] == live@[i as int]@);
            scan.push(UiElement::from(&live[i]));
            i += 1;
        }
        assert(element_views(scan@) =~= snapshots(nodes));
        resolve(scan.as_slice(), element, action)
    }
}

/// The views of a list of nodes, in order.
pub open spec fn node_views(nodes: Seq<AxNode>) -> Seq<AxNodeView> {
    Seq::new(nodes.len(), |i: int| nodes[i]@)
}

/// Each node of a list as an element, in order.
pub open spec fn snapshots(nodes: Seq<AxNodeView>) -> Seq<ElementView> {
    Seq::new(nodes.len(), |i: int| snapshot(nodes[i]))
}

/// A container never gets a hint, and neither does a node without display
/// text, however deep it lies: entering it collects nothing. The walk still
/// goes on below it, unless it reports that it has no visible child.
pub proof fn lemma_container_left_out(before: Seq<ElementView>, n: AxNodeView, root: Parent)
    requires
        structural_role(n.role) || display_name(n).len() == 0,
    ensures
        collected_after(before, n, root) == before,
        descends(n) ==> flow_at(n) == Flow::Continue,
{
}

/// A control inside the window that is no container, has display text and can
/// be activated is collected when it is entered, under its display text and at
/// its position.
pub proof fn lemma_control_collected(before: Seq<ElementView>, n: AxNodeView, root: Parent)
    requires
        !structural_role(n.role),
        display_name(n).len() > 0,
        activatable(n),
        within(
            position_of(n).0,
            position_of(n).1,
            root.x as int,
            root.y as int,
            root.width as int,
            root.height as int,
        ),
    ensures
        collected_after(before, n, root) == before.push(placed(snapshot(n))),
{
}

/// While the tree is as it was scanned, invoking an element of the scan
/// clicks the middle of its rectangle: a node that the scan took is found
/// again under the element that the scan handed out for it, whatever window
/// the element was marked with and wherever its hint is drawn.
pub proof fn lemma_scanned_is_found(
    live: Seq<AxNodeView>,
    i: int,
    root: Parent,
    parent: Seq<char>,
    action: Action,
)
    requires
        0 <= i < live.len(),
        included(live[i], root.x as int, root.y as int, root.width as int, root.height as int)
            is Some,
    ensures
        ({
            let e = owned_by(placed(snapshot(live[i])), parent);
            resolved(snapshots(live), e, action) == Some(click_on(e, action))
                && click_on(e, action).x == e.x + half(e.width) && click_on(e, action).y == e.y
                + half(e.height)
        }),
{
    let e = owned_by(placed(snapshot(live[i])), parent);
    assert(same_target(snapshots(live)[i], e));
}

} // verus!
