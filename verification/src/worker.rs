//! The worker: the one owner of a scan's elements and hints.
//!
//! Requests reach the worker one at a time. A request for hints replaces the
//! elements and hints of the last scan by those of a new one; typed text is
//! ranked against the hints of the last scan; a chosen hint is looked up among
//! them and its element handed to the back end.

use vstd::prelude::*;
use crate::hints::{
    create_hints, element_names, hint_labels, hint_views, labelled, lemma_hint_labels, Hint,
    HintView,
};
use crate::labels::HintError;
use crate::matching::{do_matching, match_order};
use crate::traits::{element_views, AccessibilityCalls, Action, ElementView, UiElement};

verus! {

/// A request to the worker.
pub enum Message {
    /// The typed text has changed.
    UpdateInput(String),
    /// Scan the frontmost application and label what is found.
    RequestHints,
    /// Perform an action on the element with the given hint.
    Invoke(String, Action),
    /// Note which application is frontmost.
    SaveTopmost,
}

/// What the worker has to tell the user interface after a request.
pub enum Reply {
    /// Nothing.
    Nothing,
    /// The hints to show for the typed text, in order.
    Results(Vec<Hint>),
    /// The hints of a new scan, to be shown over the whole screen.
    Hints(Vec<Hint>),
    /// The scan found more elements than there are labels; nothing is shown.
    Exhausted,
    /// The element at this place of the scan was handed to the back end.
    Invoked(usize),
    /// No element of the last scan has the hint that was asked for.
    NoSuchHint,
}

/// Whether `hints` are the hints of `elements`: one for each, in order, each
/// with the label that is its element's due.
pub open spec fn session(elements: Seq<ElementView>, hints: Seq<HintView>) -> bool {
    let names = Seq::new(elements.len(), |i: int| elements[i].name);
    hint_labels(names) matches Some(labels) && hints == Seq::new(
        elements.len(),
        |i: int| labelled(elements[i], labels[i]),
    )
}

/// The place of the first hint with the label `label`.
pub open spec fn label_place(hints: Seq<HintView>, label: Seq<char>, from: int) -> Option<int>
    decreases hints.len() - from,
{
    if from < 0 || from >= hints.len() {
        None
    } else if hints[from].hint == label {
        Some(from)
    } else {
        label_place(hints, label, from + 1)
    }
}

/// The hints at the places `order`, in that order.
pub open spec fn picked(hints: Seq<HintView>, order: Seq<int>) -> Seq<HintView> {
    Seq::new(order.len(), |k: int| hints[order[k]])
}

/// The elements and hints of the last scan.
pub struct Worker {
    hints: Vec<Hint>,
    elements: Vec<UiElement>,
}

impl Worker {
    #[verifier::type_invariant]
    spec fn consistent(self) -> bool {
        session(element_views(self.elements@), hint_views(self.hints@))
    }

    /// The elements of the last scan.
    pub closed spec fn elements(&self) -> Seq<ElementView> {
        element_views(self.elements@)
    }

    /// The hints of the last scan.
    pub closed spec fn hints(&self) -> Seq<HintView> {
        hint_views(self.hints@)
    }

    /// A worker before the first scan: no elements, no hints.
    pub fn new() -> (r: Worker)
        ensures
            r.elements() == Seq::<ElementView>::empty(),
            r.hints() == Seq::<HintView>::empty(),
    {
        let hints: Vec<Hint> = Vec::new();
        let elements: Vec<UiElement> = Vec::new();
        proof {
            let names = Seq::new(0, |i: int| element_views(elements@)[i].name);
            assert(names =~= Seq::<Seq<char>>::empty());
            assert(crate::hints::all_initials(names) =~= Seq::<Seq<char>>::empty());
            assert(hint_views(hints@) =~= Seq::new(
                0,
                |i: int| labelled(element_views(elements@)[i], Seq::<Seq<char>>::empty()[i]),
            ));
            assert(element_views(elements@) =~= Seq::<ElementView>::empty());
            assert(hint_views(hints@) =~= Seq::<HintView>::empty());
        }
        Worker { hints, elements }
    }

    /// Makes `elements` the scan: labels them, and forgets the scan before.
    /// Where the labels run out, the worker is left with no scan at all.
    pub fn load(&mut self, elements: Vec<UiElement>) -> (r: Result<(), HintError>)
        ensures
            session(final(self).elements(), final(self).hints()),
            match hint_labels(element_names(elements@)) {
                Some(_) => r is Ok && final(self).elements() == element_views(elements@),
                None => r == Err::<(), HintError>(HintError::Exhausted) && final(self).elements()
                    == Seq::<ElementView>::empty(),
            },
    {
        assert(element_names(elements@) =~= Seq::new(
            element_views(elements@).len(),
            |i: int| element_views(elements@)[i].name,
        ));
        match create_hints(elements.as_slice()) {
            Ok(hints) => {
                proof {
                    let labels = hint_labels(element_names(elements@))->0;
                    assert(hint_views(hints@) =~= Seq::new(
                        element_views(elements@).len(),
                        |i: int| labelled(element_views(elements@)[i], labels[i]),
                    ));
                }
                *self = Worker { hints, elements };
                Ok(())
            },
            Err(e) => {
                *self = Worker::new();
                proof {
                    use_type_invariant(&*self);
                }
                Err(e)
            },
        }
    }

    /// The place of the hint with the label `hint`.
    pub fn find(&self, hint: &str) -> (r: Option<usize>)
        ensures
            match r {
                Some(place) => label_place(self.hints(), hint@, 0) == Some(place as int) && place
                    < self.elements().len() && self.hints()[place as int].hint == hint@,
                None => label_place(self.hints(), hint@, 0) is None,
            },
    {
        proof {
            use_type_invariant(self);
        }
        let mut i: usize = 0;
        while i < self.hints.len()
            invariant
                i <= self.hints@.len(),
                self.hints@.len() == self.elements@.len(),
                label_place(self.hints(), hint@, 0) == label_place(self.hints(), hint@, i as int),
            decreases self.hints@.len() - i,
        {
            if *self.hints[i].hint.as_str() == *hint {
                return Some(i);
            }
            i += 1;
        }
        None
    }

    /// The hints to show for the typed text `input`.
    pub fn results(&self, input: String) -> (r: Vec<Hint>)
        ensures
            hint_views(r@) == picked(self.hints(), match_order(self.hints(), input@)),
    {
        let ghost order = match_order(self.hints(), input@);
        let found = do_matching(self.hints.as_slice(), input);
        let mut out: Vec<Hint> = Vec::new();
        let mut k: usize = 0;
        while k < found.len()
            invariant
                k <= found@.len(),
                out@.len() == k,
                forall|j: int| 0 <= j < k ==> #[trigger] out@[j]@ == (*found@[j])@,
            decreases found@.len() - k,
        {
            out.push(found[k].clone());
            k += 1;
        }
        assert(hint_views(out@) =~= picked(self.hints(), order));
        out
    }

    /// The hints of the scan, in order.
    pub fn all_hints(&self) -> (r: Vec<Hint>)
        ensures
            hint_views(r@) == self.hints(),
    {
        let mut out: Vec<Hint> = Vec::new();
        let mut k: usize = 0;
        while k < self.hints.len()
            invariant
                k <= self.hints@.len(),
                out@.len() == k,
                forall|j: int| 0 <= j < k ==> #[trigger] out@[j]@ == self.hints@[j]@,
            decreases self.hints@.len() - k,
        {
            out.push(self.hints[k].clone());
            k += 1;
        }
        assert(hint_views(out@) =~= hint_views(self.hints@));
        out
    }

    /// Serves one request. Where the request needs the operating system, the
    /// back end `auto` is asked; whatever it answers, the worker is left with
    /// the hints of the elements it holds.
    pub fn handle<A: AccessibilityCalls>(&mut self, auto: &mut A, msg: Message) -> (r: Reply)
        ensures
            session(final(self).elements(), final(self).hints()),
            match msg {
                Message::UpdateInput(input) => {
                    &&& final(self).elements() == old(self).elements()
                    &&& final(self).hints() == old(self).hints()
                    &&& r matches Reply::Results(shown)
                    &&& hint_views(shown@) == picked(
                        old(self).hints(),
                        match_order(old(self).hints(), input@),
                    )
                },
                Message::RequestHints => {
                    ||| r matches Reply::Hints(shown) && hint_views(shown@) == final(self).hints()
                    ||| r == Reply::Exhausted && final(self).elements() == Seq::<
                        ElementView,
                    >::empty()
                },
                Message::Invoke(hint, _) => {
                    &&& final(self).elements() == old(self).elements()
                    &&& final(self).hints() == old(self).hints()
                    &&& match label_place(old(self).hints(), hint@, 0) {
                        Some(i) => r == Reply::Invoked(i as usize),
                        None => r == Reply::NoSuchHint,
                    }
                },
                Message::SaveTopmost => {
                    &&& final(self).elements() == old(self).elements()
                    &&& final(self).hints() == old(self).hints()
                    &&& r == Reply::Nothing
                },
            },
    {
        proof {
            use_type_invariant(&*self);
        }
        match msg {
            Message::UpdateInput(input) => Reply::Results(self.results(input)),
            Message::RequestHints => {
                let elements = auto.get_elements();
                match self.load(elements) {
                    Ok(()) => Reply::Hints(self.all_hints()),
                    Err(_) => Reply::Exhausted,
                }
            },
            Message::Invoke(hint, action) => {
                match self.find(hint.as_str()) {
                    Some(place) => {
                        auto.invoke(&self.elements[place], action);
                        Reply::Invoked(place)
                    },
                    None => Reply::NoSuchHint,
                }
            },
            Message::SaveTopmost => {
                auto.save_topmost();
                Reply::Nothing
            },
        }
    }
}

/// In one scan no two hints have the same label, and every element has its
/// hint.
pub proof fn lemma_session_labels(elements: Seq<ElementView>, hints: Seq<HintView>)
    requires
        session(elements, hints),
    ensures
        hints.len() == elements.len(),
        forall|i: int, j: int| 0 <= i < j < hints.len() ==> hints[i].hint != hints[j].hint,
        forall|i: int| 0 <= i < hints.len() ==> (#[trigger] hints[i]).text == elements[i].name,
{
    let names = Seq::new(elements.len(), |i: int| elements[i].name);
    lemma_hint_labels(names);
}

/// A label that the last scan did not give out finds no element, whatever an
/// earlier scan gave out under it.
pub proof fn lemma_stale_label(hints: Seq<HintView>, label: Seq<char>)
    requires
        forall|i: int| 0 <= i < hints.len() ==> (#[trigger] hints[i]).hint != label,
    ensures
        label_place(hints, label, 0) is None,
{
    lemma_no_place(hints, label, 0);
}

proof fn lemma_no_place(hints: Seq<HintView>, label: Seq<char>, from: int)
    requires
        0 <= from,
        forall|i: int| from <= i < hints.len() ==> (#[trigger] hints[i]).hint != label,
    ensures
        label_place(hints, label, from) is None,
    decreases hints.len() - from,
{
    if from < hints.len() {
        lemma_no_place(hints, label, from + 1);
    }
}

} // verus!
