//! Hints: each element of a scan with its label.

use vstd::prelude::*;
use vstd::std_specs::convert::FromSpecImpl;
use vstd::std_specs::iter::IteratorSpec;
use crate::labels::{
    all_capital_initials, assign_labels, label_plan, lemma_assigned_labels, prefix, string_views,
    HintError, POOL_SIZE,
};
use crate::text::{unicode_alphabetic, unicode_uppercase};
use crate::traits::{ElementView, UiElement};

verus! {

/// A label bound to one scanned element, with what the overlay needs to draw
/// it and what typed text is matched against.
#[derive(Debug)]
pub struct Hint {
    /// The element's display text.
    pub text: String,
    /// The label: one to three characters, unique among the hints of one scan.
    pub hint: String,
    pub x: i32,
    pub y: i32,
    pub x_offset: i32,
    pub y_offset: i32,
    pub width: i32,
    pub height: i32,
    pub control: String,
    pub parent: String,
}

/// The mathematical value of a [`Hint`].
pub ghost struct HintView {
    pub text: Seq<char>,
    pub hint: Seq<char>,
    pub x: int,
    pub y: int,
    pub x_offset: int,
    pub y_offset: int,
    pub width: int,
    pub height: int,
    pub control: Seq<char>,
    pub parent: Seq<char>,
}

impl View for Hint {
    type V = HintView;

    open spec fn view(&self) -> HintView {
        HintView {
            text: self.text@,
            hint: self.hint@,
            x: self.x as int,
            y: self.y as int,
            x_offset: self.x_offset as int,
            y_offset: self.y_offset as int,
            width: self.width as int,
            height: self.height as int,
            control: self.control@,
            parent: self.parent@,
        }
    }
}

impl Clone for Hint {
    fn clone(&self) -> (r: Hint)
        ensures
            r == *self,
    {
        Hint {
            text: self.text.clone(),
            hint: self.hint.clone(),
            x: self.x,
            y: self.y,
            x_offset: self.x_offset,
            y_offset: self.y_offset,
            width: self.width,
            height: self.height,
            control: self.control.clone(),
            parent: self.parent.clone(),
        }
    }
}

/// The hint of element `e` when its label is `label`: the element's text,
/// geometry, role and owner, and the label.
pub open spec fn labelled(e: ElementView, label: Seq<char>) -> HintView {
    HintView {
        text: e.name,
        hint: label,
        x: e.x,
        y: e.y,
        x_offset: e.x_offset,
        y_offset: e.y_offset,
        width: e.width,
        height: e.height,
        control: e.control,
        parent: e.parent,
    }
}

impl<'a> From<&'a UiElement> for Hint {
    /// The hint of `e`, not yet labelled.
    fn from(e: &'a UiElement) -> (r: Hint)
        ensures
            r@ == labelled(e@, Seq::empty()),
    {
        Hint {
            text: e.name.clone(),
            hint: String::new(),
            x: e.x,
            y: e.y,
            x_offset: e.x_offset,
            y_offset: e.y_offset,
            width: e.width,
            height: e.height,
            control: e.control.clone(),
            parent: e.parent.clone(),
        }
    }
}

/// The conversion is stated by the `ensures` of `from`, over views: two
/// strings with the same characters are not the same `String` to the verifier.
impl<'a> FromSpecImpl<&'a UiElement> for Hint {
    open spec fn obeys_from_spec() -> bool {
        false
    }

    open spec fn from_spec(e: &'a UiElement) -> Hint {
        arbitrary()
    }
}

/// The views of a list of hints, in order.
pub open spec fn hint_views(hints: Seq<Hint>) -> Seq<HintView> {
    Seq::new(hints.len(), |i: int| hints[i]@)
}

/// The display texts of a list of elements, in order.
pub open spec fn element_names(elements: Seq<UiElement>) -> Seq<Seq<char>> {
    Seq::new(elements.len(), |i: int| elements[i]@.name)
}

/// The test for a letter, as a predicate on characters.
pub open spec fn letter_pred() -> spec_fn(char) -> bool {
    |c: char| unicode_alphabetic(c)
}

/// The first two alphabetic characters of `text`, in order.
pub open spec fn leading_letters(text: Seq<char>) -> Seq<char> {
    prefix(text.filter(letter_pred()), 2)
}

/// The initials of a display text: its leading letters, upper-cased. The
/// labels that follow the text are the first and the first two of them.
pub open spec fn initials(text: Seq<char>) -> Seq<char> {
    unicode_uppercase(leading_letters(text))
}

/// The initials of each text of a list, in order.
pub open spec fn all_initials(texts: Seq<Seq<char>>) -> Seq<Seq<char>> {
    Seq::new(texts.len(), |i: int| initials(texts[i]))
}

/// The labels for elements with the display texts `texts`, in order; `None`
/// where the labels run out.
pub open spec fn hint_labels(texts: Seq<Seq<char>>) -> Option<Seq<Seq<char>>> {
    label_plan(all_initials(texts))
}

/// The initials of `text`.
pub fn initials_of(text: &str) -> (r: String)
    ensures
        r@ == initials(text@),
{
    let mut letters = String::new();
    let mut count: usize = 0;
    let mut it = text.chars();
    let ghost mut done: Seq<char> = Seq::empty();
    assert(done.filter(letter_pred()) =~= Seq::<char>::empty()) by {
        reveal(Seq::filter);
    }
    loop
        invariant
            it.obeys_prophetic_iter_laws(),
            it.decrease() is Some,
            done + it.remaining() == text@,
            letters@ == done.filter(letter_pred()),
            count == letters@.len(),
            count <= 2,
        ensures
            letters@ == leading_letters(text@),
        decreases it.decrease()->0,
    {
        if count == 2 {
            proof {
                Seq::filter_distributes_over_add(done, it.remaining(), letter_pred());
                assert((done.filter(letter_pred()) + it.remaining().filter(letter_pred())).take(2)
                    =~= done.filter(letter_pred()));
            }
            break ;
        }
        match it.next() {
            Some(c) => {
                proof {
                    done.lemma_filter_push(c, letter_pred());
                    assert(done.push(c) + it.remaining() =~= text@);
                    done = done.push(c);
                }
                if c.is_alphabetic() {
                    letters.push(c);
                    count += 1;
                }
            },
            None => {
                proof {
                    assert(done =~= text@);
                }
                break ;
            },
        }
    }
    letters.as_str().to_uppercase()
}

/// One hint for each element, in the elements' order. Each hint copies its
/// element and carries the label that [`hint_labels`] gives it: no two hints
/// have the same label, and each label is one to three characters long.
/// Fails, with nothing labelled, exactly when the labels run out. That
/// cannot happen with `POOL_SIZE` elements or fewer, and must happen with more
/// where the initials of every text are capital letters `A` to `Z`: a label is
/// never given twice, and no element is passed over.
pub fn create_hints(elements: &[UiElement]) -> (r: Result<Vec<Hint>, HintError>)
    ensures
        match hint_labels(element_names(elements@)) {
            Some(labels) => r matches Ok(hints) && hint_views(hints@) == Seq::new(
                elements@.len(),
                |i: int| labelled(elements@[i]@, labels[i]),
            ),
            None => r == Err::<Vec<Hint>, HintError>(HintError::Exhausted),
        },
        elements@.len() <= POOL_SIZE ==> r is Ok,
        elements@.len() > POOL_SIZE && all_capital_initials(
            all_initials(element_names(elements@)),
        ) ==> r is Err,
        r matches Ok(hints) ==> {
            &&& hints@.len() == elements@.len()
            &&& forall|i: int, j: int|
                0 <= i < j < hints@.len() ==> hints@[i].hint@ != hints@[j].hint@
            &&& forall|i: int| 0 <= i < hints@.len() ==> 1 <= (#[trigger] hints@[i]).hint@.len() <= 3
        },
{
    let n: usize = elements.len();
    let mut inits: Vec<String> = Vec::new();
    let mut i: usize = 0;
    while i < n
        invariant
            i <= n,
            n == elements@.len(),
            inits@.len() == i,
            forall|k: int| 0 <= k < i ==> inits@[k]@ == initials(elements@[k]@.name),
        decreases n - i,
    {
        inits.push(initials_of(elements[i].name.as_str()));
        i += 1;
    }
    assert(string_views(inits@) =~= all_initials(element_names(elements@)));
    let labels = match assign_labels(&inits) {
        Ok(labels) => labels,
        Err(e) => {
            return Err(e);
        },
    };
    let ghost plan = string_views(labels@);
    proof {
        lemma_assigned_labels(string_views(inits@), n as int);
    }
    let mut out: Vec<Hint> = Vec::new();
    let mut j: usize = 0;
    while j < n
        invariant
            j <= n,
            n == elements@.len(),
            labels@.len() == n,
            plan == string_views(labels@),
            out@.len() == j,
            forall|k: int| 0 <= k < j ==> #[trigger] out@[k]@ == labelled(elements@[k]@, plan[k]),
        decreases n - j,
    {
        let mut h = Hint::from(&elements[j]);
        h.hint = labels[j].clone();
        out.push(h);
        j += 1;
    }
    assert(hint_views(out@) =~= Seq::new(
        elements@.len(),
        |i: int| labelled(elements@[i]@, plan[i]),
    ));
    assert forall|i: int, j: int| 0 <= i < j < out@.len() implies out@[i].hint@ != out@[j].hint@ by {
        assert(out@[i]@.hint == plan[i]);
        assert(out@[j]@.hint == plan[j]);
    }
    assert forall|i: int| 0 <= i < out@.len() implies 1 <= (#[trigger] out@[i]).hint@.len()
        <= 3 by {
        assert(out@[i]@.hint == plan[i]);
    }
    Ok(out)
}

/// The labels depend on the elements' display texts alone, and on their order:
/// two scans with the same texts in the same order get the same labels.
pub proof fn lemma_labels_follow_text(a: Seq<UiElement>, b: Seq<UiElement>)
    requires
        a.len() == b.len(),
        forall|i: int| 0 <= i < a.len() ==> a[i]@.name == b[i]@.name,
    ensures
        hint_labels(element_names(a)) == hint_labels(element_names(b)),
{
    assert(element_names(a) =~= element_names(b));
}

/// The labels of one scan: no label twice, and each label one to three
/// characters long.
pub proof fn lemma_hint_labels(texts: Seq<Seq<char>>)
    ensures
        hint_labels(texts) matches Some(labels) ==> {
            &&& labels.len() == texts.len()
            &&& labels.no_duplicates()
            &&& forall|i: int| 0 <= i < labels.len() ==> 1 <= (#[trigger] labels[i]).len() <= 3
        },
{
    lemma_assigned_labels(all_initials(texts), texts.len() as int);
}

} // verus!
