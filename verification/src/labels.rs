//! Labels: which label each element of a scan gets.
//!
//! The labels of the pool are `A`, `B`, .. `Z`, then `AA`, `AB`, .. `ZZ`, then
//! `AAA`, .. `ZZZ`. An element is labelled with the first letter of its text
//! where that is still free, else with the first free single letter of the
//! pool. Once the single letters have run out it gets the first two letters of
//! its text where they are free, else the first free label of the pool.
//!
//! The functions here do not read an element's text. They are given its
//! initials, the upper-cased leading letters of the text, so that what they do
//! can be followed on plain strings.

use std::collections::HashSet;
use vstd::prelude::*;
use crate::text::{chars_of, string_of};

verus! {

/// How many labels the pool holds: 26 of one letter, 676 of two, 17576 of three.
pub const POOL_SIZE: usize = 18278;

/// No more labels: every label of the pool is in use.
#[derive(Clone, Copy, Debug, PartialEq, Eq, Structural)]
pub enum HintError {
    Exhausted,
}

/// The `i`-th capital letter, counting `A` as 0.
pub open spec fn letter(i: int) -> char {
    (65 + i) as char
}

/// The `k`-th label of the pool: single letters first, then pairs, then
/// triples, each group in alphabetical order.
pub open spec fn pool_label(k: int) -> Seq<char> {
    if k < 26 {
        seq![letter(k)]
    } else if k < 702 {
        seq![letter((k - 26) / 26), letter((k - 26) % 26)]
    } else {
        seq![letter((k - 702) / 676), letter((k - 702) / 26 % 26), letter((k - 702) % 26)]
    }
}

/// The least place of the pool at or after `from` whose label is not in
/// `used`, or `POOL_SIZE` when every label from there on is taken.
pub open spec fn first_unused(used: Set<Seq<char>>, from: int) -> int
    decreases POOL_SIZE - from,
{
    if from >= POOL_SIZE {
        POOL_SIZE as int
    } else if !used.contains(pool_label(from)) {
        from
    } else {
        first_unused(used, from + 1)
    }
}

/// The first `n` characters of `s`, or all of `s` where it is shorter.
pub open spec fn prefix(s: Seq<char>, n: int) -> Seq<char> {
    if s.len() <= n {
        s
    } else {
        s.take(n)
    }
}

/// The label for an element with the given initials when the labels in `used`
/// are taken; `None` when no label is left.
///
/// In order: the first initial, if free; the first free single letter; the
/// first two initials, if free; the first free label of the pool.
pub open spec fn choose_label(used: Set<Seq<char>>, initials: Seq<char>) -> Option<Seq<char>> {
    let one = prefix(initials, 1);
    let two = prefix(initials, 2);
    let k = first_unused(used, 0);
    if one.len() > 0 && !used.contains(one) {
        Some(one)
    } else if k < 26 {
        Some(pool_label(k))
    } else if two.len() > 0 && !used.contains(two) {
        Some(two)
    } else if k < POOL_SIZE {
        Some(pool_label(k))
    } else {
        None
    }
}

/// The labels of the first `n` elements, in order, where `initials` holds the
/// initials of each element; `None` once the labels have run out. Each element
/// is labelled with the labels of all elements before it taken.
pub open spec fn assigned(initials: Seq<Seq<char>>, n: int) -> Option<Seq<Seq<char>>>
    decreases n,
{
    if n <= 0 {
        Some(Seq::empty())
    } else {
        match assigned(initials, n - 1) {
            None => None,
            Some(labels) => match choose_label(labels.to_set(), initials[n - 1]) {
                None => None,
                Some(l) => Some(labels.push(l)),
            },
        }
    }
}

/// The labels of all elements.
pub open spec fn label_plan(initials: Seq<Seq<char>>) -> Option<Seq<Seq<char>>> {
    assigned(initials, initials.len() as int)
}

/// The characters of each string of a list, in order.
pub open spec fn string_views(v: Seq<String>) -> Seq<Seq<char>> {
    Seq::new(v.len(), |i: int| v[i]@)
}

/// Whether `l` is one of the labels of the pool.
pub open spec fn in_pool(l: Seq<char>) -> bool {
    exists|k: int| 0 <= k < POOL_SIZE && #[trigger] pool_label(k) == l
}

/// Whether `c` is one of the capital letters `A` to `Z`.
pub open spec fn capital(c: char) -> bool {
    'A' <= c <= 'Z'
}

/// Whether the labels that follow the initials `s` are labels of the pool:
/// the first two of the initials are capital letters `A` to `Z`.
pub open spec fn capital_initials(s: Seq<char>) -> bool {
    forall|i: int| 0 <= i < s.len() && i < 2 ==> capital(#[trigger] s[i])
}

/// Whether all the initials of a list are capital letters `A` to `Z`.
pub open spec fn all_capital_initials(initials: Seq<Seq<char>>) -> bool {
    forall|i: int| 0 <= i < initials.len() ==> capital_initials(#[trigger] initials[i])
}

/// A label for each element, given the initials of each. Fails exactly when
/// the pool has no free label left for some element. That cannot happen with
/// `POOL_SIZE` elements or fewer, and must happen with more where all the
/// initials are capital letters `A` to `Z`.
pub fn assign_labels(initials: &Vec<String>) -> (r: Result<Vec<String>, HintError>)
    ensures
        match label_plan(string_views(initials@)) {
            Some(labels) => r matches Ok(v) && string_views(v@) == labels,
            None => r == Err::<Vec<String>, HintError>(HintError::Exhausted),
        },
        initials@.len() <= POOL_SIZE ==> r is Ok,
        initials@.len() > POOL_SIZE && all_capital_initials(string_views(initials@)) ==> r is Err,
{
    let ghost inits = string_views(initials@);
    let mut taken = LabelSet::new();
    let mut labels: Vec<String> = Vec::new();
    let n: usize = initials.len();
    let mut i: usize = 0;
    proof {
        assert(string_views(labels@) =~= Seq::<Seq<char>>::empty());
        assert(Seq::<Seq<char>>::empty().to_set() =~= Set::<Seq<char>>::empty());
        if n <= POOL_SIZE {
            lemma_labels_suffice(inits, n as int);
        } else if all_capital_initials(inits) {
            lemma_labels_run_out(inits, n as int);
        }
    }
    while i < n
        invariant
            i <= n,
            n == initials.len(),
            inits == string_views(initials@),
            taken.wf(),
            assigned(inits, i as int) == Some(string_views(labels@)),
            taken@ == string_views(labels@).to_set(),
            n <= POOL_SIZE ==> assigned(inits, n as int) is Some,
            n > POOL_SIZE && all_capital_initials(inits) ==> assigned(inits, n as int) is None,
        decreases n - i,
    {
        let init = chars_of(initials[i].as_str());
        let ghost before = string_views(labels@);
        match pick_label(&mut taken, &init) {
            None => {
                proof {
                    assert(assigned(inits, i + 1) is None);
                    lemma_assigned_none(inits, i + 1, n as int);
                }
                return Err(HintError::Exhausted);
            },
            Some(l) => {
                labels.push(string_of(l.as_slice()));
                proof {
                    assert(string_views(labels@) =~= before.push(l@));
                    before.lemma_push_to_set_commute(l@);
                }
            },
        }
        i += 1;
    }
    Ok(labels)
}

// ---------------------------------------------------------------------------
// What holds of the labels.

/// A chosen label is free, and one to three characters long.
pub proof fn lemma_choose_label(used: Set<Seq<char>>, initials: Seq<char>)
    ensures
        choose_label(used, initials) matches Some(l) ==> !used.contains(l) && 1 <= l.len() <= 3,
{
    lemma_first_unused(used, 0);
}

/// The labels of a scan: one for each element, no label twice, and each label
/// one to three characters long.
pub proof fn lemma_assigned_labels(initials: Seq<Seq<char>>, n: int)
    requires
        0 <= n,
    ensures
        assigned(initials, n) matches Some(labels) ==> {
            &&& labels.len() == n
            &&& labels.no_duplicates()
            &&& forall|i: int| 0 <= i < n ==> 1 <= (#[trigger] labels[i]).len() <= 3
        },
    decreases n,
{
    if n > 0 {
        lemma_assigned_labels(initials, n - 1);
        match assigned(initials, n - 1) {
            None => {},
            Some(before) => {
                lemma_choose_label(before.to_set(), initials[n - 1]);
            },
        }
    }
}

/// The labels of the first elements of a scan do not depend on the elements
/// behind them.
pub proof fn lemma_assigned_prefix(initials: Seq<Seq<char>>, m: int, n: int)
    requires
        0 <= m <= n,
        assigned(initials, n) is Some,
    ensures
        assigned(initials, m) == Some(assigned(initials, n)->0.take(m)),
    decreases n - m,
{
    let labels = assigned(initials, n)->0;
    lemma_assigned_labels(initials, n);
    if m == n {
        assert(labels.take(m) =~= labels);
    } else {
        let before = assigned(initials, n - 1)->0;
        lemma_assigned_labels(initials, n - 1);
        lemma_assigned_prefix(initials, m, n - 1);
        assert(before.take(m) =~= labels.take(m));
    }
}

/// A label grows only as far as it must: an element gets a label of two
/// characters only when the elements before it hold every single letter, and
/// one of three characters only when they hold every pair as well.
pub proof fn lemma_labels_grow_as_needed(initials: Seq<Seq<char>>, n: int, i: int)
    requires
        0 <= i < n,
        assigned(initials, n) is Some,
    ensures
        ({
            let labels = assigned(initials, n)->0;
            &&& labels[i].len() >= 2 ==> forall|k: int|
                0 <= k < 26 ==> labels.take(i).contains(#[trigger] pool_label(k))
            &&& labels[i].len() >= 3 ==> forall|k: int|
                0 <= k < 702 ==> labels.take(i).contains(#[trigger] pool_label(k))
        }),
{
    let labels = assigned(initials, n)->0;
    let before = labels.take(i);
    lemma_assigned_prefix(initials, i, n);
    lemma_assigned_prefix(initials, i + 1, n);
    lemma_assigned_labels(initials, n);
    assert(labels.take(i + 1)[i] == labels[i]);
    let used = before.to_set();
    assert(choose_label(used, initials[i]) == Some(labels[i])) by {
        let l = choose_label(used, initials[i])->0;
        assert(before.push(l)[i] == l);
    }
    lemma_first_unused(used, 0);
    assert forall|k: int| 0 <= k < first_unused(used, 0) implies before.contains(
        #[trigger] pool_label(k),
    ) by {
        assert(used.contains(pool_label(k)));
    }
}

/// Two places of the pool hold two different labels.
pub proof fn lemma_pool_labels_differ(j: int, k: int)
    requires
        0 <= j < POOL_SIZE,
        0 <= k < POOL_SIZE,
        pool_label(j) == pool_label(k),
    ensures
        j == k,
{
    let a = pool_label(j);
    let b = pool_label(k);
    assert(a.len() == if j < 26 { 1nat } else if j < 702 { 2nat } else { 3nat });
    assert(b.len() == if k < 26 { 1nat } else if k < 702 { 2nat } else { 3nat });
    if j < 26 {
        lemma_letter(j);
        lemma_letter(k);
        assert(a[0] == letter(j) && b[0] == letter(k));
    } else if j < 702 {
        let (p, q) = (j - 26, k - 26);
        lemma_letter(p / 26);
        lemma_letter(p % 26);
        lemma_letter(q / 26);
        lemma_letter(q % 26);
        assert(a[0] == b[0] && a[1] == b[1]);
    } else {
        let (p, q) = (j - 702, k - 702);
        lemma_letter(p / 676);
        lemma_letter(p / 26 % 26);
        lemma_letter(p % 26);
        lemma_letter(q / 676);
        lemma_letter(q / 26 % 26);
        lemma_letter(q % 26);
        assert(a[0] == b[0] && a[1] == b[1] && a[2] == b[2]);
        vstd::arithmetic::div_mod::lemma_div_denominator(p, 26, 26);
        vstd::arithmetic::div_mod::lemma_div_denominator(q, 26, 26);
        assert(p / 26 == q / 26);
    }
}

/// The pool as a set: it holds `POOL_SIZE` labels.
proof fn lemma_pool_set() -> (pool: Set<Seq<char>>)
    ensures
        pool.finite(),
        pool.len() == POOL_SIZE,
        forall|l: Seq<char>| pool.contains(l) <==> in_pool(l),
{
    let places = vstd::set_lib::set_int_range(0, POOL_SIZE as int);
    let f = |k: int| pool_label(k);
    let pool = places.map(f);
    vstd::set_lib::lemma_int_range(0, POOL_SIZE as int);
    assert(vstd::relations::injective_on(f, places)) by {
        assert forall|x1: int, x2: int|
            places.contains(x1) && places.contains(x2) && #[trigger] f(x1) == #[trigger] f(
                x2,
            ) implies x1 == x2 by {
            lemma_pool_labels_differ(x1, x2);
        }
    }
    vstd::set_lib::lemma_map_size(places, pool, f);
    assert forall|l: Seq<char>| pool.contains(l) <==> in_pool(l) by {
        if pool.contains(l) {
            let k = choose|k: int| places.contains(k) && f(k) == l;
            assert(pool_label(k) == l);
        }
        if in_pool(l) {
            let k = choose|k: int| 0 <= k < POOL_SIZE && #[trigger] pool_label(k) == l;
            assert(places.contains(k) && f(k) == l);
        }
    }
    pool
}

/// While fewer labels are in use than the pool holds, one of the pool is free.
pub proof fn lemma_pool_not_exhausted(used: Seq<Seq<char>>)
    requires
        used.len() < POOL_SIZE,
    ensures
        first_unused(used.to_set(), 0) < POOL_SIZE,
{
    let taken = used.to_set();
    lemma_first_unused(taken, 0);
    if first_unused(taken, 0) == POOL_SIZE {
        let pool = lemma_pool_set();
        assert(pool.subset_of(taken)) by {
            assert forall|l: Seq<char>| pool.contains(l) implies taken.contains(l) by {
                assert(in_pool(l));
                let k = choose|k: int| 0 <= k < POOL_SIZE && #[trigger] pool_label(k) == l;
                assert(taken.contains(pool_label(k)));
            }
        }
        vstd::seq_lib::seq_to_set_is_finite(used);
        vstd::set_lib::lemma_len_subset(pool, taken);
        used.lemma_cardinality_of_set();
    }
}

/// The labels that follow capital initials are labels of the pool.
pub proof fn lemma_capital_initials(s: Seq<char>)
    requires
        capital_initials(s),
    ensures
        prefix(s, 1).len() > 0 ==> in_pool(prefix(s, 1)),
        prefix(s, 2).len() > 0 ==> in_pool(prefix(s, 2)),
{
    if s.len() > 0 {
        let a = s[0] as int - 65;
        assert(capital(s[0]));
        lemma_letter(a);
        assert(pool_label(a) =~= prefix(s, 1));
        if s.len() > 1 {
            let b = s[1] as int - 65;
            assert(capital(s[1]));
            lemma_letter(b);
            let k = 26 + 26 * a + b;
            assert((k - 26) / 26 == a && (k - 26) % 26 == b);
            assert(pool_label(k) =~= prefix(s, 2));
        }
    }
}

/// With capital initials, every label given out is a label of the pool.
pub proof fn lemma_labels_from_pool(initials: Seq<Seq<char>>, n: int)
    requires
        0 <= n,
        forall|i: int| 0 <= i < n ==> capital_initials(#[trigger] initials[i]),
    ensures
        assigned(initials, n) matches Some(labels) ==> forall|i: int|
            0 <= i < labels.len() ==> in_pool(#[trigger] labels[i]),
    decreases n,
{
    if n > 0 {
        lemma_labels_from_pool(initials, n - 1);
        lemma_assigned_labels(initials, n - 1);
        match assigned(initials, n - 1) {
            None => {},
            Some(before) => {
                let used = before.to_set();
                lemma_capital_initials(initials[n - 1]);
                lemma_first_unused(used, 0);
                match choose_label(used, initials[n - 1]) {
                    None => {},
                    Some(l) => {
                        assert(in_pool(l));
                        let labels = before.push(l);
                        assert forall|i: int| 0 <= i < labels.len() implies in_pool(
                            #[trigger] labels[i],
                        ) by {
                            if i < before.len() {
                                assert(labels[i] == before[i]);
                            }
                        }
                    },
                }
            },
        }
    }
}

/// More than `POOL_SIZE` elements whose initials are all capital letters run
/// out of labels: each of their labels would be one of the pool, no two the
/// same, and the pool holds only `POOL_SIZE`.
pub proof fn lemma_labels_run_out(initials: Seq<Seq<char>>, n: int)
    requires
        n > POOL_SIZE,
        forall|i: int| 0 <= i < n ==> capital_initials(#[trigger] initials[i]),
    ensures
        assigned(initials, n) is None,
{
    if assigned(initials, n) is Some {
        let labels = assigned(initials, n)->0;
        lemma_assigned_labels(initials, n);
        lemma_labels_from_pool(initials, n);
        let pool = lemma_pool_set();
        assert(labels.to_set().subset_of(pool)) by {
            assert forall|l: Seq<char>| labels.to_set().contains(l) implies pool.contains(l) by {
                let i = choose|i: int| 0 <= i < labels.len() && labels[i] == l;
                assert(in_pool(labels[i]));
            }
        }
        vstd::set_lib::lemma_len_subset(labels.to_set(), pool);
        labels.unique_seq_to_set();
    }
}

/// Up to `POOL_SIZE` elements always get their labels.
pub proof fn lemma_labels_suffice(initials: Seq<Seq<char>>, n: int)
    requires
        0 <= n <= POOL_SIZE,
    ensures
        assigned(initials, n) is Some,
    decreases n,
{
    if n > 0 {
        lemma_labels_suffice(initials, n - 1);
        lemma_assigned_labels(initials, n - 1);
        let before = assigned(initials, n - 1)->0;
        lemma_pool_not_exhausted(before);
    }
}

/// Once the labels have run out they stay run out.
proof fn lemma_assigned_none(initials: Seq<Seq<char>>, m: int, n: int)
    requires
        m <= n,
        assigned(initials, m) is None,
    ensures
        assigned(initials, n) is None,
    decreases n - m,
{
    if m < n {
        lemma_assigned_none(initials, m, n - 1);
    }
}

/// The search for a free place passes only taken places, and stops at a free
/// one or at the end of the pool.
proof fn lemma_first_unused(used: Set<Seq<char>>, from: int)
    requires
        0 <= from,
    ensures
        from <= first_unused(used, from) || first_unused(used, from) == POOL_SIZE,
        first_unused(used, from) <= POOL_SIZE,
        first_unused(used, from) < POOL_SIZE ==> !used.contains(
            pool_label(first_unused(used, from)),
        ),
        forall|j: int|
            from <= j < first_unused(used, from) ==> used.contains(#[trigger] pool_label(j)),
    decreases POOL_SIZE - from,
{
    if from < POOL_SIZE && used.contains(pool_label(from)) {
        lemma_first_unused(used, from + 1);
    }
}

/// Where every place from `from` up to `k` is taken and the `k`-th is free, or
/// the end of the pool, the search from `from` stops at `k`.
proof fn lemma_first_unused_found(used: Set<Seq<char>>, from: int, k: int)
    requires
        0 <= from <= k <= POOL_SIZE,
        forall|j: int| from <= j < k ==> used.contains(#[trigger] pool_label(j)),
        k < POOL_SIZE ==> !used.contains(pool_label(k)),
    ensures
        first_unused(used, from) == k,
    decreases k - from,
{
    if from < k {
        assert(used.contains(pool_label(from)));
        lemma_first_unused_found(used, from + 1, k);
    }
}

/// The capital letters are the 26 characters from `A` on.
proof fn lemma_letter(i: int)
    requires
        0 <= i < 26,
    ensures
        letter(i) as int == 65 + i,
{
}

// ---------------------------------------------------------------------------
// The set of labels in use.

spec fn char_at(l: Seq<char>, i: int) -> int {
    if i < l.len() {
        l[i] as int
    } else {
        0
    }
}

proof fn lemma_char_range(c: char)
    ensures
        0 <= (c as int) < 0x110000,
{
}

proof fn lemma_char_at_range(l: Seq<char>, i: int)
    ensures
        0 <= char_at(l, i) < 0x110000,
{
    if i < l.len() {
        lemma_char_range(l[i]);
    }
}

/// A number that stands for a label of at most three characters: its length
/// and its characters, as digits to a base just above the largest code point.
spec fn code(l: Seq<char>) -> int {
    l.len() + 4 * (char_at(l, 0) + 0x110000 * (char_at(l, 1) + 0x110000 * char_at(l, 2)))
}

proof fn lemma_code_bound(l: Seq<char>)
    requires
        l.len() <= 3,
    ensures
        0 <= code(l) <= u64::MAX,
{
    lemma_char_at_range(l, 0);
    lemma_char_at_range(l, 1);
    lemma_char_at_range(l, 2);
}

/// Two labels with the same code are the same label.
proof fn lemma_code_injective(a: Seq<char>, b: Seq<char>)
    requires
        a.len() <= 3,
        b.len() <= 3,
        code(a) == code(b),
    ensures
        a == b,
{
    lemma_char_at_range(a, 0);
    lemma_char_at_range(a, 1);
    lemma_char_at_range(a, 2);
    lemma_char_at_range(b, 0);
    lemma_char_at_range(b, 1);
    lemma_char_at_range(b, 2);
    let ra = char_at(a, 0) + 0x110000 * (char_at(a, 1) + 0x110000 * char_at(a, 2));
    let rb = char_at(b, 0) + 0x110000 * (char_at(b, 1) + 0x110000 * char_at(b, 2));
    assert(ra == rb);
    assert(ra % 0x110000 == char_at(a, 0));
    assert(rb % 0x110000 == char_at(b, 0));
    let qa = char_at(a, 1) + 0x110000 * char_at(a, 2);
    let qb = char_at(b, 1) + 0x110000 * char_at(b, 2);
    assert(qa % 0x110000 == char_at(a, 1));
    assert(qb % 0x110000 == char_at(b, 1));
    assert forall|i: int| 0 <= i < a.len() implies a[i] == b[i] by {
        assert(char_at(a, i) == char_at(b, i));
    }
    assert(a =~= b);
}

/// The labels in use. They are kept by their codes; `cursor` is a place of the
/// pool below which every label is known to be in use, so that the search for
/// a free place never passes a place twice.
struct LabelSet {
    codes: HashSet<u64>,
    cursor: usize,
    labels: Ghost<Set<Seq<char>>>,
}

impl LabelSet {
    spec fn view(&self) -> Set<Seq<char>> {
        self.labels@
    }

    spec fn wf(&self) -> bool {
        &&& forall|l: Seq<char>| #[trigger] self.labels@.contains(l) ==> l.len() <= 3
        &&& forall|l: Seq<char>|
            l.len() <= 3 ==> (#[trigger] self.labels@.contains(l) <==> self.codes@.contains(
                code(l) as u64,
            ))
        &&& self.cursor <= POOL_SIZE
        &&& forall|k: int| 0 <= k < self.cursor ==> self.labels@.contains(#[trigger] pool_label(k))
    }

    fn new() -> (r: LabelSet)
        ensures
            r.wf(),
            r@ == Set::<Seq<char>>::empty(),
    {
        LabelSet { codes: HashSet::new(), cursor: 0, labels: Ghost(Set::empty()) }
    }

    fn contains(&self, l: &Vec<char>) -> (r: bool)
        requires
            self.wf(),
            l.len() <= 3,
        ensures
            r == self@.contains(l@),
    {
        let c = code_of(l);
        self.codes.contains(&c)
    }

    fn insert(&mut self, l: &Vec<char>)
        requires
            old(self).wf(),
            l.len() <= 3,
        ensures
            final(self).wf(),
            final(self)@ == old(self)@.insert(l@),
    {
        let c = code_of(l);
        self.codes.insert(c);
        proof {
            self.labels@ = self.labels@.insert(l@);
            assert forall|m: Seq<char>| m.len() <= 3 implies (#[trigger] self.labels@.contains(m)
                <==> self.codes@.contains(code(m) as u64)) by {
                lemma_code_bound(m);
                lemma_code_bound(l@);
                if code(m) == code(l@) {
                    lemma_code_injective(m, l@);
                }
            }
        }
    }

    /// The first place of the pool whose label is free, or `POOL_SIZE`.
    fn next_free(&mut self) -> (k: usize)
        requires
            old(self).wf(),
        ensures
            final(self).wf(),
            final(self)@ == old(self)@,
            k == first_unused(old(self)@, 0),
            k <= POOL_SIZE,
    {
        while self.cursor < POOL_SIZE
            invariant
                self.wf(),
                self@ == old(self)@,
            ensures
                self.wf(),
                self@ == old(self)@,
                self.cursor < POOL_SIZE ==> !self@.contains(pool_label(self.cursor as int)),
            decreases POOL_SIZE - self.cursor,
        {
            let c = pool_code(self.cursor);
            if !self.codes.contains(&c) {
                break ;
            }
            self.cursor = self.cursor + 1;
        }
        proof {
            lemma_first_unused_found(self@, 0, self.cursor as int);
        }
        self.cursor
    }
}

fn letter_at(i: usize) -> (c: char)
    requires
        i < 26,
    ensures
        c == letter(i as int),
{
    (65u8 + i as u8) as char
}

fn pool_chars(k: usize) -> (r: Vec<char>)
    requires
        k < POOL_SIZE,
    ensures
        r@ == pool_label(k as int),
        1 <= r@.len() <= 3,
{
    let mut out: Vec<char> = Vec::new();
    if k < 26 {
        out.push(letter_at(k));
    } else if k < 702 {
        let j: usize = k - 26;
        out.push(letter_at(j / 26));
        out.push(letter_at(j % 26));
    } else {
        let j: usize = k - 702;
        out.push(letter_at(j / 676));
        out.push(letter_at(j / 26 % 26));
        out.push(letter_at(j % 26));
    }
    out
}

fn code_of(l: &Vec<char>) -> (r: u64)
    requires
        l.len() <= 3,
    ensures
        r == code(l@),
{
    let n: usize = l.len();
    let c0: u64 = if n > 0 { l[0] as u64 } else { 0 };
    let c1: u64 = if n > 1 { l[1] as u64 } else { 0 };
    let c2: u64 = if n > 2 { l[2] as u64 } else { 0 };
    proof {
        lemma_char_at_range(l@, 0);
        lemma_char_at_range(l@, 1);
        lemma_char_at_range(l@, 2);
    }
    n as u64 + 4 * (c0 + 0x110000 * (c1 + 0x110000 * c2))
}

fn pool_code(k: usize) -> (r: u64)
    requires
        k < POOL_SIZE,
    ensures
        r == code(pool_label(k as int)),
        pool_label(k as int).len() <= 3,
{
    let l = pool_chars(k);
    code_of(&l)
}

fn take_prefix(v: &Vec<char>, n: usize) -> (r: Vec<char>)
    ensures
        r@ == prefix(v@, n as int),
{
    let mut out: Vec<char> = Vec::new();
    let mut i: usize = 0;
    while i < v.len() && i < n
        invariant
            i <= v.len(),
            i <= n,
            out@ == v@.take(i as int),
        decreases v.len() - i,
    {
        out.push(v[i]);
        i += 1;
    }
    assert(v@.take(v@.len() as int) == v@);
    out
}

/// Picks the label for one element and marks it as taken.
fn pick_label(taken: &mut LabelSet, initials: &Vec<char>) -> (r: Option<Vec<char>>)
    requires
        old(taken).wf(),
    ensures
        final(taken).wf(),
        match choose_label(old(taken)@, initials@) {
            Some(l) => r matches Some(v) && v@ == l && final(taken)@ == old(taken)@.insert(l),
            None => r is None && final(taken)@ == old(taken)@,
        },
{
    let one = take_prefix(initials, 1);
    let two = take_prefix(initials, 2);
    if one.len() > 0 && !taken.contains(&one) {
        taken.insert(&one);
        return Some(one);
    }
    let k = taken.next_free();
    if k < 26 {
        let l = pool_chars(k);
        taken.insert(&l);
        return Some(l);
    }
    if two.len() > 0 && !taken.contains(&two) {
        taken.insert(&two);
        return Some(two);
    }
    if k < POOL_SIZE {
        let l = pool_chars(k);
        taken.insert(&l);
        Some(l)
    } else {
        None
    }
}

} // verus!
