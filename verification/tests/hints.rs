use keyhint::hints::{create_hints, initials_of, Hint};
use keyhint::labels::{assign_labels, HintError, POOL_SIZE};
use keyhint::UiElement;

fn element(name: &str) -> UiElement {
    UiElement {
        name: name.to_string(),
        control: "AXButton".to_string(),
        class: String::new(),
        item: String::new(),
        parent: "Finder".to_string(),
        pid: 7,
        x: 10,
        y: 20,
        width: 30,
        height: 40,
        x_offset: 1,
        y_offset: 2,
    }
}

fn labels(names: &[&str]) -> Vec<String> {
    let elements: Vec<UiElement> = names.iter().map(|n| element(n)).collect();
    create_hints(&elements).unwrap().into_iter().map(|h| h.hint).collect()
}

fn strings(items: &[&str]) -> Vec<String> {
    items.iter().map(|s| s.to_string()).collect()
}

#[test]
fn first_letter_is_the_label() {
    assert_eq!(labels(&["Save", "Cancel", "open"]), vec!["S", "C", "O"]);
}

#[test]
fn no_elements_no_hints() {
    assert!(create_hints(&[]).unwrap().is_empty());
}

#[test]
fn what_is_no_letter_is_passed_over() {
    assert_eq!(labels(&["1. Save", "  (quit)", "#9 zoom"]), vec!["S", "Q", "Z"]);
}

#[test]
fn text_without_letters_gets_the_first_free_letter() {
    assert_eq!(labels(&["123", "", "Apple", "..."]), vec!["A", "B", "C", "D"]);
}

#[test]
fn taken_first_letter_falls_back_to_the_alphabet() {
    assert_eq!(labels(&["Save", "Send", "Sort", "Apple"]), vec!["S", "A", "B", "C"]);
}

#[test]
fn thirty_elements_starting_with_a() {
    let names = vec!["A"; 30];
    let got = labels(&names);
    let mut want: Vec<String> = ('A'..='Z').map(|c| c.to_string()).collect();
    want.extend(strings(&["AA", "AB", "AC", "AD"]));
    assert_eq!(got, want);
}

#[test]
fn first_two_letters_once_the_single_letters_are_gone() {
    let mut names = vec!["Apple"; 27];
    names.push("Apple");
    names.push("Open file");
    names.push("o-p");
    let got = labels(&names);
    assert_eq!(got[0], "A");
    assert_eq!(got[25], "Z");
    assert_eq!(got[26], "AP");
    assert_eq!(got[27], "AA");
    assert_eq!(got[28], "OP");
    assert_eq!(got[29], "AB");
}

#[test]
fn three_letters_after_the_pairs() {
    let names = vec!["!"; 26 + 676 + 3];
    let got = labels(&names);
    assert_eq!(got[26], "AA");
    assert_eq!(got[27], "AB");
    assert_eq!(got[26 + 26], "BA");
    assert_eq!(got[26 + 675], "ZZ");
    assert_eq!(got[26 + 676], "AAA");
    assert_eq!(got[26 + 677], "AAB");
    assert_eq!(got[26 + 678], "AAC");
}

#[test]
fn labels_run_out() {
    let elements: Vec<UiElement> = (0..POOL_SIZE + 1).map(|_| element("a")).collect();
    assert_eq!(create_hints(&elements).err(), Some(HintError::Exhausted));
    let hints = create_hints(&elements[..POOL_SIZE]).unwrap();
    assert_eq!(hints.len(), 18278);
    assert_eq!(hints[18277].hint, "ZZZ");
    assert_eq!(hints[702].hint, "AAA");
}

#[test]
fn a_label_outside_the_pool_leaves_room_for_one_more() {
    let mut names = vec!["\u{e9}t\u{e9}"];
    names.extend(vec!["1"; POOL_SIZE]);
    let got = labels(&names);
    assert_eq!(got[0], "\u{c9}");
    assert_eq!(got.len(), POOL_SIZE + 1);
    assert_eq!(got[POOL_SIZE], "ZZZ");
}

#[test]
fn no_label_twice() {
    let words = ["Save", "send", "Open", "close", "", "42", "Zoom", "apple", "Banana", "sort by"];
    let names: Vec<&str> = (0..1500).map(|i| words[(i * 7 + i / 3) % words.len()]).collect();
    let got = labels(&names);
    let mut seen = std::collections::HashSet::new();
    for l in &got {
        assert!(seen.insert(l.clone()), "label {l} given twice");
        assert!((1..=3).contains(&l.chars().count()));
    }
    assert_eq!(got.len(), 1500);
}

#[test]
fn same_texts_same_labels() {
    let names = ["Save", "Send", "", "Apple", "save as"];
    let a: Vec<UiElement> = names.iter().map(|n| element(n)).collect();
    let b: Vec<UiElement> = names
        .iter()
        .map(|n| {
            let mut e = element(n);
            e.x = 999;
            e.control = "AXCheckBox".to_string();
            e.parent = "Safari".to_string();
            e
        })
        .collect();
    let la: Vec<String> = create_hints(&a).unwrap().into_iter().map(|h| h.hint).collect();
    let lb: Vec<String> = create_hints(&b).unwrap().into_iter().map(|h| h.hint).collect();
    assert_eq!(la, lb);
    assert_eq!(la, vec!["S", "A", "B", "C", "D"]);
    let again: Vec<String> = create_hints(&a).unwrap().into_iter().map(|h| h.hint).collect();
    assert_eq!(la, again);
}

#[test]
fn letters_beyond_ascii() {
    assert_eq!(labels(&["\u{e9}clair", "\u{df}eta", "\u{3a9}mega", "\u{4e2d}\u{6587}"]), vec![
        "\u{c9}",
        "S",
        "\u{3a9}",
        "\u{4e2d}"
    ]);
}

#[test]
fn hints_keep_the_order_and_the_fields_of_their_elements() {
    let mut a = element("Save");
    a.x = -5;
    let mut b = element("Quit");
    b.y_offset = 20;
    b.control = "AXMenuBarItem".to_string();
    let hints = create_hints(&[a, b]).unwrap();
    assert_eq!(hints.len(), 2);
    assert_eq!((hints[0].text.as_str(), hints[0].hint.as_str(), hints[0].x), ("Save", "S", -5));
    assert_eq!(hints[1].text, "Quit");
    assert_eq!(hints[1].hint, "Q");
    assert_eq!(hints[1].y_offset, 20);
    assert_eq!(hints[1].control, "AXMenuBarItem");
    assert_eq!(hints[1].parent, "Finder");
    assert_eq!((hints[1].width, hints[1].height, hints[1].x_offset), (30, 40, 1));
}

#[test]
fn hint_copies_its_element() {
    let e = element("Save");
    let h = Hint::from(&e);
    assert_eq!(h.text, "Save");
    assert_eq!(h.hint, "");
    assert_eq!((h.x, h.y, h.width, h.height, h.x_offset, h.y_offset), (10, 20, 30, 40, 1, 2));
    assert_eq!(h.control, "AXButton");
    assert_eq!(h.parent, "Finder");
    let c = h.clone();
    assert_eq!((c.text, c.hint, c.x, c.control, c.parent), (h.text, h.hint, h.x, h.control, h.parent));
}

#[test]
fn initials_are_the_first_two_letters_in_capitals() {
    assert_eq!(initials_of("hello world"), "HE");
    assert_eq!(initials_of("a"), "A");
    assert_eq!(initials_of("12"), "");
    assert_eq!(initials_of(""), "");
    assert_eq!(initials_of("x - y - z"), "XY");
    assert_eq!(initials_of("  9q"), "Q");
    assert_eq!(initials_of("\u{df}a"), "SSA");
}

#[test]
fn labels_from_initials() {
    assert_eq!(assign_labels(&strings(&["SA", "SA", "SA"])).unwrap(), vec!["S", "A", "B"]);
    assert_eq!(assign_labels(&strings(&["", "B", "", ""])).unwrap(), vec!["A", "B", "C", "D"]);
    assert_eq!(assign_labels(&strings(&["SSA"])).unwrap(), vec!["S"]);
    let mut many = strings(&["XY"; 29]);
    many.push("X".to_string());
    let got = assign_labels(&many).unwrap();
    assert_eq!(got[0], "X");
    assert_eq!(got[1], "A");
    assert_eq!(got[23], "W");
    assert_eq!(got[24], "Y");
    assert_eq!(got[25], "Z");
    assert_eq!(got[26], "XY");
    assert_eq!(got[27], "AA");
    assert_eq!(got[28], "AB");
    assert_eq!(got[29], "AC");
    assert!(assign_labels(&Vec::new()).unwrap().is_empty());
}

#[test]
fn labels_from_initials_run_out() {
    let many = strings(&vec![""; POOL_SIZE + 1]);
    assert_eq!(assign_labels(&many), Err(HintError::Exhausted));
}
