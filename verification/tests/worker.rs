use keyhint::hints::Hint;
use keyhint::worker::{Message, Reply, Worker};
use keyhint::{AccessibilityCalls, Action, UiElement};
use std::cell::RefCell;

fn element(name: &str, x: i32) -> UiElement {
    UiElement {
        name: name.to_string(),
        control: "Button".to_string(),
        class: String::new(),
        item: String::new(),
        parent: "App".to_string(),
        pid: 1,
        x,
        y: 0,
        width: 10,
        height: 10,
        x_offset: 0,
        y_offset: 0,
    }
}

/// A back end that hands out prepared scans and notes what it is asked.
struct Script {
    scans: Vec<Vec<UiElement>>,
    invoked: RefCell<Vec<(String, i32, Action)>>,
    saved: usize,
}

impl Script {
    fn new(scans: Vec<Vec<UiElement>>) -> Script {
        Script { scans, invoked: RefCell::new(Vec::new()), saved: 0 }
    }
}

impl AccessibilityCalls for Script {
    fn has_permissions(&self) -> bool {
        true
    }

    fn get_elements(&mut self) -> Vec<UiElement> {
        if self.scans.is_empty() {
            Vec::new()
        } else {
            self.scans.remove(0)
        }
    }

    fn invoke(&self, element: &UiElement, action: Action) {
        self.invoked.borrow_mut().push((element.name.clone(), element.x, action));
    }

    fn save_topmost(&mut self) {
        self.saved += 1;
    }
}

fn labels(hints: &[Hint]) -> Vec<String> {
    hints.iter().map(|h| h.hint.clone()).collect()
}

fn hints_of(reply: Reply) -> Vec<Hint> {
    match reply {
        Reply::Hints(h) => h,
        _ => panic!("no hints"),
    }
}

fn results_of(reply: Reply) -> Vec<Hint> {
    match reply {
        Reply::Results(h) => h,
        _ => panic!("no results"),
    }
}

#[test]
fn before_the_first_scan_there_is_nothing() {
    let mut auto = Script::new(vec![]);
    let mut w = Worker::new();
    assert!(w.all_hints().is_empty());
    assert!(results_of(w.handle(&mut auto, Message::UpdateInput(String::new()))).is_empty());
    assert!(results_of(w.handle(&mut auto, Message::UpdateInput("a".to_string()))).is_empty());
    assert!(matches!(
        w.handle(&mut auto, Message::Invoke("A".to_string(), Action::LeftClick)),
        Reply::NoSuchHint
    ));
    assert!(auto.invoked.borrow().is_empty());
    assert_eq!(w.find("A"), None);
}

#[test]
fn a_show_cycle() {
    let mut auto = Script::new(vec![vec![element("Save", 1), element("Cancel", 2), element("Send", 3)]]);
    let mut w = Worker::new();
    assert!(matches!(w.handle(&mut auto, Message::SaveTopmost), Reply::Nothing));
    assert_eq!(auto.saved, 1);

    let hints = hints_of(w.handle(&mut auto, Message::RequestHints));
    assert_eq!(labels(&hints), vec!["S", "C", "A"]);
    assert_eq!(hints[2].text, "Send");
    assert_eq!(hints[2].x, 3);
    assert_eq!(labels(&w.all_hints()), vec!["S", "C", "A"]);

    let all = results_of(w.handle(&mut auto, Message::UpdateInput(String::new())));
    assert_eq!(labels(&all), vec!["S", "C", "A"]);
    let some = results_of(w.handle(&mut auto, Message::UpdateInput("c".to_string())));
    assert_eq!(labels(&some), vec!["C"]);
    let some = results_of(w.handle(&mut auto, Message::UpdateInput("se".to_string())));
    assert_eq!(labels(&some), vec!["A", "S"]);
    let some = results_of(w.handle(&mut auto, Message::UpdateInput("sd".to_string())));
    assert_eq!(labels(&some), vec!["A"]);
    assert_eq!(labels(&w.results("s".to_string())), vec!["S", "A"]);

    assert!(matches!(
        w.handle(&mut auto, Message::Invoke("A".to_string(), Action::RightClick)),
        Reply::Invoked(2)
    ));
    assert!(matches!(
        w.handle(&mut auto, Message::Invoke("S".to_string(), Action::LeftClick)),
        Reply::Invoked(0)
    ));
    assert_eq!(*auto.invoked.borrow(), vec![
        ("Send".to_string(), 3, Action::RightClick),
        ("Save".to_string(), 1, Action::LeftClick)
    ]);
    assert_eq!(labels(&w.all_hints()), vec!["S", "C", "A"]);
    assert_eq!(auto.saved, 1);
}

#[test]
fn a_hint_is_looked_up_as_it_is_written() {
    let mut auto = Script::new(vec![vec![element("Save", 1)]]);
    let mut w = Worker::new();
    w.handle(&mut auto, Message::RequestHints);
    assert_eq!(w.find("S"), Some(0));
    assert_eq!(w.find("s"), None);
    assert_eq!(w.find(""), None);
    assert_eq!(w.find("SA"), None);
    assert!(matches!(
        w.handle(&mut auto, Message::Invoke("s".to_string(), Action::LeftClick)),
        Reply::NoSuchHint
    ));
    assert!(auto.invoked.borrow().is_empty());
}

#[test]
fn a_hint_of_the_scan_before_finds_nothing() {
    let mut auto = Script::new(vec![
        vec![element("Save", 1), element("Cancel", 2), element("Quit", 3)],
        vec![element("Open", 4), element("Quit", 5)],
    ]);
    let mut w = Worker::new();
    let first = hints_of(w.handle(&mut auto, Message::RequestHints));
    assert_eq!(labels(&first), vec!["S", "C", "Q"]);
    let second = hints_of(w.handle(&mut auto, Message::RequestHints));
    assert_eq!(labels(&second), vec!["O", "Q"]);

    for stale in ["S", "C"] {
        assert!(matches!(
            w.handle(&mut auto, Message::Invoke(stale.to_string(), Action::LeftClick)),
            Reply::NoSuchHint
        ));
    }
    assert!(auto.invoked.borrow().is_empty());
    assert_eq!(labels(&w.all_hints()), vec!["O", "Q"]);

    assert!(matches!(
        w.handle(&mut auto, Message::Invoke("Q".to_string(), Action::LeftClick)),
        Reply::Invoked(1)
    ));
    assert_eq!(*auto.invoked.borrow(), vec![("Quit".to_string(), 5, Action::LeftClick)]);
    assert!(results_of(w.handle(&mut auto, Message::UpdateInput("save".to_string()))).is_empty());
}

#[test]
fn a_scan_that_finds_nothing_shows_nothing() {
    let mut auto = Script::new(vec![vec![element("Save", 1)], vec![]]);
    let mut w = Worker::new();
    w.handle(&mut auto, Message::RequestHints);
    assert!(hints_of(w.handle(&mut auto, Message::RequestHints)).is_empty());
    assert!(w.all_hints().is_empty());
    assert_eq!(w.find("S"), None);
}

#[test]
fn a_scan_with_more_elements_than_labels_shows_nothing() {
    let many: Vec<UiElement> = (0..18279).map(|i| element("x", i)).collect();
    let mut auto = Script::new(vec![vec![element("Save", 1)], many]);
    let mut w = Worker::new();
    w.handle(&mut auto, Message::RequestHints);
    assert!(matches!(w.handle(&mut auto, Message::RequestHints), Reply::Exhausted));
    assert!(w.all_hints().is_empty());
    assert_eq!(w.find("S"), None);
    assert_eq!(w.find("X"), None);
}

#[test]
fn loading_a_scan_by_hand() {
    let mut w = Worker::new();
    assert_eq!(w.load(vec![element("Save", 1), element("Sort", 2)]), Ok(()));
    assert_eq!(labels(&w.all_hints()), vec!["S", "A"]);
    assert_eq!(w.find("A"), Some(1));
    assert_eq!(w.load(vec![]), Ok(()));
    assert!(w.all_hints().is_empty());
    let many: Vec<UiElement> = (0..18279).map(|i| element("", i)).collect();
    assert_eq!(w.load(many), Err(keyhint::labels::HintError::Exhausted));
    assert!(w.all_hints().is_empty());
}
