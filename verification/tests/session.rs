use lienzo::session::{guard_step, remember, Action, Event, Guard, Reply, RECENT_MAX};

fn names(v: &[String]) -> Vec<&str> {
    v.iter().map(|s| s.as_str()).collect()
}

#[test]
fn the_newest_file_goes_first_without_repeats() {
    let mut r: Vec<String> = Vec::new();
    remember(&mut r, "a.png".to_string());
    remember(&mut r, "b.png".to_string());
    remember(&mut r, "a.png".to_string());
    assert_eq!(names(&r), vec!["a.png", "b.png"]);
}

#[test]
fn the_recent_list_keeps_eight() {
    let mut r: Vec<String> = Vec::new();
    for i in 0..12 {
        remember(&mut r, format!("{i}.png"));
    }
    assert_eq!(r.len(), RECENT_MAX);
    assert_eq!(r[0], "11.png");
    assert_eq!(r[7], "4.png");
}

#[test]
fn a_clean_document_goes_on_without_asking() {
    assert_eq!(guard_step(Guard::Idle, Event::Request { unsaved: false }), (Guard::Idle, Action::Perform));
}

#[test]
fn unsaved_changes_are_asked_about() {
    let (g, a) = guard_step(Guard::Idle, Event::Request { unsaved: true });
    assert_eq!((g, a), (Guard::Asking, Action::Ask));
    assert_eq!(guard_step(g, Event::Answer(Reply::Discard)), (Guard::Idle, Action::Perform));
    assert_eq!(guard_step(g, Event::Answer(Reply::Cancel)), (Guard::Idle, Action::Drop));
    assert_eq!(guard_step(g, Event::Answer(Reply::Save)), (Guard::Asking, Action::Save));
}

#[test]
fn a_failed_save_keeps_the_question() {
    assert_eq!(guard_step(Guard::Asking, Event::Saved { ok: false }), (Guard::Asking, Action::Wait));
    assert_eq!(guard_step(Guard::Asking, Event::Saved { ok: true }), (Guard::Idle, Action::Perform));
}
