use monocle::viewer::{is_change_to, window_label, window_title, ChangeKind, OpenAction, Windows};

#[test]
fn first_opened_file_goes_to_the_main_window_once() {
    let mut w = Windows::new();
    assert!(w.main_available());
    assert!(matches!(w.open_file("/d/a.md"), OpenAction::ShowInMain));
    assert!(!w.main_available());
    assert_eq!(w.take_pending("main").as_deref(), Some("/d/a.md"));
    assert_eq!(w.take_pending("main"), None);
}

#[test]
fn later_files_get_numbered_windows() {
    let mut w = Windows::new();
    w.mark_occupied("main");
    match w.open_file("/d/b.md") {
        OpenAction::NewWindow(spec) => {
            assert_eq!(spec.label, "monocle-0");
            assert_eq!(spec.title, "Monocle — b.md");
        }
        OpenAction::ShowInMain => panic!("main is occupied"),
    }
    let second = w.new_window("/d/c.md");
    assert_eq!(second.label, "monocle-1");
    assert_eq!(w.take_pending("monocle-1").as_deref(), Some("/d/c.md"));
    assert_eq!(w.take_pending("monocle-0").as_deref(), Some("/d/b.md"));
    assert_eq!(w.take_pending("monocle-0"), None);
}

#[test]
fn other_windows_do_not_occupy_main() {
    let mut w = Windows::new();
    w.mark_occupied("monocle-3");
    assert!(w.main_available());
    assert!(matches!(w.open_file("/x.md"), OpenAction::ShowInMain));
    // a second file before main asked replaces the pending one
    let mut w2 = Windows::new();
    w2.mark_occupied("main");
    assert!(matches!(w2.open_file("/y.md"), OpenAction::NewWindow(_)));
}

#[test]
fn labels_and_titles() {
    assert_eq!(window_label(0), "monocle-0");
    assert_eq!(window_label(42), "monocle-42");
    assert_eq!(window_label(u32::MAX), "monocle-4294967295");
    assert_eq!(window_title("/a/b/notes.md"), "Monocle — notes.md");
    assert_eq!(window_title("/"), "Monocle — ");
}

#[test]
fn only_changes_to_the_watched_file_count() {
    let target = b"a.md".to_vec();
    let names = vec![None, Some(b"b.md".to_vec()), Some(b"a.md".to_vec())];
    assert!(is_change_to(&ChangeKind::Modify, &names, &target));
    assert!(is_change_to(&ChangeKind::Create, &names, &target));
    assert!(!is_change_to(&ChangeKind::Other, &names, &target));
    assert!(!is_change_to(&ChangeKind::Modify, &vec![Some(b"b.md".to_vec())], &target));
    assert!(!is_change_to(&ChangeKind::Modify, &vec![], &target));
}
