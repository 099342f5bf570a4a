use taskdoc::codec::load_document;
use taskdoc::codec::save_document;
use taskdoc::ops::change_folder_zindex;
use taskdoc::ops::complete_task;
use taskdoc::ops::create_folder;
use taskdoc::ops::create_task;
use taskdoc::ops::delete_folder;
use taskdoc::ops::delete_task;
use taskdoc::ops::duplicate_folder;
use taskdoc::ops::duplicate_task;
use taskdoc::ops::edit_folder;
use taskdoc::ops::edit_task;
use taskdoc::ops::find_folder_index;
use taskdoc::ops::find_task_index;
use taskdoc::ops::move_folder;
use taskdoc::ops::move_task_order;
use taskdoc::ops::move_task_to_folder;
use taskdoc::ops::resize_folder;
use taskdoc::ops::toggle_folder_visibility;
use taskdoc::types::DocError;
use taskdoc::types::Task;
use taskdoc::types::TaskFolder;

fn task(id: &str, text: &str, completed: bool) -> Task {
    Task { text: text.to_string(), colour: "grey".to_string(), completed, id: id.to_string() }
}

fn folder(id: &str, tasks: Vec<Task>) -> TaskFolder {
    TaskFolder {
        id: id.to_string(),
        name: "folder".to_string(),
        colour: "#fff".to_string(),
        visible: true,
        tasks,
        width: 100,
        height: 80,
        x: 0,
        y: 0,
        zindex: 1,
    }
}

#[test]
fn create_folder_appends_a_visible_empty_folder() {
    let mut doc: Vec<TaskFolder> = Vec::new();
    create_folder(
        &mut doc,
        "Inbox".to_string(),
        "f1".to_string(),
        "#abc".to_string(),
        320,
        240,
        5,
        6,
        7,
    );
    assert_eq!(doc.len(), 1);
    assert_eq!(doc[0].id, "f1");
    assert_eq!(doc[0].name, "Inbox");
    assert!(doc[0].visible);
    assert!(doc[0].tasks.is_empty());
    assert_eq!((doc[0].width, doc[0].height, doc[0].x, doc[0].y, doc[0].zindex), (320, 240, 5, 6, 7));
}

#[test]
fn create_task_appends_and_reports_missing_folder() {
    let mut doc = vec![folder("f1", vec![])];
    assert_eq!(create_task(&mut doc, task("t1", "a", false), "f1".to_string()), Ok(()));
    assert_eq!(doc[0].tasks.len(), 1);
    let before = doc.clone();
    assert_eq!(
        create_task(&mut doc, task("t2", "b", false), "nope".to_string()),
        Err(DocError::NotFound)
    );
    assert_eq!(doc, before);
}

#[test]
fn complete_task_twice_restores_the_flag() {
    let mut doc = vec![folder("f1", vec![task("t1", "a", false)])];
    assert_eq!(complete_task(&mut doc, "t1".to_string(), "f1".to_string()), Ok(()));
    assert!(doc[0].tasks[0].completed);
    assert_eq!(complete_task(&mut doc, "t1".to_string(), "f1".to_string()), Ok(()));
    assert!(!doc[0].tasks[0].completed);
}

#[test]
fn toggle_folder_visibility_twice_restores_the_flag() {
    let mut doc = vec![folder("f1", vec![])];
    assert_eq!(toggle_folder_visibility(&mut doc, "f1".to_string()), Ok(()));
    assert!(!doc[0].visible);
    assert_eq!(toggle_folder_visibility(&mut doc, "f1".to_string()), Ok(()));
    assert!(doc[0].visible);
    assert_eq!(toggle_folder_visibility(&mut doc, "f9".to_string()), Err(DocError::NotFound));
}

#[test]
fn delete_task_on_absent_id_is_a_no_op() {
    let mut doc = vec![folder("f1", vec![task("t1", "a", false)])];
    let before = doc.clone();
    assert_eq!(delete_task(&mut doc, "missing".to_string(), "f1".to_string()), Ok(()));
    assert_eq!(doc, before);
    assert_eq!(delete_task(&mut doc, "t1".to_string(), "f1".to_string()), Ok(()));
    assert!(doc[0].tasks.is_empty());
}

#[test]
fn delete_folder_on_absent_id_is_a_no_op() {
    let mut doc = vec![folder("f1", vec![task("t1", "a", false)]), folder("f2", vec![])];
    let before = doc.clone();
    delete_folder(&mut doc, "missing".to_string());
    assert_eq!(doc, before);
    delete_folder(&mut doc, "f1".to_string());
    assert_eq!(doc.len(), 1);
    assert_eq!(doc[0].id, "f2");
}

#[test]
fn duplicate_task_appends_the_copy_last() {
    let mut doc = vec![folder("f1", vec![task("t1", "a", true), task("t2", "b", false)])];
    assert_eq!(
        duplicate_task(&mut doc, "t1".to_string(), "t3".to_string(), "f1".to_string()),
        Ok(())
    );
    assert_eq!(doc[0].tasks.len(), 3);
    assert_eq!(doc[0].tasks[2].id, "t3");
    assert_eq!(doc[0].tasks[2].text, "a");
    assert!(doc[0].tasks[2].completed);
    assert_eq!(
        duplicate_task(&mut doc, "zz".to_string(), "t4".to_string(), "f1".to_string()),
        Err(DocError::NotFound)
    );
}

#[test]
fn duplicate_folder_requires_one_id_per_task() {
    let mut doc = vec![folder("f1", vec![task("t1", "a", false), task("t2", "b", true)])];
    let before = doc.clone();
    assert_eq!(
        duplicate_folder(
            &mut doc,
            "f1".to_string(),
            "f2".to_string(),
            vec!["n1".to_string()],
        ),
        Err(DocError::ValidationError)
    );
    assert_eq!(doc, before);
    assert_eq!(
        duplicate_folder(
            &mut doc,
            "f1".to_string(),
            "f2".to_string(),
            vec!["n1".to_string(), "n2".to_string()],
        ),
        Ok(())
    );
    assert_eq!(doc.len(), 2);
    assert_eq!(doc[1].id, "f2");
    assert_eq!(doc[1].tasks.len(), 2);
    assert_eq!(doc[1].tasks[0].id, "n1");
    assert_eq!(doc[1].tasks[0].text, "a");
    assert_eq!(doc[1].tasks[1].id, "n2");
    assert_eq!(doc[1].tasks[1].text, "b");
    assert!(doc[1].tasks[1].completed);
}

#[test]
fn duplicate_folder_of_missing_folder_fails() {
    let mut doc = vec![folder("f1", vec![])];
    assert_eq!(
        duplicate_folder(&mut doc, "zz".to_string(), "f2".to_string(), vec![]),
        Err(DocError::NotFound)
    );
}

#[test]
fn edit_task_replaces_text_and_colour() {
    let mut doc = vec![folder("f1", vec![task("t1", "a", false)])];
    assert_eq!(
        edit_task(
            &mut doc,
            "t1".to_string(),
            "f1".to_string(),
            "new text".to_string(),
            "green".to_string(),
        ),
        Ok(())
    );
    assert_eq!(doc[0].tasks[0].text, "new text");
    assert_eq!(doc[0].tasks[0].colour, "green");
    assert_eq!(
        edit_task(
            &mut doc,
            "zz".to_string(),
            "f1".to_string(),
            "x".to_string(),
            "y".to_string(),
        ),
        Err(DocError::NotFound)
    );
}

#[test]
fn folder_edits_change_only_their_fields() {
    let mut doc = vec![folder("f1", vec![])];
    assert_eq!(
        edit_folder(&mut doc, "f1".to_string(), "renamed".to_string(), "#000".to_string()),
        Ok(())
    );
    assert_eq!(doc[0].name, "renamed");
    assert_eq!(doc[0].colour, "#000");
    assert_eq!(resize_folder(&mut doc, "f1".to_string(), 640, 480), Ok(()));
    assert_eq!((doc[0].width, doc[0].height), (640, 480));
    assert_eq!(move_folder(&mut doc, "f1".to_string(), -5, 77), Ok(()));
    assert_eq!((doc[0].x, doc[0].y), (-5, 77));
    assert_eq!(change_folder_zindex(&mut doc, "f1".to_string(), 42), Ok(()));
    assert_eq!(doc[0].zindex, 42);
    assert_eq!(resize_folder(&mut doc, "zz".to_string(), 1, 1), Err(DocError::NotFound));
}

#[test]
fn move_task_order_clamps_a_large_index_to_the_end() {
    let mut doc = vec![folder(
        "f1",
        vec![task("t1", "a", false), task("t2", "b", false), task("t3", "c", false)],
    )];
    assert_eq!(move_task_order(&mut doc, "t1".to_string(), "f1".to_string(), 99), Ok(()));
    let ids: Vec<&str> = doc[0].tasks.iter().map(|t| t.id.as_str()).collect();
    assert_eq!(ids, ["t2", "t3", "t1"]);
    assert_eq!(move_task_order(&mut doc, "t1".to_string(), "f1".to_string(), 0), Ok(()));
    let ids: Vec<&str> = doc[0].tasks.iter().map(|t| t.id.as_str()).collect();
    assert_eq!(ids, ["t1", "t2", "t3"]);
    assert_eq!(
        move_task_order(&mut doc, "zz".to_string(), "f1".to_string(), 0),
        Err(DocError::NotFound)
    );
}

#[test]
fn move_task_to_folder_appends_at_the_destination() {
    let mut doc = vec![folder("f1", vec![task("t1", "a", false)]), folder("f2", vec![task("t9", "z", false)])];
    assert_eq!(
        move_task_to_folder(&mut doc, "t1".to_string(), "f1".to_string(), "f2".to_string()),
        Ok(())
    );
    assert!(doc[0].tasks.is_empty());
    assert_eq!(doc[1].tasks.len(), 2);
    assert_eq!(doc[1].tasks[1].id, "t1");
}

#[test]
fn completed_flag_survives_a_reload_and_a_failed_move_changes_nothing() {
    let mut doc = vec![folder("f1", vec![task("t1", "a", false)])];
    assert_eq!(complete_task(&mut doc, "t1".to_string(), "f1".to_string()), Ok(()));
    let reloaded = load_document(&save_document(&doc)).expect("round trip parses");
    assert!(reloaded[0].tasks[0].completed);

    let mut doc = reloaded;
    let before = doc.clone();
    assert_eq!(
        move_task_to_folder(&mut doc, "t1".to_string(), "f1".to_string(), "f2".to_string()),
        Err(DocError::NotFound)
    );
    assert_eq!(doc, before);
    let reloaded = load_document(&save_document(&doc)).expect("round trip parses");
    assert_eq!(reloaded[0].tasks[0].id, "t1");
    assert_eq!(reloaded[0].tasks[0].text, "a");
    assert!(reloaded[0].tasks[0].completed);
}

#[test]
fn lookups_find_the_first_match() {
    let doc = vec![folder("f1", vec![task("t1", "a", false), task("t2", "b", false)])];
    assert_eq!(find_folder_index(&doc, &"f1".to_string()), Some(0));
    assert_eq!(find_folder_index(&doc, &"zz".to_string()), None);
    assert_eq!(find_task_index(&doc[0].tasks, &"t2".to_string()), Some(1));
    assert_eq!(find_task_index(&doc[0].tasks, &"zz".to_string()), None);
}
