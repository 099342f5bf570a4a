use taskdoc::codec::load_document;
use taskdoc::codec::parse_document;
use taskdoc::codec::save_document;
use taskdoc::store::setup;
use taskdoc::types::DocError;
use taskdoc::types::Task;
use taskdoc::types::TaskFolder;

fn task(id: &str, text: &str, colour: &str, completed: bool) -> Task {
    Task { text: text.to_string(), colour: colour.to_string(), completed, id: id.to_string() }
}

fn folder(id: &str, name: &str, tasks: Vec<Task>) -> TaskFolder {
    TaskFolder {
        id: id.to_string(),
        name: name.to_string(),
        colour: "#112233".to_string(),
        visible: true,
        tasks,
        width: 300,
        height: 200,
        x: -10,
        y: 40,
        zindex: 2,
    }
}

#[test]
fn save_empty_document_is_empty_array() {
    let doc: Vec<TaskFolder> = Vec::new();
    assert_eq!(save_document(&doc), "[]");
}

#[test]
fn save_writes_canonical_json() {
    let doc = vec![folder("f1", "Inbox", vec![task("t1", "buy milk", "red", false)])];
    let text = save_document(&doc);
    assert_eq!(
        text,
        "[{\"id\":\"f1\",\"name\":\"Inbox\",\"colour\":\"#112233\",\"visible\":true,\
         \"tasks\":[{\"text\":\"buy milk\",\"colour\":\"red\",\"completed\":false,\"id\":\"t1\"}],\
         \"width\":300,\"height\":200,\"x\":-10,\"y\":40,\"zindex\":2}]"
    );
}

#[test]
fn load_after_save_restores_the_document() {
    let doc = vec![
        folder(
            "f1",
            "quoted \"name\" with \\ backslash",
            vec![task("t1", "first", "red", true), task("t2", "second", "blue", false)],
        ),
        folder("f2", "empty", vec![]),
    ];
    let text = save_document(&doc);
    let back = load_document(&text).expect("canonical text must parse");
    assert_eq!(back, doc);
    assert_eq!(save_document(&back), text);
}

#[test]
fn load_save_load_yields_equal_document() {
    let text = "[{\"id\":\"a\",\"name\":\"n\",\"colour\":\"c\",\"visible\":false,\"tasks\":[],\
                \"width\":0,\"height\":0,\"x\":0,\"y\":0,\"zindex\":0}]";
    let once = load_document(text).expect("parses");
    let twice = load_document(&save_document(&once)).expect("round trip parses");
    assert_eq!(once, twice);
}

#[test]
fn extreme_integers_round_trip() {
    let mut f = folder("f", "n", vec![]);
    f.width = i32::MAX;
    f.height = i32::MIN;
    f.x = 0;
    f.y = -1;
    f.zindex = 1000000000;
    let doc = vec![f];
    let back = load_document(&save_document(&doc)).expect("parses");
    assert_eq!(back, doc);
}

#[test]
fn garbage_fails_closed_with_parse_error() {
    assert_eq!(load_document(""), Err(DocError::ParseError));
    assert_eq!(load_document("not json"), Err(DocError::ParseError));
    assert_eq!(load_document("["), Err(DocError::ParseError));
    assert_eq!(load_document("[}"), Err(DocError::ParseError));
    assert_eq!(load_document("[] trailing"), Err(DocError::ParseError));
    assert_eq!(
        load_document("[{\"id\":\"f\",\"name\":\"n\",\"colour\":\"c\",\"visible\":true,\
                       \"tasks\":[],\"width\":9999999999,\"height\":0,\"x\":0,\"y\":0,\
                       \"zindex\":0}]"),
        Err(DocError::ParseError)
    );
}

#[test]
fn parse_document_accepts_character_buffers() {
    let chars: Vec<char> = "[]".chars().collect();
    let doc = parse_document(&chars).expect("empty array parses");
    assert!(doc.is_empty());
}

#[test]
fn setup_seeds_only_an_empty_store() {
    assert_eq!(setup(0), Some("[]".to_string()));
    assert_eq!(setup(2), None);
    assert_eq!(setup(12345), None);
}

#[test]
fn error_messages_are_stable() {
    assert_eq!(DocError::IoError.message(), "could not read or write the task store");
    assert_eq!(DocError::ParseError.message(), "the task store holds an invalid document");
    assert_eq!(DocError::NotFound.message(), "no folder or task with that id");
    assert_eq!(DocError::ValidationError.message(), "invalid arguments for this operation");
}
