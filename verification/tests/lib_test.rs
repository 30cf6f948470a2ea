use workingon::TaskError;
use workingon::codec::DecodeError;
use workingon::codec::decode_id;
use workingon::codec::encode_decode_round_trip;
use workingon::codec::encode_id;
use workingon::codec::encode_injective;
use workingon::editor::EditorStep;
use workingon::editor::comment_disclaimer;
use workingon::editor::get_editor;
use workingon::editor::parse_todo_buffer;
use workingon::editor::plan_round_trip;
use workingon::editor::render_todo_buffer;
use workingon::service::default_title;
use workingon::store::NewTodo;
use workingon::store::TaskStore;

fn new_todo(title: &str, notes: &str, created: i64) -> NewTodo {
    NewTodo { title: title.to_string(), notes: notes.to_string(), created }
}

#[test]
fn test_encode_id() {
    let encoded = encode_id(1).expect("encoding 1 failed");
    assert!(!encoded.is_empty());
    assert!(encoded.len() >= 5); // min_length is 5
    assert!(encoded
        .chars()
        .all(|c| "1234567890abcdefghijklmnopqrstuvwxyz".contains(c)));
}

#[test]
fn test_decode_id() {
    let original_id = 42;
    let encoded = encode_id(original_id).expect("encoding 42 failed");
    let decoded = decode_id(&encoded);
    assert_eq!(decoded, Ok(original_id));
}

#[test]
fn test_encode_decode_roundtrip() {
    let test_cases = vec![1, 100, 1000, 9999];
    for id in test_cases {
        let encoded = encode_id(id).expect("encoding failed");
        let decoded = decode_id(&encoded);
        assert_eq!(decoded, Ok(id));
    }
}

#[test]
fn test_decode_id_invalid_input() {
    assert_eq!(decode_id("invalid_id"), Err(DecodeError::Invalid));
}

#[test]
fn test_decode_id_non_canonical_input() {
    // In-alphabet strings shorter than the minimum encoded length: no id
    // encodes to them, so they do not correspond to any valid encoding.
    assert_eq!(decode_id("ab"), Err(DecodeError::Invalid));
    assert_eq!(decode_id("abcd"), Err(DecodeError::Invalid));
}

#[test]
fn test_decode_id_empty_input() {
    assert_eq!(decode_id(""), Err(DecodeError::Invalid));
}

#[test]
fn test_encode_deterministic() {
    assert_eq!(encode_id(5), encode_id(5));
    assert_eq!(encode_id(98765), encode_id(98765));
}

#[test]
fn test_encode_is_not_decimal() {
    // The codec shuffles: the encoding is not the number written out.
    let encoded = encode_id(42).expect("encoding 42 failed");
    assert_ne!(encoded, "42");
    assert_ne!(encoded, "00042");
}

#[test]
fn test_round_trip_law_runs() {
    for id in [0, 1, 7, 12345, u64::MAX] {
        assert_eq!(encode_decode_round_trip(id), Some(id));
    }
}

#[test]
fn test_injectivity_law_runs() {
    let (s1, s2) = encode_injective(3, 4).expect("encoding failed");
    assert_ne!(s1, s2);
}

#[test]
fn test_constants() {
    assert_eq!(
        comment_disclaimer(),
        "# This is a comment, lines starting with a # will be ignored"
    );
    assert!(!workingon::bin_name().is_empty());
    assert!(!workingon::default_editor().is_empty());
}

#[test]
fn test_get_version_str() {
    assert_eq!(workingon::get_version_str(), "version 0.1.0");
}

#[test]
fn test_get_editor_with_env_var() {
    let editor = get_editor(Some("nano".to_string()));
    assert_eq!(editor, "nano");
}

#[test]
fn test_get_editor_without_env_var() {
    let editor = get_editor(None);
    assert_eq!(editor, workingon::default_editor());
}

#[test]
fn test_get_editor_with_empty_env_var() {
    let editor = get_editor(Some(String::new()));
    assert_eq!(editor, "vi");
}

#[test]
fn test_create_temp_todo_file_with_editor_dash() {
    // The sentinel editor `-` hands the pair back unchanged and never asks
    // for a scratch file.
    match plan_round_trip("-", "Test Title".to_string(), "Test Notes".to_string()) {
        EditorStep::Done(title, notes) => {
            assert_eq!(title, "Test Title");
            assert_eq!(notes, "Test Notes");
        }
        EditorStep::Launch(_) => panic!("the sentinel editor must not launch"),
    }
}

#[test]
fn test_plan_round_trip_interactive() {
    match plan_round_trip("vi", "A title".to_string(), "Some notes".to_string()) {
        EditorStep::Done(_, _) => panic!("an interactive editor must launch"),
        EditorStep::Launch(buffer) => {
            assert_eq!(buffer, render_todo_buffer("A title", "Some notes"));
            // A pass-through editor leaves the buffer as rendered; parsing it
            // recovers the title and notes.
            let (title, notes) = parse_todo_buffer(&buffer).expect("rendered buffer has a title");
            assert_eq!(title, "A title");
            assert_eq!(notes, "Some notes");
        }
    }
}

#[test]
fn test_render_todo_buffer_layout() {
    let buffer = render_todo_buffer("T", "N");
    assert_eq!(
        buffer,
        "T\n\n# This is a comment, lines starting with a # will be ignored\nN\n\
         # The first non-comment line will assumed to be the title and every \
         other line will be saved as notes\n"
    );
}

#[test]
fn test_parse_todo_buffer() {
    let (title, notes) = parse_todo_buffer("Hi\n# comment\nBody1\n\nBody2\n")
        .expect("buffer has a title");
    assert_eq!(title, "Hi");
    assert_eq!(notes, "Body1\n\nBody2");
}

#[test]
fn test_parse_todo_buffer_empty_title() {
    assert_eq!(
        parse_todo_buffer("# only a comment\n  # and another\n"),
        Err(TaskError::EmptyTitle)
    );
    assert_eq!(parse_todo_buffer(""), Err(TaskError::EmptyTitle));
}

#[test]
fn test_default_title() {
    assert_eq!(default_title(Some("Given".to_string())), "Given");
    assert_eq!(default_title(None), "<title>");
}

#[test]
fn test_add_and_get_todo() {
    let mut store = TaskStore::new();
    let created = store.add_todo(&new_todo("Test TODO", "", 1_700_000_000));
    let encoded = encode_id(created.id).expect("encoding failed");
    let fetched = store.get_todo(&encoded).expect("task must be found");
    assert_eq!(fetched.title, "Test TODO");
    assert_eq!(fetched.notes, "");
    assert_eq!(fetched.created, 1_700_000_000);
    assert!(fetched.completed.is_none());
}

#[test]
fn test_complete_and_reopen_todo() {
    let mut store = TaskStore::new();
    let created = store.add_todo(&new_todo("Complete and Reopen Test TODO", "", 100));
    let encoded = encode_id(created.id).expect("encoding failed");

    assert!(store.get_todo(&encoded).unwrap().completed.is_none());

    store.complete_todo(&encoded, Some(250)).expect("task must be found");
    assert_eq!(store.get_todo(&encoded).unwrap().completed, Some(250));

    store.reopen_todo(&encoded).expect("task must be found");
    assert!(store.get_todo(&encoded).unwrap().completed.is_none());
}

#[test]
fn test_complete_todo_now() {
    let mut store = TaskStore::new();
    let created = store.add_todo(&new_todo("Complete Test TODO", "", 100));
    let encoded = encode_id(created.id).expect("encoding failed");
    store.complete_todo(&encoded, None).expect("task must be found");
    assert!(store.get_todo(&encoded).unwrap().completed.is_some());
}

#[test]
fn test_recomplete_overwrites_timestamp() {
    // Completing an already-completed task refreshes its timestamp: the
    // store overwrites unconditionally.
    let mut store = TaskStore::new();
    let created = store.add_todo(&new_todo("Twice", "", 100));
    let encoded = encode_id(created.id).expect("encoding failed");
    store.complete_todo(&encoded, Some(200)).unwrap();
    store.complete_todo(&encoded, Some(300)).unwrap();
    assert_eq!(store.get_todo(&encoded).unwrap().completed, Some(300));
}

#[test]
fn test_add_completed_immediately() {
    // A task added and completed in one step carries completed == created.
    let mut store = TaskStore::new();
    let created = store.add_todo(&new_todo("Done at birth", "", 123));
    let encoded = encode_id(created.id).expect("encoding failed");
    store.complete_todo(&encoded, Some(created.created)).unwrap();
    let fetched = store.get_todo(&encoded).unwrap();
    assert_eq!(fetched.completed, Some(fetched.created));
}

#[test]
fn test_edit_todo() {
    let mut store = TaskStore::new();
    let created = store.add_todo(&new_todo("Edit Test TODO", "old notes", 100));
    let encoded = encode_id(created.id).expect("encoding failed");

    // The sentinel editor hands title and notes back unchanged.
    let fetched = store.get_todo(&encoded).unwrap();
    match plan_round_trip("-", fetched.title, fetched.notes) {
        EditorStep::Done(title, notes) => {
            store.set_todo_title(&encoded, &title).unwrap();
            store.set_todo_notes(&encoded, &notes).unwrap();
        }
        EditorStep::Launch(_) => panic!("the sentinel editor must not launch"),
    }
    let after = store.get_todo(&encoded).unwrap();
    assert_eq!(after.title, "Edit Test TODO");
    assert_eq!(after.notes, "old notes");

    store.set_todo_title(&encoded, &"New title".to_string()).unwrap();
    store.set_todo_notes(&encoded, &"New notes".to_string()).unwrap();
    let edited = store.get_todo(&encoded).unwrap();
    assert_eq!(edited.title, "New title");
    assert_eq!(edited.notes, "New notes");
    assert_eq!(edited.created, 100);
    assert!(edited.completed.is_none());
}

#[test]
fn test_delete_todo() {
    let mut store = TaskStore::new();
    store.add_todo(&new_todo("Keep me", "", 1));
    let created = store.add_todo(&new_todo("Delete Test TODO", "", 2));
    let encoded = encode_id(created.id).expect("encoding failed");

    store.delete_todo(&encoded).expect("task must be found");

    assert!(matches!(store.get_todo(&encoded), Err(TaskError::NotFound)));
    let remaining = store.get_todos();
    assert_eq!(remaining.len(), 1);
    assert_eq!(remaining[0].title, "Keep me");
}

#[test]
fn test_delete_then_everything_not_found() {
    let mut store = TaskStore::new();
    let created = store.add_todo(&new_todo("Gone", "", 1));
    let encoded = encode_id(created.id).expect("encoding failed");
    store.delete_todo(&encoded).unwrap();

    assert!(matches!(store.get_todo(&encoded), Err(TaskError::NotFound)));
    assert_eq!(store.set_todo_title(&encoded, &"t".to_string()), Err(TaskError::NotFound));
    assert_eq!(store.set_todo_notes(&encoded, &"n".to_string()), Err(TaskError::NotFound));
    assert_eq!(store.complete_todo(&encoded, Some(9)), Err(TaskError::NotFound));
    assert_eq!(store.reopen_todo(&encoded), Err(TaskError::NotFound));
    assert_eq!(store.delete_todo(&encoded), Err(TaskError::NotFound));
}

#[test]
fn test_invalid_id_reported() {
    let mut store = TaskStore::new();
    store.add_todo(&new_todo("Present", "", 1));
    let bad = "not an id!".to_string();
    assert!(matches!(store.get_todo(&bad), Err(TaskError::InvalidId)));
    assert_eq!(store.complete_todo(&bad, Some(1)), Err(TaskError::InvalidId));
    assert_eq!(store.reopen_todo(&bad), Err(TaskError::InvalidId));
    assert_eq!(store.set_todo_title(&bad, &"t".to_string()), Err(TaskError::InvalidId));
    assert_eq!(store.set_todo_notes(&bad, &"n".to_string()), Err(TaskError::InvalidId));
    assert_eq!(store.delete_todo(&bad), Err(TaskError::InvalidId));
}

#[test]
fn test_list_todos_flags() {
    let mut store = TaskStore::new();
    let open_task = store.add_todo(&new_todo("Open TODO", "", 1));
    let done_task = store.add_todo(&new_todo("Completed TODO", "", 2));
    let done_encoded = encode_id(done_task.id).expect("encoding failed");
    store.complete_todo(&done_encoded, Some(3)).unwrap();

    // Default: only open tasks.
    let open_only = store.list_todos(None);
    assert_eq!(open_only.len(), 1);
    assert_eq!(open_only[0].title, "Open TODO");
    assert_eq!(open_only[0].id, open_task.id);

    // Some(true): only completed tasks.
    let completed_only = store.list_todos(Some(true));
    assert_eq!(completed_only.len(), 1);
    assert_eq!(completed_only[0].title, "Completed TODO");

    // Some(false): everything, by id descending.
    let all = store.list_todos(Some(false));
    assert_eq!(all.len(), 2);
    assert_eq!(all[0].title, "Completed TODO");
    assert_eq!(all[1].title, "Open TODO");
    assert!(all[0].id > all[1].id);
}

#[test]
fn test_list_todos_descending_order() {
    let mut store = TaskStore::new();
    store.add_todo(&new_todo("First TODO", "", 1));
    store.add_todo(&new_todo("Second TODO", "", 2));
    store.add_todo(&new_todo("Third TODO", "", 3));
    let listed = store.list_todos(Some(false));
    assert_eq!(listed.len(), 3);
    assert!(listed[0].id > listed[1].id && listed[1].id > listed[2].id);
    assert_eq!(listed[0].title, "Third TODO");
    assert_eq!(listed[2].title, "First TODO");
}

#[test]
fn test_ids_never_reused_after_delete() {
    let mut store = TaskStore::new();
    let first = store.add_todo(&new_todo("First", "", 1));
    let encoded = encode_id(first.id).expect("encoding failed");
    store.delete_todo(&encoded).unwrap();
    let second = store.add_todo(&new_todo("Second", "", 2));
    assert!(second.id > first.id);
}

#[test]
fn test_reopen_todo_already_uncompleted() {
    let mut store = TaskStore::new();
    let created = store.add_todo(&new_todo("Reopen Uncompleted Test TODO", "", 1));
    let encoded = encode_id(created.id).expect("encoding failed");
    assert!(store.get_todo(&encoded).unwrap().completed.is_none());
    store.reopen_todo(&encoded).expect("task must be found");
    assert!(store.get_todo(&encoded).unwrap().completed.is_none());
}
