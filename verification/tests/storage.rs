use jyn::jot::storage::{find_task_file, items_dir, jot_dir, next_id, task_file_path};

#[test]
fn next_id_first_in_empty_dir() {
    let id = next_id(&[], "Buy milk").unwrap();
    assert!(id.starts_with("TODO-0001-"), "got: {id}");
    assert_eq!(id.len(), 12);
}

#[test]
fn next_id_increments_after_save() {
    let names = ["TODO-0001-A3-first.yaml"];
    let id2 = next_id(&names, "Second").unwrap();
    assert!(id2.starts_with("TODO-0002-"), "got: {id2}");
}

#[test]
fn find_task_file_short_form() {
    let id = next_id(&[], "Short form").unwrap();
    let file = format!("{id}-short-form.yaml");
    let short = &id[..9]; // "TODO-0001"
    let found = find_task_file(&[file.as_str()], short).unwrap();
    assert!(found.starts_with(short));
}

#[test]
fn find_task_file_missing_errors() {
    let err = find_task_file(&[], "TODO-9999");
    assert!(err.is_err());
}

#[test]
fn next_id_uses_the_greatest_counter_and_the_title_hash() {
    let names = [
        "TODO-0001-7F-a.yaml",
        "TODO-00a1-EA-b.yaml",
        "notes.txt",
        "TODO-0010-00-c.yaml",
    ];
    let id = next_id(&names, "Buy milk").unwrap();
    let first = next_id(&[], "Buy milk").unwrap();
    assert!(id.starts_with("TODO-00A2-"), "got: {id}");
    assert_eq!(&id[10..], &first[10..]); // the same title hash
    let suffix = &id[10..];
    assert!(suffix.chars().all(|c| c.is_ascii_hexdigit() && !c.is_ascii_lowercase()));
}

#[test]
fn next_id_skips_names_that_are_not_counters() {
    let names = ["TODO-XYZW-00-a.yaml", "TODO-12", "TODO-+00F-11.yaml", "todo-0099-00.yaml"];
    // "+00F" reads as 0xF (u16::from_str_radix accepts a sign); lowercase
    // acronyms are not counted.
    let id = next_id(&names, "x").unwrap();
    assert!(id.starts_with("TODO-0010-"), "got: {id}");
}

#[test]
fn next_id_space_exhausted() {
    let err = next_id(&["TODO-FFFF-00-last.yaml"], "more").unwrap_err();
    assert_eq!(err, "TODO ID space exhausted (max TODO-FFFF)");
}

#[test]
fn find_task_file_accepts_every_form_and_reports_ambiguity() {
    let names = [
        "TODO-00A1-EA-buy-milk.yaml",
        "TODO-00A1-7F-call-mom.yaml",
        "TODO-0002-11-water.yaml",
    ];
    assert_eq!(find_task_file(&names, "#2").unwrap(), "TODO-0002-11-water.yaml");
    assert_eq!(find_task_file(&names, "a1-ea").unwrap(), "TODO-00A1-EA-buy-milk.yaml");
    assert_eq!(find_task_file(&names, "TODO-00A1-7F").unwrap(), "TODO-00A1-7F-call-mom.yaml");
    assert_eq!(
        find_task_file(&names, "#A1").unwrap_err(),
        "ambiguous ID #A1: 2 matches"
    );
    assert_eq!(find_task_file(&names, "#3").unwrap_err(), "task not found: #3");
}

#[test]
fn workspace_paths() {
    assert_eq!(jot_dir("/home/me/work"), "/home/me/work/.jot");
    assert_eq!(items_dir("/home/me/work"), "/home/me/work/.jot/items");
    let p = task_file_path("/w", "TODO-0001-7F", "Buy milk");
    assert_eq!(p, "/w/.jot/items/TODO-0001-7F-buy-milk.yaml");
}

#[test]
fn a_saved_file_is_found_by_its_full_and_short_ids() {
    let path = task_file_path("/w", "TODO-00A1-EA", "Buy milk");
    let name = path.rsplit('/').next().unwrap().to_string();
    let names = [name.as_str(), "TODO-00A2-7F-other.yaml"];
    assert_eq!(find_task_file(&names, "TODO-00A1-EA"), Ok(name.clone()));
    assert_eq!(find_task_file(&names, "#A1"), Ok(name.clone()));
    assert_eq!(find_task_file(&names, "a1"), Ok(name));
}

#[test]
fn a_saved_file_with_a_non_ascii_title_is_found_by_its_ids() {
    let path = task_file_path("/w", "TODO-00A1-EA", "Über Äpfel");
    let name = path.rsplit('/').next().unwrap().to_string();
    assert!(name.starts_with("TODO-00A1-EA-"));
    let names = [name.as_str(), "TODO-00A2-7F-other.yaml"];
    assert_eq!(find_task_file(&names, "TODO-00A1-EA"), Ok(name.clone()));
    assert_eq!(find_task_file(&names, "#A1"), Ok(name));
}
