use didi::{Diary, Entry, StoreError};
use sha2::Digest;

fn strings(words: &[&str]) -> Vec<String> {
    words.iter().map(|w| w.to_string()).collect()
}

fn empty_diary() -> Diary {
    match Diary::create(false) {
        Ok(diary) => diary,
        Err(e) => panic!("a free place must give a diary, not {:?}", e),
    }
}

fn row(id: i64, title: &str, keywords: &str, hidden: bool) -> Entry {
    Entry::from_row(
        id,
        vec![id as u8; 32],
        "2021-03-04T12:00:00+00:00".to_string(),
        keywords,
        title.to_string(),
        "text".to_string(),
        hidden,
    )
}

fn opened(rows: Vec<Entry>) -> Diary {
    match Diary::open(Some(rows)) {
        Ok(diary) => diary,
        Err(e) => panic!("rows in storage order must open, not {:?}", e),
    }
}

#[test]
fn create_gives_an_empty_diary() {
    let diary = empty_diary();
    assert_eq!(diary.len(), 0);
    assert_eq!(diary.last_id(), 0);
    assert!(diary.list_all().is_empty());
}

#[test]
fn create_on_an_occupied_place_fails() {
    assert!(matches!(Diary::create(true), Err(StoreError::AlreadyExists)));
}

#[test]
fn open_without_a_table_fails() {
    assert!(matches!(Diary::open(None), Err(StoreError::NotFound)));
}

#[test]
fn open_keeps_the_rows_in_order() {
    let diary = opened(vec![row(2, "a", "x", false), row(5, "b", "y;z", true)]);
    let all = diary.list_all();
    assert_eq!(all.len(), 2);
    assert_eq!(all[0].id, 2);
    assert_eq!(all[0].title, "a");
    assert_eq!(all[0].keywords, strings(&["x"]));
    assert!(!all[0].hidden);
    assert_eq!(all[1].id, 5);
    assert_eq!(all[1].keywords, strings(&["y", "z"]));
    assert!(all[1].hidden);
    assert_eq!(all[1].hash, vec![5u8; 32]);
    assert_eq!(diary.last_id(), 5);
}

#[test]
fn open_refuses_rows_out_of_order() {
    assert!(matches!(
        Diary::open(Some(vec![row(2, "a", "x", false), row(1, "b", "y", false)])),
        Err(StoreError::Storage)
    ));
}

#[test]
fn open_refuses_a_number_given_twice() {
    assert!(matches!(
        Diary::open(Some(vec![row(3, "a", "x", false), row(3, "b", "y", false)])),
        Err(StoreError::Storage)
    ));
}

#[test]
fn open_refuses_a_number_that_is_not_positive() {
    assert!(matches!(Diary::open(Some(vec![row(0, "a", "x", false)])), Err(StoreError::Storage)));
    assert!(matches!(Diary::open(Some(vec![row(-4, "a", "x", false)])), Err(StoreError::Storage)));
}

#[test]
fn open_with_no_rows_gives_an_empty_diary() {
    let diary = opened(Vec::new());
    assert_eq!(diary.len(), 0);
    assert_eq!(diary.last_id(), 0);
}

#[test]
fn add_then_list_all_shows_one_new_entry() {
    let mut diary = opened(vec![row(1, "old", "k", false)]);
    let id = diary.add_dated(
        strings(&["tea", "cat", "tea", "apple", "cat"]),
        "My day".to_string(),
        "It rained. ".to_string(),
        "2021-03-04T12:00:00+01:00".to_string(),
    );
    assert_eq!(id, Ok(2));
    let all = diary.list_all();
    assert_eq!(all.len(), 2);
    assert_eq!(all[0].id, 1);
    assert_eq!(all[0].title, "old");
    let e = &all[1];
    assert_eq!(e.id, 2);
    assert_eq!(e.keywords, strings(&["apple", "cat", "tea"]));
    assert_eq!(e.title, "My day");
    assert_eq!(e.content, "It rained. ");
    assert_eq!(e.date, "2021-03-04T12:00:00+01:00");
    assert!(!e.hidden);
}

#[test]
fn add_takes_the_fingerprint_of_the_stored_texts() {
    let mut diary = empty_diary();
    let id = diary.add_dated(
        strings(&["b", "a"]),
        "T".to_string(),
        "C".to_string(),
        "D".to_string(),
    );
    assert_eq!(id, Ok(1));
    let e = diary.get(1).expect("the entry just written");
    let mut hasher = sha2::Sha256::new();
    hasher.update("a;b");
    hasher.update("T");
    hasher.update("C");
    hasher.update("D");
    assert_eq!(e.hash, hasher.finalize().to_vec());
    assert_eq!(e.hash.len(), 32);
}

#[test]
fn equal_texts_at_equal_times_have_equal_fingerprints() {
    let mut one = empty_diary();
    let mut two = empty_diary();
    one.add_dated(strings(&["x", "y"]), "t".into(), "c".into(), "d".into()).unwrap();
    two.add_dated(strings(&["y", "x", "y"]), "t".into(), "c".into(), "d".into()).unwrap();
    assert_eq!(one.get(1).unwrap().hash, two.get(1).unwrap().hash);
    let mut three = empty_diary();
    three.add_dated(strings(&["x", "y"]), "t".into(), "c".into(), "e".into()).unwrap();
    assert_ne!(one.get(1).unwrap().hash, three.get(1).unwrap().hash);
}

#[test]
fn add_without_keywords_keeps_an_empty_list() {
    let mut diary = empty_diary();
    diary.add_dated(Vec::new(), "t".into(), "c".into(), "d".into()).unwrap();
    assert!(diary.get(1).unwrap().keywords.is_empty());
    assert_eq!(diary.get(1).unwrap().keywords_text(), "");
}

#[test]
fn add_stamps_the_entry_with_the_current_time() {
    let mut diary = empty_diary();
    let before = chrono::Local::now();
    let id = diary.add(strings(&["now"]), "t".into(), "c".into());
    let after = chrono::Local::now();
    assert_eq!(id, Ok(1));
    let e = diary.get(1).unwrap();
    let at = chrono::DateTime::parse_from_rfc3339(&e.date).expect("an RFC 3339 timestamp");
    assert!(before <= at && at <= after);
    assert_eq!(e.keywords, strings(&["now"]));
    assert!(!e.hidden);
}

#[test]
fn ids_rise_and_never_repeat() {
    let mut diary = empty_diary();
    let mut seen = Vec::new();
    for i in 0..5 {
        let id = diary
            .add_dated(strings(&["k"]), format!("t{}", i), "c".into(), "d".into())
            .unwrap();
        assert!(seen.iter().all(|s| *s < id));
        seen.push(id);
    }
    assert_eq!(seen, vec![1, 2, 3, 4, 5]);
    let listed: Vec<i64> = diary.list_all().iter().map(|e| e.id).collect();
    assert_eq!(listed, seen);
}

#[test]
fn ids_go_on_after_the_last_row() {
    let mut diary = opened(vec![row(3, "a", "x", false), row(8, "b", "y", false)]);
    let id = diary.add_dated(strings(&["k"]), "t".into(), "c".into(), "d".into());
    assert_eq!(id, Ok(9));
    diary.set_hidden(vec![9], true);
    let id = diary.add_dated(strings(&["k"]), "t".into(), "c".into(), "d".into());
    assert_eq!(id, Ok(10));
}

#[test]
fn add_fails_when_no_number_is_left() {
    let mut diary = opened(vec![row(i64::MAX, "last", "x", false)]);
    let id = diary.add_dated(strings(&["k"]), "t".into(), "c".into(), "d".into());
    assert_eq!(id, Err(StoreError::Storage));
    assert_eq!(diary.len(), 1);
    assert_eq!(diary.last_id(), i64::MAX);
    let id = diary.add(strings(&["k"]), "t".into(), "c".into());
    assert_eq!(id, Err(StoreError::Storage));
    assert_eq!(diary.len(), 1);
}

#[test]
fn set_hidden_flips_the_flag_and_counts_the_row() {
    let mut diary = opened(vec![row(4, "a", "x", false), row(5, "b", "y", false)]);
    assert_eq!(diary.set_hidden(vec![5], true), 1);
    assert!(diary.get(5).unwrap().hidden);
    assert!(!diary.get(4).unwrap().hidden);
    assert_eq!(diary.set_hidden(vec![999], true), 0);
    assert!(diary.get(5).unwrap().hidden);
    assert!(!diary.get(4).unwrap().hidden);
    assert_eq!(diary.len(), 2);
}

#[test]
fn set_hidden_shows_an_entry_again() {
    let mut diary = opened(vec![row(1, "a", "x", true), row(2, "b", "y", true)]);
    assert_eq!(diary.set_hidden(vec![1, 2, 3], false), 2);
    assert!(!diary.get(1).unwrap().hidden);
    assert!(!diary.get(2).unwrap().hidden);
}

#[test]
fn set_hidden_counts_a_row_whose_flag_stays() {
    let mut diary = opened(vec![row(1, "a", "x", true)]);
    assert_eq!(diary.set_hidden(vec![1], true), 1);
    assert!(diary.get(1).unwrap().hidden);
}

#[test]
fn set_hidden_counts_a_number_named_twice_twice() {
    let mut diary = opened(vec![row(1, "a", "x", false), row(2, "b", "y", false)]);
    assert_eq!(diary.set_hidden(vec![2, 7, 2], true), 2);
    assert!(diary.get(2).unwrap().hidden);
    assert!(!diary.get(1).unwrap().hidden);
}

#[test]
fn set_hidden_changes_nothing_but_the_flag() {
    let mut diary = opened(vec![row(1, "a", "x;y", false)]);
    let before = diary.get(1).unwrap();
    assert_eq!(diary.set_hidden(vec![1], true), 1);
    let after = diary.get(1).unwrap();
    assert_eq!(after.id, before.id);
    assert_eq!(after.hash, before.hash);
    assert_eq!(after.date, before.date);
    assert_eq!(after.keywords, before.keywords);
    assert_eq!(after.title, before.title);
    assert_eq!(after.content, before.content);
    assert_eq!(diary.last_id(), 1);
}

#[test]
fn set_hidden_with_no_numbers_touches_nothing() {
    let mut diary = opened(vec![row(1, "a", "x", false)]);
    assert_eq!(diary.set_hidden(Vec::new(), true), 0);
    assert!(!diary.get(1).unwrap().hidden);
}

#[test]
fn get_finds_no_entry_for_an_unknown_number() {
    let diary = opened(vec![row(1, "a", "x", false)]);
    assert!(diary.get(2).is_none());
    assert!(diary.get(0).is_none());
}

#[test]
fn list_all_includes_hidden_entries() {
    let diary = opened(vec![row(1, "a", "x", true), row(2, "b", "y", false)]);
    let all = diary.list_all();
    assert_eq!(all.len(), 2);
    assert!(all[0].hidden);
    assert!(!all[1].hidden);
}

#[test]
fn a_stored_entry_reads_back_the_same() {
    let mut diary = empty_diary();
    diary
        .add_dated(strings(&["zoo", "ant", "zoo"]), "t".into(), "c".into(), "d".into())
        .unwrap();
    let written = diary.get(1).unwrap();
    let column = written.keywords_text();
    assert_eq!(column, "ant;zoo");
    let read = Entry::from_row(
        written.id,
        written.hash.clone(),
        written.date.clone(),
        &column,
        written.title.clone(),
        written.content.clone(),
        written.hidden,
    );
    assert_eq!(read.keywords, written.keywords);
    assert_eq!(read.hash, written.hash);
    assert_eq!(read.keywords_text().as_bytes(), column.as_bytes());
    let reopened = opened(vec![read]);
    assert_eq!(reopened.get(1).unwrap().hash, written.hash);
    assert_eq!(reopened.get(1).unwrap().keywords, strings(&["ant", "zoo"]));
}

#[test]
fn an_entry_without_keywords_reads_back_without_keywords() {
    let mut diary = empty_diary();
    assert_eq!(diary.add(Vec::new(), "t".into(), "c".into()), Ok(1));
    let written = diary.get(1).unwrap();
    assert!(written.keywords.is_empty());
    let column = written.keywords_text();
    assert_eq!(column, "");
    let read = Entry::from_row(
        written.id,
        written.hash.clone(),
        written.date.clone(),
        &column,
        written.title.clone(),
        written.content.clone(),
        written.hidden,
    );
    let reopened = opened(vec![read]);
    let all = reopened.list_all();
    assert_eq!(all.len(), 1);
    assert_eq!(all[0].keywords, Vec::<String>::new());
    assert_eq!(all[0].title, "t");
    assert_eq!(all[0].content, "c");
    assert!(!all[0].hidden);
    assert_eq!(all[0].hash, written.hash);
    assert_eq!(all[0].date, written.date);
    assert_eq!(all[0].keywords_text(), "");
}

#[test]
fn every_new_entry_has_a_fingerprint_of_32_bytes() {
    let mut diary = empty_diary();
    diary.add_dated(Vec::new(), String::new(), String::new(), String::new()).unwrap();
    diary.add(strings(&["a", "b"]), "A long title".into(), "c ".repeat(500)).unwrap();
    assert_eq!(diary.get(1).unwrap().hash.len(), 32);
    assert_eq!(diary.get(2).unwrap().hash.len(), 32);
    let e = Entry::compose(9, strings(&["k"]), "t".into(), "c".into(), "d".into());
    assert_eq!(e.hash.len(), 32);
}

#[test]
fn a_copy_of_an_entry_holds_the_same() {
    let e = row(7, "title", "a;b", true);
    let c = e.clone();
    assert_eq!(c.id, 7);
    assert_eq!(c.hash, e.hash);
    assert_eq!(c.date, e.date);
    assert_eq!(c.keywords, e.keywords);
    assert_eq!(c.title, e.title);
    assert_eq!(c.content, e.content);
    assert_eq!(c.hidden, e.hidden);
}
