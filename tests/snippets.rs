use unpacking::db::authors;
use unpacking::db::snippets::{count, delete, insert, search, select_media_stats, update};
use unpacking::db::terms;
use unpacking::db::Database;
use unpacking::error::Error;
use unpacking::models::{Author, Media, Snippet, Term};

const T1: u128 = 11;
const T2: u128 = 12;
const A1: u128 = 21;

fn term(id: u128, name: &str, at: i64) -> Term {
    Term { id, name: name.to_string(), created_at: at, updated_at: at }
}

fn snippet(id: u128, text: &str, media: Media, at: i64) -> Snippet {
    Snippet { id, text: text.to_string(), media, link: None, created_at: at, updated_at: at }
}

fn seeded() -> Database {
    let mut db = Database::new();
    terms::insert(term(T1, "Love", 1), vec![], &mut db).unwrap();
    terms::insert(term(T2, "Time", 2), vec![], &mut db).unwrap();
    let alice = Author { id: A1, name: "Alice".to_string(), created_at: 3, updated_at: 3 };
    authors::insert_rows(vec![alice], &mut db).unwrap();
    db
}

fn names(pairs: &[(u128, String)]) -> Vec<String> {
    pairs.iter().map(|p| p.1.clone()).collect()
}

#[test]
fn create_reads_back_terms_and_authors() {
    let mut db = seeded();
    let s = snippet(1, "Quote", Media::Book, 10);
    let id = insert(s, vec![T1, T2], vec![A1], vec!["Bob".to_string()], &mut db).unwrap();
    assert_eq!(id, 1);
    let found = search(None, None, None, &db).unwrap();
    assert_eq!(found.len(), 1);
    assert_eq!(found[0].terms.len(), 2);
    assert_eq!(found[0].authors.len(), 2);
    assert_eq!(names(&found[0].terms), vec!["Love".to_string(), "Time".to_string()]);
    assert_eq!(names(&found[0].authors), vec!["Alice".to_string(), "Bob".to_string()]);
    assert_eq!(found[0].authors[0].0, A1);
    assert_ne!(found[0].authors[1].0, A1);
    assert_eq!(db.authors.len(), 2);
}

#[test]
fn empty_new_author_names_are_skipped() {
    let mut db = seeded();
    let s = snippet(1, "Quote", Media::Book, 10);
    insert(s, vec![], vec![], vec!["".to_string(), "Carol".to_string(), "".to_string()], &mut db).unwrap();
    assert_eq!(db.authors.len(), 2);
    assert_eq!(db.authors[1].name, "Carol");
    assert_eq!(db.authors_snippets.len(), 1);
}

#[test]
fn update_replaces_associations() {
    let mut db = seeded();
    let s = snippet(1, "Quote", Media::Book, 10);
    insert(s, vec![T1, T2], vec![A1], vec!["Bob".to_string()], &mut db).unwrap();
    update(1, "Better quote".to_string(), Media::Video, Some("https://example.com".to_string()), vec![T2], vec![A1], vec![], &mut db)
        .unwrap();
    let found = search(None, None, None, &db).unwrap();
    assert_eq!(found[0].text, "Better quote");
    assert_eq!(found[0].media, Media::Video);
    assert_eq!(found[0].link, Some("https://example.com".to_string()));
    assert_eq!(found[0].terms.len(), 1);
    assert_eq!(found[0].terms[0].0, T2);
    assert_eq!(found[0].authors.len(), 1);
    assert_eq!(db.terms_snippets.iter().filter(|r| r.term_id == T1).count(), 0);
}

#[test]
fn update_of_a_missing_snippet_with_terms_fails_unchanged() {
    let mut db = seeded();
    let result = update(99, "x".to_string(), Media::Blog, None, vec![T1], vec![], vec![], &mut db);
    assert_eq!(result, Err(Error::InternalServerError));
    assert!(db.terms_snippets.is_empty());
}

#[test]
fn delete_removes_junction_rows() {
    let mut db = seeded();
    let s = snippet(1, "Quote", Media::Book, 10);
    insert(s, vec![T1, T2], vec![A1], vec!["Bob".to_string()], &mut db).unwrap();
    let other = snippet(2, "Other", Media::Blog, 11);
    insert(other, vec![T1], vec![A1], vec![], &mut db).unwrap();
    assert_eq!(delete(1, &mut db), Ok(1));
    assert!(db.terms_snippets.iter().all(|r| r.snippet_id != 1));
    assert!(db.authors_snippets.iter().all(|r| r.snippet_id != 1));
    assert!(db.snippets.iter().all(|s| s.id != 1));
    assert_eq!(db.terms_snippets.len(), 1);
    assert_eq!(delete(1, &mut db), Ok(0));
    let found = search(None, None, None, &db).unwrap();
    assert_eq!(found.len(), 1);
    assert_eq!(found[0].id, 2);
}

#[test]
fn count_pages() {
    let mut db = Database::new();
    for i in 0..41u128 {
        insert(snippet(100 + i, "Quote", Media::News, i as i64), vec![], vec![], vec![], &mut db).unwrap();
    }
    assert_eq!(count(None, 20, &db), Ok(3));
    assert_eq!(delete(100, &mut db), Ok(1));
    assert_eq!(count(None, 20, &db), Ok(2));
}

#[test]
fn count_by_term() {
    let mut db = seeded();
    insert(snippet(1, "a", Media::Blog, 1), vec![T1], vec![], vec![], &mut db).unwrap();
    insert(snippet(2, "b", Media::Blog, 2), vec![T1, T2], vec![], vec![], &mut db).unwrap();
    insert(snippet(3, "c", Media::Blog, 3), vec![T2], vec![], vec![], &mut db).unwrap();
    assert_eq!(count(Some(T1), 1, &db), Ok(2));
    assert_eq!(count(Some(T1), 20, &db), Ok(1));
    assert_eq!(count(Some(99), 20, &db), Ok(0));
}

#[test]
fn search_pages_newest_first_and_filters_by_term() {
    let mut db = seeded();
    insert(snippet(1, "a", Media::Blog, 1), vec![T1], vec![], vec![], &mut db).unwrap();
    insert(snippet(2, "b", Media::Blog, 2), vec![T1, T2], vec![], vec![], &mut db).unwrap();
    insert(snippet(3, "c", Media::Blog, 3), vec![T2], vec![], vec![], &mut db).unwrap();
    let ids: Vec<u128> = search(None, None, None, &db).unwrap().iter().map(|s| s.id).collect();
    assert_eq!(ids, vec![3, 2, 1]);
    let ids: Vec<u128> = search(None, Some(2), Some(1), &db).unwrap().iter().map(|s| s.id).collect();
    assert_eq!(ids, vec![2, 1]);
    let found = search(Some(T1), None, None, &db).unwrap();
    let ids: Vec<u128> = found.iter().map(|s| s.id).collect();
    assert_eq!(ids, vec![2, 1]);
    assert_eq!(found[0].terms.len(), 1);
    assert_eq!(found[0].terms[0], (T1, "Love".to_string()));
    assert!(search(None, Some(10), Some(10), &db).unwrap().is_empty());
    assert!(matches!(search(None, Some(-1), None, &db), Err(Error::InternalServerError)));
    assert!(matches!(search(None, None, Some(-1), &db), Err(Error::InternalServerError)));
}

#[test]
fn insert_conflicts_and_missing_references() {
    let mut db = seeded();
    insert(snippet(1, "a", Media::Blog, 1), vec![], vec![], vec![], &mut db).unwrap();
    let dup_id = insert(snippet(1, "b", Media::Blog, 2), vec![], vec![], vec![], &mut db);
    assert!(matches!(dup_id, Err(Error::BadRequest(m)) if m == "Already exists"));
    let dup_term = insert(snippet(2, "b", Media::Blog, 2), vec![T1, T1], vec![], vec![], &mut db);
    assert!(matches!(dup_term, Err(Error::BadRequest(m)) if m == "Already exists"));
    let missing_term = insert(snippet(2, "b", Media::Blog, 2), vec![99], vec![], vec![], &mut db);
    assert!(matches!(missing_term, Err(Error::InternalServerError)));
    let missing_author = insert(snippet(2, "b", Media::Blog, 2), vec![], vec![98], vec![], &mut db);
    assert!(matches!(missing_author, Err(Error::InternalServerError)));
    assert_eq!(db.snippets.len(), 1);
    assert!(db.terms_snippets.is_empty());
}

#[test]
fn media_stats_count_present_media() {
    let mut db = Database::new();
    insert(snippet(1, "a", Media::Video, 1), vec![], vec![], vec![], &mut db).unwrap();
    insert(snippet(2, "b", Media::Book, 2), vec![], vec![], vec![], &mut db).unwrap();
    insert(snippet(3, "c", Media::Video, 3), vec![], vec![], vec![], &mut db).unwrap();
    assert_eq!(select_media_stats(&db), Ok(vec![(Media::Book, 1), (Media::Video, 2)]));
    assert_eq!(select_media_stats(&Database::new()), Ok(vec![]));
}

#[test]
fn search_orders_by_creation_instant() {
    let mut db = Database::new();
    insert(snippet(1, "old", Media::Blog, 5), vec![], vec![], vec![], &mut db).unwrap();
    insert(snippet(2, "new", Media::Blog, 50), vec![], vec![], vec![], &mut db).unwrap();
    insert(snippet(3, "middle", Media::Blog, 20), vec![], vec![], vec![], &mut db).unwrap();
    insert(snippet(4, "same as middle", Media::Blog, 20), vec![], vec![], vec![], &mut db).unwrap();
    let ids: Vec<u128> = search(None, None, None, &db).unwrap().iter().map(|s| s.id).collect();
    assert_eq!(ids, vec![2, 4, 3, 1]);
}
