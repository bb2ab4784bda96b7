use unpacking::db::snippets;
use unpacking::db::terms::{delete, insert, select_all, select_graph, select_related, update};
use unpacking::db::{authors, Database};
use unpacking::error::Error;
use unpacking::models::{Author, Media, Snippet, Term};

fn term(id: u128, name: &str) -> Term {
    Term { id, name: name.to_string(), created_at: 0, updated_at: 0 }
}

#[test]
fn graph_uses_positions() {
    let mut db = Database::new();
    insert(term(5, "a"), vec![], &mut db).unwrap();
    insert(term(6, "b"), vec![5], &mut db).unwrap();
    insert(term(7, "c"), vec![5, 6], &mut db).unwrap();
    let (names, edges) = select_graph(&db).unwrap();
    assert_eq!(names, vec!["a".to_string(), "b".to_string(), "c".to_string()]);
    assert_eq!(edges, vec![vec![1, 0], vec![2, 0], vec![2, 1]]);
}

#[test]
fn deleting_a_term_keeps_incoming_edges() {
    let mut db = Database::new();
    insert(term(5, "a"), vec![], &mut db).unwrap();
    insert(term(6, "b"), vec![5], &mut db).unwrap();
    assert_eq!(delete(5, &mut db), Ok(1));
    assert_eq!(select_related(&db).len(), 1);
    assert_eq!(select_graph(&db), Err(Error::InternalServerError));
    assert_eq!(delete(6, &mut db), Ok(1));
    assert!(select_related(&db).is_empty());
    assert_eq!(select_graph(&db), Ok((vec![], vec![])));
}

#[test]
fn term_update_replaces_edges() {
    let mut db = Database::new();
    insert(term(5, "a"), vec![], &mut db).unwrap();
    insert(term(6, "b"), vec![], &mut db).unwrap();
    insert(term(7, "c"), vec![5], &mut db).unwrap();
    update(7, "see".to_string(), vec![6], &mut db).unwrap();
    assert_eq!(select_all(&db).unwrap()[2].name, "see");
    assert_eq!(select_related(&db).len(), 1);
    assert_eq!(select_related(&db)[0].related_id, 6);
    let dup = update(7, "see".to_string(), vec![6, 6], &mut db);
    assert_eq!(dup, Err(Error::BadRequest("Already exists".to_string())));
}

#[test]
fn term_conflicts() {
    let mut db = Database::new();
    insert(term(5, "a"), vec![], &mut db).unwrap();
    assert_eq!(insert(term(5, "again"), vec![], &mut db), Err(Error::BadRequest("Already exists".to_string())));
    assert_eq!(insert(term(6, "b"), vec![5, 5], &mut db), Err(Error::BadRequest("Already exists".to_string())));
    assert_eq!(select_all(&db).unwrap().len(), 1);
}

#[test]
fn deleting_a_term_removes_its_tags() {
    let mut db = Database::new();
    insert(term(5, "a"), vec![], &mut db).unwrap();
    let s = Snippet { id: 1, text: "q".to_string(), media: Media::Blog, link: None, created_at: 0, updated_at: 0 };
    snippets::insert(s, vec![5], vec![], vec![], &mut db).unwrap();
    assert_eq!(delete(5, &mut db), Ok(1));
    assert!(select_all(&db).unwrap().is_empty());
    assert!(db.terms_snippets.is_empty());
    assert_eq!(db.snippets.len(), 1);
}

#[test]
fn terms_are_listed_by_creation_instant() {
    let mut db = Database::new();
    insert(Term { id: 5, name: "late".to_string(), created_at: 30, updated_at: 30 }, vec![], &mut db).unwrap();
    insert(Term { id: 6, name: "early".to_string(), created_at: 10, updated_at: 10 }, vec![5], &mut db).unwrap();
    let names: Vec<String> = select_all(&db).unwrap().into_iter().map(|t| t.name).collect();
    assert_eq!(names, vec!["early".to_string(), "late".to_string()]);
    let (names, edges) = select_graph(&db).unwrap();
    assert_eq!(names, vec!["early".to_string(), "late".to_string()]);
    assert_eq!(edges, vec![vec![0, 1]]);
}

#[test]
fn authors_rename_and_delete() {
    let mut db = Database::new();
    let a = Author { id: 1, name: "Ann".to_string(), created_at: 0, updated_at: 0 };
    assert_eq!(authors::insert_rows(vec![a], &mut db), Ok(vec![1]));
    let ids = authors::insert(vec!["Ben".to_string()], &mut db).unwrap();
    assert_eq!(ids.len(), 1);
    assert_eq!(authors::update(1, "Anne".to_string(), &mut db), Ok(1));
    assert_eq!(authors::select_all(&db).unwrap()[0].name, "Anne");
    let s = Snippet { id: 9, text: "q".to_string(), media: Media::Blog, link: None, created_at: 0, updated_at: 0 };
    snippets::insert(s, vec![], vec![1], vec![], &mut db).unwrap();
    assert_eq!(authors::delete(1, &mut db), Ok(1));
    assert!(db.authors_snippets.is_empty());
    assert_eq!(authors::delete(1, &mut db), Ok(0));
    assert_eq!(authors::delete(ids[0], &mut db), Ok(1));
    assert!(authors::select_all(&db).unwrap().is_empty());
}

#[test]
fn authors_are_listed_by_name() {
    let mut db = Database::new();
    authors::insert(vec!["Yusuf".to_string(), "Ann".to_string(), "Bea".to_string()], &mut db).unwrap();
    let names: Vec<String> = authors::select_all(&db).unwrap().into_iter().map(|a| a.name).collect();
    assert_eq!(names, vec!["Ann".to_string(), "Bea".to_string(), "Yusuf".to_string()]);
}
