use vstd::prelude::*;
use crate::db::{
    Database, ids_of_authors, lemma_filter_no_duplicates, lemma_no_duplicates_append, lemma_remove_keeps,
    lemma_remove_no_duplicates, membership_kept, remove_memberships_of,
};
use crate::error::{Error, is_already_exists};
use crate::models::{Author, Id};
use crate::order::{name_le, order_by_name};

verus! {

/// Every table but `authors` is as before.
pub open spec fn only_authors_changed(a: Database, b: Database) -> bool {
    &&& b.users == a.users
    &&& b.passwords == a.passwords
    &&& b.authors_snippets == a.authors_snippets
    &&& b.snippets == a.snippets
    &&& b.terms == a.terms
    &&& b.terms_related == a.terms_related
    &&& b.terms_snippets == a.terms_snippets
}

/// Whether `rows` can be added to the authors of `db` without a key conflict.
pub open spec fn author_rows_fit(db: Database, rows: Seq<Author>) -> bool {
    (db.author_ids() + ids_of_authors(rows)).no_duplicates()
}

/// Whether some id of `rows` is taken in `db`, or taken twice in `rows`.
pub fn author_rows_conflict(db: &Database, rows: &Vec<Author>) -> (r: bool)
    requires
        db.wf(),
    ensures
        r == !author_rows_fit(*db, rows@),
{
    let mut ids: Vec<Id> = Vec::new();
    let mut i: usize = 0;
    while i < rows.len()
        invariant
            i <= rows@.len(),
            ids@ == ids_of_authors(rows@.subrange(0, i as int)),
            forall|k: int| 0 <= k < i ==> !db.author_ids().contains(#[trigger] rows@[k].id),
        decreases rows@.len() - i,
    {
        let id = rows[i].id;
        if let Some(j) = db.find_author(id) {
            proof {
                let a = db.author_ids();
                let c = a + ids_of_authors(rows@);
                assert(c[j as int] == c[a.len() + i]);
            }
            return true;
        }
        ids.push(id);
        i = i + 1;
        assert(ids_of_authors(rows@.subrange(0, i as int)) =~= ids_of_authors(rows@.subrange(0, i - 1)).push(id));
    }
    assert(rows@.subrange(0, i as int) =~= rows@);
    let dup = crate::db::has_duplicate(&ids);
    proof {
        let a = db.author_ids();
        let b = ids_of_authors(rows@);
        let c = a + b;
        if dup {
            let (x, y) = choose|x: int, y: int| 0 <= x < b.len() && 0 <= y < b.len() && x != y && b[x] == b[y];
            assert(c[a.len() + x] == c[a.len() + y]);
        } else {
            assert forall|x: int, y: int| 0 <= x < a.len() && 0 <= y < b.len() implies a[x] != b[y] by {
                assert(!a.contains(rows@[y].id));
            }
            lemma_no_duplicates_append(a, b);
        }
    }
    dup
}

/// Adds `rows` to the authors and returns their ids, in order.
/// Fails with a conflict, and changes nothing, when an id is taken or repeated.
pub fn insert_rows(rows: Vec<Author>, db: &mut Database) -> (r: Result<Vec<Id>, Error>)
    requires
        old(db).wf(),
    ensures
        final(db).wf(),
        match r {
            Ok(ids) => {
                &&& author_rows_fit(*old(db), rows@)
                &&& ids@ == ids_of_authors(rows@)
                &&& final(db).authors@ == old(db).authors@ + rows@
                &&& only_authors_changed(*old(db), *final(db))
            },
            Err(e) => {
                &&& !author_rows_fit(*old(db), rows@)
                &&& is_already_exists(e)
                &&& *final(db) == *old(db)
            },
        },
{
    if author_rows_conflict(db, &rows) {
        return Err(Error::already_exists());
    }
    let mut ids: Vec<Id> = Vec::new();
    let mut i: usize = 0;
    while i < rows.len()
        invariant
            i <= rows@.len(),
            ids@ == ids_of_authors(rows@.subrange(0, i as int)),
        decreases rows@.len() - i,
    {
        ids.push(rows[i].id);
        i = i + 1;
        assert(ids_of_authors(rows@.subrange(0, i as int)) =~= ids_of_authors(rows@.subrange(0, i - 1)).push(rows@[i - 1].id));
    }
    assert(rows@.subrange(0, i as int) =~= rows@);
    let ghost before = *db;
    let ghost added = rows@;
    let mut rows = rows;
    db.authors.append(&mut rows);
    proof {
        assert(db.author_ids() =~= before.author_ids() + ids_of_authors(added));
        assert forall|k: int| 0 <= k < db.authors_snippets@.len() implies db.author_ids().contains(
            #[trigger] db.authors_snippets@[k].author_id,
        ) by {
            let x = db.authors_snippets@[k].author_id;
            let j = choose|j: int| 0 <= j < before.author_ids().len() && before.author_ids()[j] == x;
            assert(db.author_ids()[j] == x);
        }
    }
    Ok(ids)
}

/// Adds one author per name, each with a fresh random id, and returns their ids.
/// Whatever ids were drawn, the database stays well formed; on success the new rows
/// carry `names`, in order.
pub fn insert(names: Vec<String>, db: &mut Database) -> (r: Result<Vec<Id>, Error>)
    requires
        old(db).wf(),
    ensures
        final(db).wf(),
        r is Ok ==> {
            &&& final(db).authors@.len() == old(db).authors@.len() + names@.len()
            &&& forall|k: int| 0 <= k < names@.len() ==> #[trigger] final(db).authors@[old(db).authors@.len() + k].name == names@[k]
            &&& only_authors_changed(*old(db), *final(db))
        },
        r is Err ==> *final(db) == *old(db),
{
    let mut rows: Vec<Author> = Vec::new();
    let mut i: usize = 0;
    while i < names.len()
        invariant
            i <= names@.len(),
            rows@.len() == i,
            forall|k: int| 0 <= k < i ==> #[trigger] rows@[k].name == names@[k],
        decreases names@.len() - i,
    {
        rows.push(Author::new(names[i].clone()));
        i = i + 1;
    }
    insert_rows(rows, db)
}

/// Deletes author `id` in one transaction: first the rows that name it as an author
/// of a snippet, then the author itself. Returns the number of authors deleted (0 or 1).
pub fn delete(id: Id, db: &mut Database) -> (r: Result<usize, Error>)
    requires
        old(db).wf(),
    ensures
        final(db).wf(),
        final(db).authors_snippets@ == old(db).authors_snippets@.filter(membership_kept(id)),
        !final(db).author_ids().contains(id),
        final(db).users == old(db).users,
        final(db).passwords == old(db).passwords,
        final(db).snippets == old(db).snippets,
        final(db).terms == old(db).terms,
        final(db).terms_related == old(db).terms_related,
        final(db).terms_snippets == old(db).terms_snippets,
        !old(db).author_ids().contains(id) ==> r == Ok::<usize, Error>(0) && final(db).authors == old(db).authors,
        old(db).author_ids().contains(id) ==> r == Ok::<usize, Error>(1) && exists|i: int|
            0 <= i < old(db).authors@.len() && old(db).authors@[i].id == id && final(db).authors@ == old(db).authors@.remove(i),
{
    let ghost d0 = *db;
    let _ = remove_memberships_of(&mut db.authors_snippets, id);
    proof {
        lemma_filter_no_duplicates(d0.authors_snippets@, membership_kept(id));
        assert forall|j: int| 0 <= j < db.authors_snippets@.len() implies {
            &&& db.author_ids().contains(#[trigger] db.authors_snippets@[j].author_id)
            &&& db.snippet_ids().contains(db.authors_snippets@[j].snippet_id)
            &&& db.authors_snippets@[j].author_id != id
        } by {
            let x = db.authors_snippets@[j];
            assert(d0.authors_snippets@.filter(membership_kept(id))[j] == x);
            d0.authors_snippets@.lemma_filter_pred(membership_kept(id), j);
            d0.authors_snippets@.lemma_filter_contains_rev(membership_kept(id), x);
            let k = choose|k: int| 0 <= k < d0.authors_snippets@.len() && d0.authors_snippets@[k] == x;
            assert(d0.author_ids().contains(d0.authors_snippets@[k].author_id));
        }
        crate::db::lemma_users_frame(d0, *db);
        crate::db::lemma_term_links_frame(d0, *db);
        assert(db.keys_wf());
    }
    match db.find_author(id) {
        None => Ok(0),
        Some(i) => {
            let ghost before = *db;
            assert(before.author_ids()[i as int] == id);
            let _ = db.authors.remove(i);
            proof {
                assert(db.author_ids() =~= before.author_ids().remove(i as int));
                lemma_remove_no_duplicates(before.author_ids(), i as int);
                assert(!db.author_ids().contains(id)) by {
                    if db.author_ids().contains(id) {
                        let k = choose|k: int| 0 <= k < db.author_ids().len() && db.author_ids()[k] == id;
                        let j = if k < i { k } else { k + 1 };
                        assert(before.author_ids()[j] == id);
                    }
                }
                assert forall|j: int| 0 <= j < db.authors_snippets@.len() implies {
                    &&& db.author_ids().contains(#[trigger] db.authors_snippets@[j].author_id)
                    &&& db.snippet_ids().contains(db.authors_snippets@[j].snippet_id)
                } by {
                    assert(before.author_ids().contains(before.authors_snippets@[j].author_id));
                    assert(before.authors_snippets@[j].author_id != id);
                    lemma_remove_keeps(before.author_ids(), i as int, db.authors_snippets@[j].author_id);
                }
                assert(db.author_links_wf());
                assert(db.keys_wf());
                crate::db::lemma_users_frame(before, *db);
                crate::db::lemma_term_links_frame(before, *db);
            }
            Ok(1)
        },
    }
}

/// Renames author `id`; returns the number of rows changed (0 or 1).
pub fn update(id: Id, name: String, db: &mut Database) -> (r: Result<usize, Error>)
    requires
        old(db).wf(),
    ensures
        final(db).wf(),
        only_authors_changed(*old(db), *final(db)),
        final(db).authors@.len() == old(db).authors@.len(),
        r matches Ok(n) && (n == 0 <==> !old(db).author_ids().contains(id)) && n <= 1,
        forall|i: int| 0 <= i < old(db).authors@.len() ==> #[trigger] final(db).authors@[i] == (
            if old(db).authors@[i].id == id {
                Author { name: name, ..old(db).authors@[i] }
            } else {
                old(db).authors@[i]
            }),
{
    match db.find_author(id) {
        None => {
            assert forall|j: int| 0 <= j < db.authors@.len() implies db.authors@[j].id != id by {
                assert(db.author_ids()[j] == db.authors@[j].id);
            }
            Ok(0)
        },
        Some(i) => {
            let ghost before = *db;
            assert(before.author_ids()[i as int] == id);
            proof {
                assert forall|j: int| 0 <= j < before.authors@.len() && j != i implies before.authors@[j].id != id by {
                    assert(before.author_ids()[j] != before.author_ids()[i as int]);
                }
            }
            let old_row = db.authors.remove(i);
            let row = Author { id: old_row.id, name, created_at: old_row.created_at, updated_at: old_row.updated_at };
            db.authors.insert(i, row);
            proof {
                assert(db.authors@ =~= before.authors@.update(i as int, row));
                assert(db.author_ids() =~= before.author_ids());
                crate::db::lemma_users_frame(before, *db);
                crate::db::lemma_term_links_frame(before, *db);
                assert(db.keys_wf());
                assert(db.author_links_wf()) by {
                    assert(db.snippet_ids() == before.snippet_ids());
                    assert forall|j: int| 0 <= j < db.authors_snippets@.len() implies {
                        &&& db.author_ids().contains(#[trigger] db.authors_snippets@[j].author_id)
                        &&& db.snippet_ids().contains(db.authors_snippets@[j].snippet_id)
                    } by {
                        assert(before.author_ids().contains(before.authors_snippets@[j].author_id));
                    }
                }
            }
            Ok(1)
        },
    }
}

/// `v` lists the authors of `db`, each once, ordered by name.
pub open spec fn lists_authors(db: Database, v: Seq<Author>) -> bool {
    &&& v.len() == db.authors@.len()
    &&& forall|k: int| 0 <= k < v.len() ==> db.authors@.contains(#[trigger] v[k])
    &&& forall|j: int| 0 <= j < db.authors@.len() ==> v.contains(#[trigger] db.authors@[j])
    &&& forall|i: int, j: int| 0 <= i < j < v.len() ==> name_le(v[i].name@, v[j].name@)
}

/// A copy of `a`.
fn copy_author(a: &Author) -> (r: Author)
    ensures
        r == *a,
{
    Author { id: a.id, name: a.name.clone(), created_at: a.created_at, updated_at: a.updated_at }
}

/// All authors, ordered by name.
pub fn select_all(db: &Database) -> (r: Result<Vec<Author>, Error>)
    ensures
        r matches Ok(v) && lists_authors(*db, v@),
{
    let mut names: Vec<String> = Vec::new();
    let mut k: usize = 0;
    while k < db.authors.len()
        invariant
            k <= db.authors@.len(),
            names@.len() == k,
            forall|x: int| 0 <= x < k ==> #[trigger] names@[x] == db.authors@[x].name,
        decreases db.authors@.len() - k,
    {
        names.push(db.authors[k].name.clone());
        k = k + 1;
    }
    let idx = order_by_name(&names);
    let mut out: Vec<Author> = Vec::new();
    let mut j: usize = 0;
    while j < idx.len()
        invariant
            idx@.len() == db.authors@.len(),
            names@.len() == db.authors@.len(),
            forall|x: int| 0 <= x < names@.len() ==> #[trigger] names@[x] == db.authors@[x].name,
            forall|x: int| 0 <= x < idx@.len() ==> #[trigger] idx@[x] < db.authors@.len(),
            j <= idx@.len(),
            out@.len() == j,
            forall|x: int| 0 <= x < j ==> #[trigger] out@[x] == db.authors@[idx@[x] as int],
        decreases idx@.len() - j,
    {
        out.push(copy_author(&db.authors[idx[j]]));
        j = j + 1;
    }
    proof {
        assert forall|x: int| 0 <= x < out@.len() implies db.authors@.contains(#[trigger] out@[x]) by {
            assert(db.authors@[idx@[x] as int] == out@[x]);
        }
        assert forall|y: int| 0 <= y < db.authors@.len() implies out@.contains(#[trigger] db.authors@[y]) by {
            assert(idx@.contains(y as usize));
            let x = choose|x: int| 0 <= x < idx@.len() && idx@[x] == y as usize;
            assert(out@[x] == db.authors@[y]);
        }
        assert forall|a: int, b: int| 0 <= a < b < out@.len() implies name_le(out@[a].name@, out@[b].name@) by {
            assert(names@[idx@[a] as int] == out@[a].name);
            assert(names@[idx@[b] as int] == out@[b].name);
        }
    }
    Ok(out)
}

} // verus!
