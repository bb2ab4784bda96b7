use vstd::prelude::*;
use crate::db::{
    Database, lemma_remove_keeps, lemma_remove_no_duplicates, Fault, author_links, author_row_kept, ids_of_authors, lemma_filter_no_duplicates,
    lemma_no_duplicates_append, links_fault, push_author_links, push_term_links, remove_author_links,
    remove_term_links, reports, term_links, term_row_kept,
};
use crate::db::authors::{author_rows_conflict, author_rows_fit, insert_rows};
use crate::error::{Error, is_already_exists};
use crate::models::{Author, Id, Media, Snippet, TermSnippet, AuthorSnippet};
use crate::order::{earlier, order_by_instant, orders_by_instant};

verus! {

/// Every table but `snippets` is as before.
pub open spec fn only_snippets_changed(a: Database, b: Database) -> bool {
    &&& b.users == a.users
    &&& b.passwords == a.passwords
    &&& b.authors == a.authors
    &&& b.authors_snippets == a.authors_snippets
    &&& b.terms == a.terms
    &&& b.terms_related == a.terms_related
    &&& b.terms_snippets == a.terms_snippets
}

/// Every table but `terms_snippets` is as before.
pub open spec fn only_term_links_changed(a: Database, b: Database) -> bool {
    &&& b.users == a.users
    &&& b.passwords == a.passwords
    &&& b.authors == a.authors
    &&& b.authors_snippets == a.authors_snippets
    &&& b.snippets == a.snippets
    &&& b.terms == a.terms
    &&& b.terms_related == a.terms_related
}

/// Every table but `authors_snippets` is as before.
pub open spec fn only_author_links_changed(a: Database, b: Database) -> bool {
    &&& b.users == a.users
    &&& b.passwords == a.passwords
    &&& b.authors == a.authors
    &&& b.snippets == a.snippets
    &&& b.terms == a.terms
    &&& b.terms_related == a.terms_related
    &&& b.terms_snippets == a.terms_snippets
}

/// Adding a snippet with a fresh id keeps the database well formed.
#[verifier::rlimit(30)]
proof fn lemma_add_snippet(a: Database, b: Database, s: Snippet)
    requires
        a.wf(),
        !a.snippet_ids().contains(s.id),
        b.snippets@ == a.snippets@.push(s),
        only_snippets_changed(a, b),
    ensures
        b.wf(),
        b.snippet_ids().contains(s.id),
{
    assert(b.users_wf()) by {
        assert(b.user_ids() == a.user_ids());
        assert(b.user_emails() == a.user_emails());
        assert(b.password_owners() == a.password_owners());
    }
    assert(b.snippet_ids() =~= a.snippet_ids() + seq![s.id]);
    lemma_no_duplicates_append(a.snippet_ids(), seq![s.id]);
    assert(b.snippet_ids()[a.snippets@.len() as int] == s.id);
    assert forall|x: Id| a.snippet_ids().contains(x) implies b.snippet_ids().contains(x) by {
        let k = choose|k: int| 0 <= k < a.snippet_ids().len() && a.snippet_ids()[k] == x;
        assert(b.snippet_ids()[k] == x);
    }
    assert forall|i: int| 0 <= i < b.terms_snippets@.len() implies {
        &&& b.term_ids().contains(#[trigger] b.terms_snippets@[i].term_id)
        &&& b.snippet_ids().contains(b.terms_snippets@[i].snippet_id)
    } by {
        assert(a.term_ids().contains(a.terms_snippets@[i].term_id));
    }
    assert forall|i: int| 0 <= i < b.authors_snippets@.len() implies {
        &&& b.author_ids().contains(#[trigger] b.authors_snippets@[i].author_id)
        &&& b.snippet_ids().contains(b.authors_snippets@[i].snippet_id)
    } by {
        assert(a.author_ids().contains(a.authors_snippets@[i].author_id));
    }
    assert(a.term_links_wf() && a.author_links_wf() && a.keys_wf());
    assert(b.term_ids() == a.term_ids());
    assert(b.author_ids() == a.author_ids());
    assert(b.terms_snippets@.no_duplicates());
    assert(b.authors_snippets@.no_duplicates());
    assert(b.term_links_wf());
    assert(b.author_links_wf());
    assert(b.keys_wf());
}

/// Tagging snippet `sid` with `keys` keeps the database well formed, where the keys
/// are distinct, known terms that do not tag it yet.
#[verifier::rlimit(30)]
proof fn lemma_add_term_links(a: Database, b: Database, keys: Seq<Id>, sid: Id)
    requires
        a.wf(),
        keys.no_duplicates(),
        forall|i: int| 0 <= i < keys.len() ==> a.term_ids().contains(#[trigger] keys[i]),
        a.snippet_ids().contains(sid),
        forall|i: int| 0 <= i < a.terms_snippets@.len() ==> (#[trigger] a.terms_snippets@[i]).snippet_id != sid,
        b.terms_snippets@ == a.terms_snippets@ + term_links(keys, sid),
        only_term_links_changed(a, b),
    ensures
        b.wf(),
{
    let l = term_links(keys, sid);
    assert(l.no_duplicates()) by {
        assert forall|i: int, j: int| 0 <= i < l.len() && 0 <= j < l.len() && i != j implies l[i] != l[j] by {
            assert(keys[i] != keys[j]);
        }
    }
    assert(a.terms_snippets@.disjoint(l));
    lemma_no_duplicates_append(a.terms_snippets@, l);
    assert forall|i: int| 0 <= i < b.terms_snippets@.len() implies {
        &&& b.term_ids().contains(#[trigger] b.terms_snippets@[i].term_id)
        &&& b.snippet_ids().contains(b.terms_snippets@[i].snippet_id)
    } by {
        assert(b.term_ids() == a.term_ids());
        assert(b.snippet_ids() == a.snippet_ids());
        if i >= a.terms_snippets@.len() {
            let k = i - a.terms_snippets@.len();
            assert(b.terms_snippets@[i] == l[k]);
            assert(keys[k] == b.terms_snippets@[i].term_id);
            assert(a.term_ids().contains(keys[k]));
        } else {
            assert(b.terms_snippets@[i] == a.terms_snippets@[i]);
            assert(a.term_ids().contains(a.terms_snippets@[i].term_id));
        }
    }    assert(b.term_links_wf());
    assert(b.users_wf()) by {
        assert(b.user_ids() == a.user_ids());
        assert(b.user_emails() == a.user_emails());
        assert(b.password_owners() == a.password_owners());
    }
    assert(b.keys_wf()) by {
        assert(b.author_ids() == a.author_ids());
        assert(b.snippet_ids() == a.snippet_ids());
        assert(b.term_ids() == a.term_ids());
    }
    assert(b.author_links_wf()) by {
        assert(b.author_ids() == a.author_ids());
        assert(b.snippet_ids() == a.snippet_ids());
    }
}

/// Naming `keys` as authors of snippet `sid` keeps the database well formed, where the
/// keys are distinct, known authors that it does not name yet.
proof fn lemma_add_author_links(a: Database, b: Database, keys: Seq<Id>, sid: Id)
    requires
        a.wf(),
        keys.no_duplicates(),
        forall|i: int| 0 <= i < keys.len() ==> a.author_ids().contains(#[trigger] keys[i]),
        a.snippet_ids().contains(sid),
        forall|i: int|
            0 <= i < a.authors_snippets@.len() && (#[trigger] a.authors_snippets@[i]).snippet_id == sid
                ==> !keys.contains(a.authors_snippets@[i].author_id),
        b.authors_snippets@ == a.authors_snippets@ + author_links(keys, sid),
        only_author_links_changed(a, b),
    ensures
        b.wf(),
{
    let l = author_links(keys, sid);
    assert(l.no_duplicates()) by {
        assert forall|i: int, j: int| 0 <= i < l.len() && 0 <= j < l.len() && i != j implies l[i] != l[j] by {
            assert(keys[i] != keys[j]);
        }
    }
    assert forall|i: int, j: int| 0 <= i < a.authors_snippets@.len() && 0 <= j < l.len() implies a.authors_snippets@[i] != l[j] by {
        if a.authors_snippets@[i].snippet_id == sid {
            assert(keys[j] == l[j].author_id);
        }
    }
    lemma_no_duplicates_append(a.authors_snippets@, l);
    assert forall|i: int| 0 <= i < b.authors_snippets@.len() implies {
        &&& b.author_ids().contains(#[trigger] b.authors_snippets@[i].author_id)
        &&& b.snippet_ids().contains(b.authors_snippets@[i].snippet_id)
    } by {
        assert(b.author_ids() == a.author_ids());
        assert(b.snippet_ids() == a.snippet_ids());
        if i >= a.authors_snippets@.len() {
            let k = i - a.authors_snippets@.len();
            assert(b.authors_snippets@[i] == l[k]);
            assert(keys[k] == b.authors_snippets@[i].author_id);
            assert(a.author_ids().contains(keys[k]));
        } else {
            assert(b.authors_snippets@[i] == a.authors_snippets@[i]);
            assert(a.author_ids().contains(a.authors_snippets@[i].author_id));
        }
    }    assert(b.author_links_wf());
    assert(b.users_wf()) by {
        assert(b.user_ids() == a.user_ids());
        assert(b.user_emails() == a.user_emails());
        assert(b.password_owners() == a.password_owners());
    }
    assert(b.keys_wf()) by {
        assert(b.author_ids() == a.author_ids());
        assert(b.snippet_ids() == a.snippet_ids());
        assert(b.term_ids() == a.term_ids());
    }
    assert(b.term_links_wf()) by {
        assert(b.term_ids() == a.term_ids());
        assert(b.snippet_ids() == a.snippet_ids());
    }
}

/// The fault of tagging with `keys`, checked against the terms of `db`.
pub fn term_links_fault(db: &Database, keys: &Vec<Id>) -> (r: Option<Fault>)
    ensures
        r == links_fault(keys@, db.term_ids()),
{
    if crate::db::has_duplicate(keys) {
        return Some(Fault::Conflict);
    }
    let mut i: usize = 0;
    while i < keys.len()
        invariant
            i <= keys@.len(),
            keys@.no_duplicates(),
            forall|k: int| 0 <= k < i ==> db.term_ids().contains(#[trigger] keys@[k]),
        decreases keys@.len() - i,
    {
        match db.find_term(keys[i]) {
            None => {
                return Some(Fault::Internal);
            },
            Some(j) => {
                assert(db.term_ids()[j as int] == keys@[i as int]);
            },
        }
        i = i + 1;
    }
    None
}

/// The fault of naming `keys` as authors, checked against the authors of `db`.
pub fn author_links_fault(db: &Database, keys: &Vec<Id>) -> (r: Option<Fault>)
    ensures
        r == links_fault(keys@, db.author_ids()),
{
    if crate::db::has_duplicate(keys) {
        return Some(Fault::Conflict);
    }
    let mut i: usize = 0;
    while i < keys.len()
        invariant
            i <= keys@.len(),
            keys@.no_duplicates(),
            forall|k: int| 0 <= k < i ==> db.author_ids().contains(#[trigger] keys@[k]),
        decreases keys@.len() - i,
    {
        match db.find_author(keys[i]) {
            None => {
                return Some(Fault::Internal);
            },
            Some(j) => {
                assert(db.author_ids()[j as int] == keys@[i as int]);
            },
        }
        i = i + 1;
    }
    None
}

/// The error that stands for `f`.
pub fn fault_error(f: Fault) -> (e: Error)
    ensures
        reports(e, f),
{
    match f {
        Fault::Conflict => Error::already_exists(),
        Fault::Internal => Error::InternalServerError,
    }
}

/// What goes wrong, if anything, when snippet `s` is stored with these associations.
/// Statements run in order: the snippet row, its terms, its known authors, the new
/// authors; each bulk of junction rows first meets its composite key, then its
/// foreign keys.
pub open spec fn insert_fault(db: Database, s: Snippet, terms: Seq<Id>, existing: Seq<Id>, new_rows: Seq<Author>) -> Option<Fault> {
    if db.snippet_ids().contains(s.id) {
        Some(Fault::Conflict)
    } else if links_fault(terms, db.term_ids()) is Some {
        links_fault(terms, db.term_ids())
    } else if links_fault(existing, db.author_ids()) is Some {
        links_fault(existing, db.author_ids())
    } else if !author_rows_fit(db, new_rows) {
        Some(Fault::Conflict)
    } else {
        None
    }
}

/// `b` is `a` with snippet `s` added, tagged with `terms`, naming `existing` and the
/// authors `new_rows`, which are added too.
pub open spec fn snippet_added(a: Database, b: Database, s: Snippet, terms: Seq<Id>, existing: Seq<Id>, new_rows: Seq<Author>) -> bool {
    &&& b.snippets@ == a.snippets@.push(s)
    &&& b.terms_snippets@ == a.terms_snippets@ + term_links(terms, s.id)
    &&& b.authors@ == a.authors@ + new_rows
    &&& b.authors_snippets@ == a.authors_snippets@ + author_links(existing, s.id) + author_links(ids_of_authors(new_rows), s.id)
    &&& b.users == a.users
    &&& b.passwords == a.passwords
    &&& b.terms == a.terms
    &&& b.terms_related == a.terms_related
}

/// Stores snippet `s` with its associations in one transaction: the snippet row, one
/// junction row per term and per known author, then the authors `new_rows` and their
/// junction rows. On any fault nothing changes.
pub fn insert_with_rows(
    snippet: Snippet,
    terms: Vec<Id>,
    existing_authors: Vec<Id>,
    new_rows: Vec<Author>,
    db: &mut Database,
) -> (r: Result<Id, Error>)
    requires
        old(db).wf(),
    ensures
        final(db).wf(),
        match insert_fault(*old(db), snippet, terms@, existing_authors@, new_rows@) {
            Some(f) => r matches Err(e) && reports(e, f) && *final(db) == *old(db),
            None => r == Ok::<Id, Error>(snippet.id) && snippet_added(
                *old(db),
                *final(db),
                snippet,
                terms@,
                existing_authors@,
                new_rows@,
            ),
        },
{
    if let Some(i) = db.find_snippet(snippet.id) {
        assert(db.snippet_ids()[i as int] == snippet.id);
        return Err(Error::already_exists());
    }
    if let Some(f) = term_links_fault(db, &terms) {
        return Err(fault_error(f));
    }
    if let Some(f) = author_links_fault(db, &existing_authors) {
        return Err(fault_error(f));
    }
    if author_rows_conflict(db, &new_rows) {
        return Err(Error::already_exists());
    }
    let ghost d0 = *db;
    let ghost rows = new_rows@;
    let sid = snippet.id;
    db.snippets.push(snippet);
    proof {
        lemma_add_snippet(d0, *db, snippet);
        assert forall|i: int| 0 <= i < d0.terms_snippets@.len() implies (#[trigger] d0.terms_snippets@[i]).snippet_id != sid by {
            assert(d0.term_ids().contains(d0.terms_snippets@[i].term_id));
        }
        assert forall|i: int| 0 <= i < d0.authors_snippets@.len() implies (#[trigger] d0.authors_snippets@[i]).snippet_id != sid by {
            assert(d0.author_ids().contains(d0.authors_snippets@[i].author_id));
        }
    }
    let ghost d1 = *db;
    push_term_links(&mut db.terms_snippets, &terms, sid);
    proof {
        lemma_add_term_links(d1, *db, terms@, sid);
    }
    let ghost d2 = *db;
    push_author_links(&mut db.authors_snippets, &existing_authors, sid);
    proof {
        lemma_add_author_links(d2, *db, existing_authors@, sid);
        assert(db.author_ids() == d0.author_ids());
    }
    let ghost d3 = *db;
    match insert_rows(new_rows, db) {
        Err(_) => {
            return Err(Error::InternalServerError);
        },
        Ok(ids) => {
            proof {
                let a = d0.author_ids();
                let b = ids_of_authors(rows);
                assert forall|i: int| 0 <= i < ids@.len() implies db.author_ids().contains(#[trigger] ids@[i]) by {
                    assert(db.author_ids() =~= a + b);
                    assert(db.author_ids()[a.len() + i] == ids@[i]);
                }
                assert(ids@.no_duplicates()) by {
                    assert forall|x: int, y: int| 0 <= x < b.len() && 0 <= y < b.len() && x != y implies b[x] != b[y] by {
                        assert((a + b)[a.len() + x] == b[x]);
                        assert((a + b)[a.len() + y] == b[y]);
                    }
                }
                assert forall|i: int|
                    0 <= i < db.authors_snippets@.len() && (#[trigger] db.authors_snippets@[i]).snippet_id == sid
                        implies !ids@.contains(db.authors_snippets@[i].author_id) by {
                    let x = db.authors_snippets@[i].author_id;
                    assert(d0.author_ids().contains(x));
                    if ids@.contains(x) {
                        let y = choose|y: int| 0 <= y < b.len() && b[y] == x;
                        let z = choose|z: int| 0 <= z < a.len() && a[z] == x;
                        assert((a + b)[z] == (a + b)[a.len() + y]);
                    }
                }
            }
            let ghost d4 = *db;
            push_author_links(&mut db.authors_snippets, &ids, sid);
            proof {
                lemma_add_author_links(d4, *db, ids@, sid);
            }
        },
    }
    Ok(sid)
}

/// The authors named by `names` once the empty names are left out.
pub open spec fn given_name() -> spec_fn(String) -> bool {
    |n: String| n@.len() > 0
}

/// One new author, with a fresh random id, for each non-empty name in `names`, in order.
pub fn new_author_rows(names: &Vec<String>) -> (rows: Vec<Author>)
    ensures
        rows@.map_values(|a: Author| a.name) == names@.filter(given_name()),
{
    let mut rows: Vec<Author> = Vec::new();
    let mut i: usize = 0;
    while i < names.len()
        invariant
            i <= names@.len(),
            rows@.map_values(|a: Author| a.name) == names@.subrange(0, i as int).filter(given_name()),
        decreases names@.len() - i,
    {
        let name = names[i].clone();
        proof {
            assert(names@.subrange(0, i + 1) =~= names@.subrange(0, i as int).push(name));
            names@.subrange(0, i as int).lemma_filter_push(name, given_name());
        }
        if !name.as_str().is_empty() {
            let row = Author::new(name);
            let ghost before = rows@;
            rows.push(row);
            assert(rows@.map_values(|a: Author| a.name) =~= before.map_values(|a: Author| a.name).push(row.name));
        }
        i = i + 1;
    }
    assert(names@.subrange(0, i as int) =~= names@);
    rows
}

/// The outcome of storing snippet `s` where the new authors were drawn as `rows`:
/// one row per non-empty name, and the result that `insert_with_rows` gives for them.
pub open spec fn insert_outcome(
    a: Database,
    b: Database,
    s: Snippet,
    terms: Seq<Id>,
    existing: Seq<Id>,
    names: Seq<String>,
    rows: Seq<Author>,
    r: Result<Id, Error>,
) -> bool {
    &&& rows.map_values(|x: Author| x.name) == names.filter(given_name())
    &&& match insert_fault(a, s, terms, existing, rows) {
        Some(f) => r matches Err(e) && reports(e, f) && b == a,
        None => r == Ok::<Id, Error>(s.id) && snippet_added(a, b, s, terms, existing, rows),
    }
}

/// Stores `snippet` tagged with `terms`, naming `existing_authors` and one new author
/// per non-empty entry of `new_authors`, each with a fresh random id. The outcome is
/// that of `insert_with_rows` for the rows drawn.
pub fn insert(
    snippet: Snippet,
    terms: Vec<Id>,
    existing_authors: Vec<Id>,
    new_authors: Vec<String>,
    db: &mut Database,
) -> (r: Result<Id, Error>)
    requires
        old(db).wf(),
    ensures
        final(db).wf(),
        exists|rows: Seq<Author>| #[trigger] insert_outcome(*old(db), *final(db), snippet, terms@, existing_authors@, new_authors@, rows, r),
{
    let rows = new_author_rows(&new_authors);
    let ghost drawn = rows@;
    let ghost d0 = *db;
    let ghost terms_v = terms@;
    let ghost existing_v = existing_authors@;
    let r = insert_with_rows(snippet, terms, existing_authors, rows, db);
    assert(insert_outcome(d0, *db, snippet, terms_v, existing_v, new_authors@, drawn, r));
    r
}

/// Dropping the junction rows of snippet `sid` keeps the database well formed.
proof fn lemma_drop_term_links(a: Database, b: Database, sid: Id)
    requires
        a.wf(),
        b.terms_snippets@ == a.terms_snippets@.filter(term_row_kept(sid)),
        only_term_links_changed(a, b),
    ensures
        b.wf(),
        forall|i: int| 0 <= i < b.terms_snippets@.len() ==> (#[trigger] b.terms_snippets@[i]).snippet_id != sid,
{
    lemma_filter_no_duplicates(a.terms_snippets@, term_row_kept(sid));
    broadcast use vstd::seq_lib::group_filter_ensures;
    assert forall|i: int| 0 <= i < b.terms_snippets@.len() implies {
        &&& b.term_ids().contains(#[trigger] b.terms_snippets@[i].term_id)
        &&& b.snippet_ids().contains(b.terms_snippets@[i].snippet_id)
    } by {
        let x = b.terms_snippets@[i];
        assert(a.terms_snippets@.filter(term_row_kept(sid))[i] == x);
        a.terms_snippets@.lemma_filter_contains_rev(term_row_kept(sid), x);
        let k = choose|k: int| 0 <= k < a.terms_snippets@.len() && a.terms_snippets@[k] == x;
        assert(a.term_ids().contains(a.terms_snippets@[k].term_id));
    }
}

/// Dropping the junction rows of snippet `sid` keeps the database well formed.
proof fn lemma_drop_author_links(a: Database, b: Database, sid: Id)
    requires
        a.wf(),
        b.authors_snippets@ == a.authors_snippets@.filter(author_row_kept(sid)),
        only_author_links_changed(a, b),
    ensures
        b.wf(),
        forall|i: int| 0 <= i < b.authors_snippets@.len() ==> (#[trigger] b.authors_snippets@[i]).snippet_id != sid,
{
    lemma_filter_no_duplicates(a.authors_snippets@, author_row_kept(sid));
    broadcast use vstd::seq_lib::group_filter_ensures;
    assert forall|i: int| 0 <= i < b.authors_snippets@.len() implies {
        &&& b.author_ids().contains(#[trigger] b.authors_snippets@[i].author_id)
        &&& b.snippet_ids().contains(b.authors_snippets@[i].snippet_id)
    } by {
        let x = b.authors_snippets@[i];
        assert(a.authors_snippets@.filter(author_row_kept(sid))[i] == x);
        a.authors_snippets@.lemma_filter_contains_rev(author_row_kept(sid), x);
        let k = choose|k: int| 0 <= k < a.authors_snippets@.len() && a.authors_snippets@[k] == x;
        assert(a.author_ids().contains(a.authors_snippets@[k].author_id));
    }
}

/// What goes wrong, if anything, when snippet `sid` gets these associations. Junction
/// rows of a snippet that does not exist violate their foreign key.
pub open spec fn update_fault(db: Database, sid: Id, terms: Seq<Id>, existing: Seq<Id>, new_rows: Seq<Author>) -> Option<Fault> {
    let known = db.snippet_ids().contains(sid);
    if links_fault(terms, db.term_ids()) is Some {
        links_fault(terms, db.term_ids())
    } else if !known && terms.len() > 0 {
        Some(Fault::Internal)
    } else if links_fault(existing, db.author_ids()) is Some {
        links_fault(existing, db.author_ids())
    } else if !known && existing.len() > 0 {
        Some(Fault::Internal)
    } else if !author_rows_fit(db, new_rows) {
        Some(Fault::Conflict)
    } else if !known && new_rows.len() > 0 {
        Some(Fault::Internal)
    } else {
        None
    }
}

/// `b` is `a` with the body of snippet `sid` replaced and its associations fully
/// replaced: tagged with exactly `terms`, naming exactly `existing` and the authors
/// `new_rows`, which are added.
pub open spec fn snippet_replaced(
    a: Database,
    b: Database,
    sid: Id,
    text: String,
    media: Media,
    link: Option<String>,
    terms: Seq<Id>,
    existing: Seq<Id>,
    new_rows: Seq<Author>,
) -> bool {
    &&& b.snippets@.len() == a.snippets@.len()
    &&& forall|i: int| 0 <= i < a.snippets@.len() ==> #[trigger] b.snippets@[i] == (
        if a.snippets@[i].id == sid {
            Snippet { text: text, media: media, link: link, ..a.snippets@[i] }
        } else {
            a.snippets@[i]
        })
    &&& b.terms_snippets@ == a.terms_snippets@.filter(term_row_kept(sid)) + term_links(terms, sid)
    &&& b.authors@ == a.authors@ + new_rows
    &&& b.authors_snippets@ == a.authors_snippets@.filter(author_row_kept(sid)) + author_links(existing, sid)
        + author_links(ids_of_authors(new_rows), sid)
    &&& b.users == a.users
    &&& b.passwords == a.passwords
    &&& b.terms == a.terms
    &&& b.terms_related == a.terms_related
}

/// Replaces the body of snippet `sid`, if it exists; returns the number of rows changed.
fn set_body(db: &mut Database, sid: Id, text: String, media: Media, link: Option<String>) -> (n: usize)
    requires
        old(db).wf(),
    ensures
        final(db).wf(),
        only_snippets_changed(*old(db), *final(db)),
        final(db).snippet_ids() == old(db).snippet_ids(),
        final(db).snippets@.len() == old(db).snippets@.len(),
        forall|i: int| 0 <= i < old(db).snippets@.len() ==> #[trigger] final(db).snippets@[i] == (
            if old(db).snippets@[i].id == sid {
                Snippet { text: text, media: media, link: link, ..old(db).snippets@[i] }
            } else {
                old(db).snippets@[i]
            }),
{
    match db.find_snippet(sid) {
        None => {
            assert forall|j: int| 0 <= j < db.snippets@.len() implies db.snippets@[j].id != sid by {
                assert(db.snippet_ids()[j] == db.snippets@[j].id);
            }
            0
        },
        Some(i) => {
            let ghost before = *db;
            proof {
                assert forall|j: int| 0 <= j < before.snippets@.len() && j != i implies before.snippets@[j].id != sid by {
                    assert(before.snippet_ids()[j] != before.snippet_ids()[i as int]);
                }
            }
            let old_row = db.snippets.remove(i);
            let row = Snippet {
                id: old_row.id,
                text,
                media,
                link,
                created_at: old_row.created_at,
                updated_at: old_row.updated_at,
            };
            db.snippets.insert(i, row);
            proof {
                assert(db.snippets@ =~= before.snippets@.update(i as int, row));
                assert(db.snippet_ids() =~= before.snippet_ids());
            }
            1
        },
    }
}

/// Replaces the body and all associations of snippet `sid` in one transaction: the
/// snippet row is updated, its junction rows are deleted, then rows for `terms`, for
/// `existing_authors` and for the authors `new_rows` (added first) are inserted. On any
/// fault nothing changes.
#[verifier::rlimit(40)]
pub fn update_with_rows(
    id: Id,
    text: String,
    media: Media,
    link: Option<String>,
    terms: Vec<Id>,
    existing_authors: Vec<Id>,
    new_rows: Vec<Author>,
    db: &mut Database,
) -> (r: Result<(), Error>)
    requires
        old(db).wf(),
    ensures
        final(db).wf(),
        match update_fault(*old(db), id, terms@, existing_authors@, new_rows@) {
            Some(f) => r matches Err(e) && reports(e, f) && *final(db) == *old(db),
            None => r is Ok && snippet_replaced(
                *old(db),
                *final(db),
                id,
                text,
                media,
                link,
                terms@,
                existing_authors@,
                new_rows@,
            ),
        },
{
    let known = db.find_snippet(id).is_some();
    proof {
        if known {
            let i = choose|i: int| 0 <= i < db.snippets@.len() && db.snippets@[i].id == id;
            assert(db.snippet_ids()[i] == id);
        }
    }
    if let Some(f) = term_links_fault(db, &terms) {
        return Err(fault_error(f));
    }
    if !known && terms.len() > 0 {
        return Err(Error::InternalServerError);
    }
    if let Some(f) = author_links_fault(db, &existing_authors) {
        return Err(fault_error(f));
    }
    if !known && existing_authors.len() > 0 {
        return Err(Error::InternalServerError);
    }
    if author_rows_conflict(db, &new_rows) {
        return Err(Error::already_exists());
    }
    if !known && new_rows.len() > 0 {
        return Err(Error::InternalServerError);
    }
    let ghost d0 = *db;
    let ghost rows = new_rows@;
    let _ = set_body(db, id, text, media, link);
    let ghost d1 = *db;
    let _ = remove_term_links(&mut db.terms_snippets, id);
    proof {
        lemma_drop_term_links(d1, *db, id);
    }
    let ghost d2 = *db;
    if terms.len() > 0 {
        push_term_links(&mut db.terms_snippets, &terms, id);
        proof {
            lemma_add_term_links(d2, *db, terms@, id);
        }
    } else {
        assert(term_links(terms@, id) =~= Seq::empty());
        assert(db.terms_snippets@ =~= d2.terms_snippets@ + term_links(terms@, id));
    }
    let ghost d3 = *db;
    let _ = remove_author_links(&mut db.authors_snippets, id);
    proof {
        lemma_drop_author_links(d3, *db, id);
    }
    let ghost d4 = *db;
    if existing_authors.len() > 0 {
        push_author_links(&mut db.authors_snippets, &existing_authors, id);
        proof {
            lemma_add_author_links(d4, *db, existing_authors@, id);
        }
    } else {
        assert(author_links(existing_authors@, id) =~= Seq::empty());
        assert(db.authors_snippets@ =~= d4.authors_snippets@ + author_links(existing_authors@, id));
    }
    proof {
        assert(db.author_ids() == d0.author_ids());
    }
    let ghost d5 = *db;
    match insert_rows(new_rows, db) {
        Err(_) => {
            return Err(Error::InternalServerError);
        },
        Ok(ids) => {
            if ids.len() > 0 {
                proof {
                    let a = d0.author_ids();
                    let b = ids_of_authors(rows);
                    assert forall|i: int| 0 <= i < ids@.len() implies db.author_ids().contains(#[trigger] ids@[i]) by {
                        assert(db.author_ids() =~= a + b);
                        assert(db.author_ids()[a.len() + i] == ids@[i]);
                    }
                    assert(ids@.no_duplicates()) by {
                        assert forall|x: int, y: int| 0 <= x < b.len() && 0 <= y < b.len() && x != y implies b[x] != b[y] by {
                            assert((a + b)[a.len() + x] == b[x]);
                            assert((a + b)[a.len() + y] == b[y]);
                        }
                    }
                    assert forall|i: int|
                        0 <= i < db.authors_snippets@.len() && (#[trigger] db.authors_snippets@[i]).snippet_id == id
                            implies !ids@.contains(db.authors_snippets@[i].author_id) by {
                        let x = db.authors_snippets@[i].author_id;
                        assert(d0.author_ids().contains(x));
                        if ids@.contains(x) {
                            let y = choose|y: int| 0 <= y < b.len() && b[y] == x;
                            let z = choose|z: int| 0 <= z < a.len() && a[z] == x;
                            assert((a + b)[z] == (a + b)[a.len() + y]);
                        }
                    }
                }
                let ghost d6 = *db;
                push_author_links(&mut db.authors_snippets, &ids, id);
                proof {
                    lemma_add_author_links(d6, *db, ids@, id);
                }
            } else {
                assert(author_links(ids@, id) =~= Seq::empty());
                assert(db.authors_snippets@ =~= db.authors_snippets@ + author_links(ids@, id));
            }
        },
    }
    Ok(())
}

/// The outcome of replacing snippet `id` where the new authors were drawn as `rows`:
/// one row per non-empty name, and the result that `update_with_rows` gives for them.
pub open spec fn update_outcome(
    a: Database,
    b: Database,
    id: Id,
    text: String,
    media: Media,
    link: Option<String>,
    terms: Seq<Id>,
    existing: Seq<Id>,
    names: Seq<String>,
    rows: Seq<Author>,
    r: Result<(), Error>,
) -> bool {
    &&& rows.map_values(|x: Author| x.name) == names.filter(given_name())
    &&& match update_fault(a, id, terms, existing, rows) {
        Some(f) => r matches Err(e) && reports(e, f) && b == a,
        None => r is Ok && snippet_replaced(a, b, id, text, media, link, terms, existing, rows),
    }
}

/// Replaces the body and all associations of snippet `id`, adding one new author per
/// non-empty entry of `new_authors`, each with a fresh random id. The outcome is that
/// of `update_with_rows` for the rows drawn.
pub fn update(
    id: Id,
    text: String,
    media: Media,
    link: Option<String>,
    terms: Vec<Id>,
    existing_authors: Vec<Id>,
    new_authors: Vec<String>,
    db: &mut Database,
) -> (r: Result<(), Error>)
    requires
        old(db).wf(),
    ensures
        final(db).wf(),
        exists|rows: Seq<Author>| #[trigger] update_outcome(
            *old(db),
            *final(db),
            id,
            text,
            media,
            link,
            terms@,
            existing_authors@,
            new_authors@,
            rows,
            r,
        ),
{
    let rows = new_author_rows(&new_authors);
    let ghost drawn = rows@;
    let ghost d0 = *db;
    let ghost terms_v = terms@;
    let ghost existing_v = existing_authors@;
    let ghost text_v = text;
    let ghost link_v = link;
    let r = update_with_rows(id, text, media, link, terms, existing_authors, rows, db);
    assert(update_outcome(d0, *db, id, text_v, media, link_v, terms_v, existing_v, new_authors@, drawn, r));
    r
}

/// Deletes snippet `id` in one transaction: first its junction rows, then the row
/// itself. Returns the number of snippet rows deleted (0 or 1).
pub fn delete(id: Id, db: &mut Database) -> (r: Result<usize, Error>)
    requires
        old(db).wf(),
    ensures
        final(db).wf(),
        final(db).terms_snippets@ == old(db).terms_snippets@.filter(term_row_kept(id)),
        final(db).authors_snippets@ == old(db).authors_snippets@.filter(author_row_kept(id)),
        forall|i: int| 0 <= i < final(db).terms_snippets@.len() ==> (#[trigger] final(db).terms_snippets@[i]).snippet_id != id,
        forall|i: int| 0 <= i < final(db).authors_snippets@.len() ==> (#[trigger] final(db).authors_snippets@[i]).snippet_id != id,
        !final(db).snippet_ids().contains(id),
        old(db).snippet_ids().contains(id) ==> r == Ok::<usize, Error>(1) && exists|i: int|
            0 <= i < old(db).snippets@.len() && old(db).snippets@[i].id == id
                && final(db).snippets@ == old(db).snippets@.remove(i),
        !old(db).snippet_ids().contains(id) ==> r == Ok::<usize, Error>(0) && final(db).snippets == old(db).snippets,
        final(db).users == old(db).users,
        final(db).passwords == old(db).passwords,
        final(db).authors == old(db).authors,
        final(db).terms == old(db).terms,
        final(db).terms_related == old(db).terms_related,
{
    let ghost d0 = *db;
    let _ = remove_author_links(&mut db.authors_snippets, id);
    proof {
        lemma_drop_author_links(d0, *db, id);
    }
    let ghost d1 = *db;
    let _ = remove_term_links(&mut db.terms_snippets, id);
    proof {
        lemma_drop_term_links(d1, *db, id);
    }
    match db.find_snippet(id) {
        None => Ok(0),
        Some(i) => {
            let ghost before = *db;
            assert(before.snippet_ids()[i as int] == id);
            let _ = db.snippets.remove(i);
            proof {
                assert(db.snippet_ids() =~= before.snippet_ids().remove(i as int));
                lemma_remove_no_duplicates(before.snippet_ids(), i as int);
                assert(!db.snippet_ids().contains(id)) by {
                    if db.snippet_ids().contains(id) {
                        let k = choose|k: int| 0 <= k < db.snippet_ids().len() && db.snippet_ids()[k] == id;
                        let j = if k < i { k } else { k + 1 };
                        assert(before.snippet_ids()[j] == id);
                    }
                }
                assert forall|j: int| 0 <= j < db.terms_snippets@.len() implies {
                    &&& db.term_ids().contains(#[trigger] db.terms_snippets@[j].term_id)
                    &&& db.snippet_ids().contains(db.terms_snippets@[j].snippet_id)
                } by {
                    assert(before.term_ids().contains(db.terms_snippets@[j].term_id));
                    lemma_remove_keeps(before.snippet_ids(), i as int, db.terms_snippets@[j].snippet_id);
                }
                assert forall|j: int| 0 <= j < db.authors_snippets@.len() implies {
                    &&& db.author_ids().contains(#[trigger] db.authors_snippets@[j].author_id)
                    &&& db.snippet_ids().contains(db.authors_snippets@[j].snippet_id)
                } by {
                    assert(before.author_ids().contains(db.authors_snippets@[j].author_id));
                    lemma_remove_keeps(before.snippet_ids(), i as int, db.authors_snippets@[j].snippet_id);
                }
                assert(db.term_links_wf());
                assert(db.author_links_wf());
                assert(db.keys_wf()) by {
                    assert(db.author_ids() == before.author_ids());
                    assert(db.term_ids() == before.term_ids());
                }
                assert(db.users_wf()) by {
                    assert(db.user_ids() == before.user_ids());
                    assert(db.user_emails() == before.user_emails());
                    assert(db.password_owners() == before.password_owners());
                }
            }
            Ok(1)
        },
    }
}

/// Rows of `terms_snippets` that tag with term `t`.
pub open spec fn tagged_with(t: Id) -> spec_fn(TermSnippet) -> bool {
    |r: TermSnippet| r.term_id == t
}

/// The number of snippets, or, given a term, the number of snippets it tags.
pub open spec fn snippet_count(db: Database, term_id: Option<Id>) -> int {
    match term_id {
        None => db.snippets@.len() as int,
        Some(t) => db.terms_snippets@.filter(tagged_with(t)).len() as int,
    }
}

/// The number of pages of `page_size` items that `total` items fill:
/// `total / page_size`, plus one for a partial last page.
pub open spec fn page_count(total: int, page_size: int) -> int {
    total / page_size + if total % page_size > 0 { 1int } else { 0int }
}

/// The number of pages of `page_size` snippets, all of them or those tagged with
/// `term_id`.
pub fn count(term_id: Option<Id>, page_size: i64, db: &Database) -> (r: Result<i64, Error>)
    requires
        page_size > 0,
        db.snippets@.len() <= i64::MAX,
        db.terms_snippets@.len() <= i64::MAX,
    ensures
        r == Ok::<i64, Error>(page_count(snippet_count(*db, term_id), page_size as int) as i64),
        r matches Ok(pages) && {
            &&& pages * page_size >= snippet_count(*db, term_id)
            &&& (pages - 1) * page_size < snippet_count(*db, term_id)
        },
{
    let total: u64 = match term_id {
        None => db.snippets.len() as u64,
        Some(t) => {
            let mut n: u64 = 0;
            let mut i: usize = 0;
            while i < db.terms_snippets.len()
                invariant
                    i <= db.terms_snippets@.len(),
                    db.terms_snippets@.len() <= i64::MAX,
                    n == db.terms_snippets@.subrange(0, i as int).filter(tagged_with(t)).len(),
                    n <= i,
                decreases db.terms_snippets@.len() - i,
            {
                let row = db.terms_snippets[i];
                proof {
                    assert(db.terms_snippets@.subrange(0, i + 1) =~= db.terms_snippets@.subrange(0, i as int).push(row));
                    db.terms_snippets@.subrange(0, i as int).lemma_filter_push(row, tagged_with(t));
                }
                if row.term_id == t {
                    n = n + 1;
                }
                i = i + 1;
            }
            assert(db.terms_snippets@.subrange(0, i as int) =~= db.terms_snippets@);
            n
        },
    };
    let size = page_size as u64;
    let pages = total / size + if total % size > 0 { 1u64 } else { 0u64 };
    proof {
        let c = total as int;
        let p = size as int;
        let q = c / p;
        let m = c % p;
        assert(c == q * p + m && 0 <= m < p) by (nonlinear_arith)
            requires p > 0, q == c / p, m == c % p;
        assert(q <= c) by (nonlinear_arith)
            requires p > 0, q == c / p, c >= 0;
        let k = q + if m > 0 { 1int } else { 0int };
        assert(k * p >= c && (k - 1) * p < c) by (nonlinear_arith)
            requires c == q * p + m, 0 <= m < p, k == q + if m > 0 { 1int } else { 0int };
        assert(k <= c) by {
            if m > 0 {
                assert(q * p < c) by (nonlinear_arith) requires c == q * p + m, m > 0;
                assert(q < c) by (nonlinear_arith) requires q * p < c, p >= 1, c >= 0;
            }
        }
    }
    Ok(pages as i64)
}

/// A snippet together with the terms and authors associated with it.
pub struct SnippetWithRelated {
    pub id: Id,
    pub text: String,
    pub media: Media,
    pub link: Option<String>,
    pub terms: Vec<(Id, String)>,
    pub authors: Vec<(Id, String)>,
}

/// Rows of `terms_snippets` that belong to snippet `sid`.
pub open spec fn term_row_of(sid: Id) -> spec_fn(TermSnippet) -> bool {
    |r: TermSnippet| r.snippet_id == sid
}

/// Rows of `authors_snippets` that belong to snippet `sid`.
pub open spec fn author_row_of(sid: Id) -> spec_fn(AuthorSnippet) -> bool {
    |r: AuthorSnippet| r.snippet_id == sid
}

/// The terms that tag snippet `sid`, in the order of their junction rows.
pub open spec fn linked_terms(db: Database, sid: Id) -> Seq<Id> {
    db.terms_snippets@.filter(term_row_of(sid)).map_values(|r: TermSnippet| r.term_id)
}

/// The authors of snippet `sid`, in the order of their junction rows.
pub open spec fn linked_authors(db: Database, sid: Id) -> Seq<Id> {
    db.authors_snippets@.filter(author_row_of(sid)).map_values(|r: AuthorSnippet| r.author_id)
}

/// The terms reported with snippet `sid`: all that tag it, or only the term searched for.
pub open spec fn shown_terms(db: Database, sid: Id, term_id: Option<Id>) -> Seq<Id> {
    match term_id {
        None => linked_terms(db, sid),
        Some(t) => seq![t],
    }
}

/// Term `id` exists and is called `name`.
pub open spec fn term_named(db: Database, id: Id, name: Seq<char>) -> bool {
    exists|i: int| 0 <= i < db.terms@.len() && db.terms@[i].id == id && db.terms@[i].name@ == name
}

/// Author `id` exists and is called `name`.
pub open spec fn author_named(db: Database, id: Id, name: Seq<char>) -> bool {
    exists|i: int| 0 <= i < db.authors@.len() && db.authors@[i].id == id && db.authors@[i].name@ == name
}

/// `pairs` lists the terms `ids`, in order, each with its name.
pub open spec fn names_terms(db: Database, ids: Seq<Id>, pairs: Seq<(Id, String)>) -> bool {
    &&& pairs.len() == ids.len()
    &&& forall|k: int| 0 <= k < ids.len() ==> (#[trigger] pairs[k]).0 == ids[k] && term_named(db, ids[k], pairs[k].1@)
}

/// `pairs` lists the authors `ids`, in order, each with its name.
pub open spec fn names_authors(db: Database, ids: Seq<Id>, pairs: Seq<(Id, String)>) -> bool {
    &&& pairs.len() == ids.len()
    &&& forall|k: int| 0 <= k < ids.len() ==> (#[trigger] pairs[k]).0 == ids[k] && author_named(db, ids[k], pairs[k].1@)
}

/// Snippet `s` passes the search: there is no term to match, or the term tags it.
pub open spec fn matches_filter(db: Database, s: Snippet, term_id: Option<Id>) -> bool {
    match term_id {
        None => true,
        Some(t) => db.terms_snippets@.contains((TermSnippet { term_id: t, snippet_id: s.id })),
    }
}

/// The creation instants of the snippets, in table order.
pub open spec fn snippet_instants(db: Database) -> Seq<i64> {
    db.snippets@.map_values(|s: Snippet| s.created_at)
}

/// `idx` lists, each once, the positions of the snippets that pass the search, the most
/// recently created first; of two created at the same instant, the one stored later
/// comes first.
pub open spec fn search_order(db: Database, term_id: Option<Id>, idx: Seq<usize>) -> bool {
    &&& idx.no_duplicates()
    &&& forall|k: int|
        0 <= k < idx.len() ==> #[trigger] idx[k] < db.snippets@.len() && matches_filter(db, db.snippets@[idx[k] as int], term_id)
    &&& forall|j: usize| j < db.snippets@.len() && matches_filter(db, db.snippets@[j as int], term_id) ==> #[trigger] idx.contains(j)
    &&& forall|a: int, b: int| 0 <= a < b < idx.len() ==> earlier(snippet_instants(db), idx[b] as int, idx[a] as int)
}

/// Where a page starts among `len` results: at `offset`, or at the end.
pub open spec fn page_start(len: int, offset: Option<i64>) -> int {
    match offset {
        None => 0,
        Some(o) => if o < len { o as int } else { len },
    }
}

/// Where a page that starts at `lo` ends among `len` results: `limit` further on, or
/// at the end.
pub open spec fn page_end(len: int, lo: int, limit: Option<i64>) -> int {
    match limit {
        None => len,
        Some(l) => if lo + l < len { lo + l } else { len },
    }
}

/// `v` is the page of search results that `offset` and `limit` select, each snippet
/// reported with its authors and the terms shown for the search.
pub open spec fn search_result(db: Database, term_id: Option<Id>, limit: Option<i64>, offset: Option<i64>, v: Seq<SnippetWithRelated>) -> bool {
    exists|idx: Seq<usize>|
        #[trigger] search_order(db, term_id, idx) && {
            let lo = page_start(idx.len() as int, offset);
            let hi = page_end(idx.len() as int, lo, limit);
            &&& v.len() == hi - lo
            &&& forall|k: int| 0 <= k < v.len() ==> shows(db, db.snippets@[idx[lo + k] as int], #[trigger] v[k], term_id)
        }
}

/// `e` reports snippet `s` with its authors and the terms shown for the search.
pub open spec fn shows(db: Database, s: Snippet, e: SnippetWithRelated, term_id: Option<Id>) -> bool {
    &&& e.id == s.id
    &&& e.text == s.text
    &&& e.media == s.media
    &&& e.link == s.link
    &&& names_terms(db, shown_terms(db, s.id, term_id), e.terms@)
    &&& names_authors(db, linked_authors(db, s.id), e.authors@)
}

/// Whether term `t` tags snippet `sid`.
fn is_tagged(db: &Database, t: Id, sid: Id) -> (r: bool)
    ensures
        r == db.terms_snippets@.contains((TermSnippet { term_id: t, snippet_id: sid })),
{
    let mut i: usize = 0;
    while i < db.terms_snippets.len()
        invariant
            i <= db.terms_snippets@.len(),
            forall|k: int| 0 <= k < i ==> db.terms_snippets@[k] != (TermSnippet { term_id: t, snippet_id: sid }),
        decreases db.terms_snippets@.len() - i,
    {
        let row = db.terms_snippets[i];
        if row.term_id == t && row.snippet_id == sid {
            assert(db.terms_snippets@[i as int] == (TermSnippet { term_id: t, snippet_id: sid }));
            return true;
        }
        i = i + 1;
    }
    false
}

/// The terms that tag snippet `sid`, each with its name.
fn terms_of(db: &Database, sid: Id) -> (r: Vec<(Id, String)>)
    requires
        db.wf(),
    ensures
        names_terms(*db, linked_terms(*db, sid), r@),
{
    let mut out: Vec<(Id, String)> = Vec::new();
    let mut i: usize = 0;
    while i < db.terms_snippets.len()
        invariant
            db.wf(),
            i <= db.terms_snippets@.len(),
            names_terms(*db, db.terms_snippets@.subrange(0, i as int).filter(term_row_of(sid)).map_values(|r: TermSnippet| r.term_id), out@),
        decreases db.terms_snippets@.len() - i,
    {
        let row = db.terms_snippets[i];
        let ghost before = db.terms_snippets@.subrange(0, i as int).filter(term_row_of(sid));
        proof {
            assert(db.terms_snippets@.subrange(0, i + 1) =~= db.terms_snippets@.subrange(0, i as int).push(row));
            db.terms_snippets@.subrange(0, i as int).lemma_filter_push(row, term_row_of(sid));
        }
        if row.snippet_id == sid {
            assert(db.term_ids().contains(db.terms_snippets@[i as int].term_id));
            let j = match db.find_term(row.term_id) {
                Some(j) => j,
                None => {
                    return out;
                },
            };
            let ghost prev = out@;
            out.push((row.term_id, db.terms[j].name.clone()));
            proof {
                let ids = before.push(row).map_values(|r: TermSnippet| r.term_id);
                assert(ids =~= before.map_values(|r: TermSnippet| r.term_id).push(row.term_id));
                assert(term_named(*db, row.term_id, out@[prev.len() as int].1@));
                assert forall|k: int| 0 <= k < ids.len() implies (#[trigger] out@[k]).0 == ids[k] && term_named(*db, ids[k], out@[k].1@) by {
                    if k < prev.len() {
                        assert(out@[k] == prev[k]);
                    }
                }
            }
        }
        i = i + 1;
    }
    assert(db.terms_snippets@.subrange(0, i as int) =~= db.terms_snippets@);
    out
}

/// The authors of snippet `sid`, each with its name.
fn authors_of(db: &Database, sid: Id) -> (r: Vec<(Id, String)>)
    requires
        db.wf(),
    ensures
        names_authors(*db, linked_authors(*db, sid), r@),
{
    let mut out: Vec<(Id, String)> = Vec::new();
    let mut i: usize = 0;
    while i < db.authors_snippets.len()
        invariant
            db.wf(),
            i <= db.authors_snippets@.len(),
            names_authors(*db, db.authors_snippets@.subrange(0, i as int).filter(author_row_of(sid)).map_values(|r: AuthorSnippet| r.author_id), out@),
        decreases db.authors_snippets@.len() - i,
    {
        let row = db.authors_snippets[i];
        let ghost before = db.authors_snippets@.subrange(0, i as int).filter(author_row_of(sid));
        proof {
            assert(db.authors_snippets@.subrange(0, i + 1) =~= db.authors_snippets@.subrange(0, i as int).push(row));
            db.authors_snippets@.subrange(0, i as int).lemma_filter_push(row, author_row_of(sid));
        }
        if row.snippet_id == sid {
            assert(db.author_ids().contains(db.authors_snippets@[i as int].author_id));
            let j = match db.find_author(row.author_id) {
                Some(j) => j,
                None => {
                    return out;
                },
            };
            let ghost prev = out@;
            out.push((row.author_id, db.authors[j].name.clone()));
            proof {
                let ids = before.push(row).map_values(|r: AuthorSnippet| r.author_id);
                assert(ids =~= before.map_values(|r: AuthorSnippet| r.author_id).push(row.author_id));
                assert(author_named(*db, row.author_id, out@[prev.len() as int].1@));
                assert forall|k: int| 0 <= k < ids.len() implies (#[trigger] out@[k]).0 == ids[k] && author_named(*db, ids[k], out@[k].1@) by {
                    if k < prev.len() {
                        assert(out@[k] == prev[k]);
                    }
                }
            }
        }
        i = i + 1;
    }
    assert(db.authors_snippets@.subrange(0, i as int) =~= db.authors_snippets@);
    out
}

/// Snippet `j` reported with its authors and the terms shown for the search.
fn entry(db: &Database, j: usize, term_id: Option<Id>) -> (e: SnippetWithRelated)
    requires
        db.wf(),
        j < db.snippets@.len(),
        matches_filter(*db, db.snippets@[j as int], term_id),
    ensures
        shows(*db, db.snippets@[j as int], e, term_id),
{
    let s = &db.snippets[j];
    let terms = match term_id {
        None => terms_of(db, s.id),
        Some(t) => {
            proof {
                let row = TermSnippet { term_id: t, snippet_id: s.id };
                let k = choose|k: int| 0 <= k < db.terms_snippets@.len() && db.terms_snippets@[k] == row;
                assert(db.term_ids().contains(db.terms_snippets@[k].term_id));
            }
            match db.find_term(t) {
                Some(x) => {
                    let mut v: Vec<(Id, String)> = Vec::new();
                    v.push((t, db.terms[x].name.clone()));
                    assert(term_named(*db, t, v@[0].1@));
                    v
                },
                None => Vec::new(),
            }
        },
    };
    let link = match &s.link {
        Some(l) => Some(l.clone()),
        None => None,
    };
    SnippetWithRelated {
        id: s.id,
        text: s.text.clone(),
        media: s.media,
        link,
        terms,
        authors: authors_of(db, s.id),
    }
}

/// Searches the snippets, the most recently created first: all of them, or those that
/// `term_id` tags, skipping `offset` and keeping at most `limit`. Each is reported with
/// its authors and its terms, or only the term searched for. A negative limit or
/// offset is refused by the storage as an internal failure.
pub fn search(term_id: Option<Id>, limit: Option<i64>, offset: Option<i64>, db: &Database) -> (r: Result<
    Vec<SnippetWithRelated>,
    Error,
>)
    requires
        db.wf(),
    ensures
        (limit matches Some(l) && l < 0) || (offset matches Some(o) && o < 0) <==> r is Err,
        r is Err ==> r == Err::<Vec<SnippetWithRelated>, Error>(Error::InternalServerError),
        r matches Ok(v) ==> search_result(*db, term_id, limit, offset, v@),
{
    if let Some(l) = limit {
        if l < 0 {
            return Err(Error::InternalServerError);
        }
    }
    if let Some(o) = offset {
        if o < 0 {
            return Err(Error::InternalServerError);
        }
    }
    let n = db.snippets.len();
    let mut keys: Vec<i64> = Vec::new();
    let mut i: usize = 0;
    while i < n
        invariant
            n == db.snippets@.len(),
            i <= n,
            keys@ == snippet_instants(*db).subrange(0, i as int),
        decreases n - i,
    {
        keys.push(db.snippets[i].created_at);
        i = i + 1;
        assert(keys@ =~= snippet_instants(*db).subrange(0, i as int));
    }
    assert(keys@ =~= snippet_instants(*db));
    let ord = order_by_instant(&keys);
    let mut idx: Vec<usize> = Vec::new();
    let ghost mut src: Seq<int> = Seq::empty();
    let mut m: usize = n;
    while m > 0
        invariant
            db.wf(),
            n == db.snippets@.len(),
            keys@ == snippet_instants(*db),
            orders_by_instant(keys@, ord@),
            m <= n,
            idx@.len() == src.len(),
            forall|x: int| 0 <= x < src.len() ==> m <= #[trigger] src[x] < n && idx@[x] == ord@[src[x]],
            forall|a: int, b: int| 0 <= a < b < src.len() ==> src[a] > src[b],
            forall|x: int| 0 <= x < idx@.len() ==> matches_filter(*db, db.snippets@[#[trigger] idx@[x] as int], term_id),
            forall|q: int|
                m <= q < n && matches_filter(*db, db.snippets@[ord@[q] as int], term_id) ==> #[trigger] idx@.contains(ord@[q]),
        decreases m,
    {
        let j = ord[m - 1];
        let keep = match term_id {
            None => true,
            Some(t) => is_tagged(db, t, db.snippets[j].id),
        };
        if keep {
            let ghost before = idx@;
            idx.push(j);
            proof {
                src = src.push(m - 1);
                assert(idx@[before.len() as int] == j);
                assert forall|q: int|
                    m - 1 <= q < n && matches_filter(*db, db.snippets@[ord@[q] as int], term_id) implies #[trigger] idx@.contains(ord@[q]) by {
                    if q >= m {
                        assert(before.contains(ord@[q]));
                        let x = choose|x: int| 0 <= x < before.len() && before[x] == ord@[q];
                        assert(idx@[x] == ord@[q]);
                    }
                }
            }
        }
        m = m - 1;
    }
    proof {
        assert(idx@.no_duplicates()) by {
            assert forall|a: int, b: int| 0 <= a < idx@.len() && 0 <= b < idx@.len() && a != b implies idx@[a] != idx@[b] by {
                assert(src[a] != src[b]);
                assert(ord@[src[a]] != ord@[src[b]]);
            }
        }
        assert forall|j: usize| j < db.snippets@.len() && matches_filter(*db, db.snippets@[j as int], term_id) implies #[trigger] idx@.contains(j) by {
            assert(ord@.contains(j));
            let q = choose|q: int| 0 <= q < ord@.len() && ord@[q] == j;
            assert(idx@.contains(ord@[q]));
        }
        assert forall|a: int, b: int| 0 <= a < b < idx@.len() implies earlier(snippet_instants(*db), idx@[b] as int, idx@[a] as int) by {
            assert(src[a] > src[b]);
        }
        assert forall|k: int| 0 <= k < idx@.len() implies #[trigger] idx@[k] < db.snippets@.len() by {
            assert(idx@[k] == ord@[src[k]]);
            assert(ord@[src[k]] < keys@.len());
        }
        assert(search_order(*db, term_id, idx@));
    }
    let total = idx.len();
    let lo: usize = match offset {
        None => 0,
        Some(o) => if (o as u64) < (total as u64) {
            o as usize
        } else {
            total
        },
    };
    let hi: usize = match limit {
        None => total,
        Some(l) => if (l as u64) < ((total - lo) as u64) {
            lo + l as usize
        } else {
            total
        },
    };
    assert(lo == page_start(total as int, offset));
    assert(hi == page_end(total as int, lo as int, limit));
    let mut out: Vec<SnippetWithRelated> = Vec::new();
    let mut k: usize = lo;
    while k < hi
        invariant
            db.wf(),
            lo <= k <= hi <= total,
            total == idx@.len(),
            forall|x: int|
                0 <= x < idx@.len() ==> #[trigger] idx@[x] < db.snippets@.len() && matches_filter(*db, db.snippets@[idx@[x] as int], term_id),
            out@.len() == k - lo,
            forall|x: int| 0 <= x < out@.len() ==> shows(*db, db.snippets@[idx@[lo + x] as int], #[trigger] out@[x], term_id),
        decreases hi - k,
    {
        let j = idx[k];
        let e = entry(db, j, term_id);
        out.push(e);
        k = k + 1;
    }
    assert(search_result(*db, term_id, limit, offset, out@));
    Ok(out)
}

/// Snippets taken from medium `m`.
pub open spec fn with_media(m: Media) -> spec_fn(Snippet) -> bool {
    |s: Snippet| s.media == m
}

/// The number of snippets taken from medium `m`.
pub open spec fn media_count(db: Database, m: Media) -> int {
    db.snippets@.filter(with_media(m)).len() as int
}

/// The number of snippets taken from medium `m`.
fn count_media(m: Media, db: &Database) -> (n: i64)
    requires
        db.snippets@.len() <= i64::MAX,
    ensures
        n == media_count(*db, m),
{
    let mut n: i64 = 0;
    let mut i: usize = 0;
    while i < db.snippets.len()
        invariant
            i <= db.snippets@.len(),
            db.snippets@.len() <= i64::MAX,
            n == db.snippets@.subrange(0, i as int).filter(with_media(m)).len(),
            n <= i,
        decreases db.snippets@.len() - i,
    {
        let s = &db.snippets[i];
        proof {
            assert(db.snippets@.subrange(0, i + 1) =~= db.snippets@.subrange(0, i as int).push(*s));
            db.snippets@.subrange(0, i as int).lemma_filter_push(*s, with_media(m));
        }
        if s.media == m {
            n = n + 1;
        }
        i = i + 1;
    }
    assert(db.snippets@.subrange(0, i as int) =~= db.snippets@);
    n
}

/// Every medium, in the order of declaration.
pub open spec fn all_media() -> Seq<Media> {
    seq![Media::Blog, Media::Book, Media::News, Media::Twitter, Media::Video, Media::Website]
}

/// Media from which some snippet of `db` is taken.
pub open spec fn present_in(db: Database) -> spec_fn(Media) -> bool {
    |m: Media| media_count(db, m) > 0
}

/// Medium `m` with its number of snippets.
pub open spec fn media_stat(db: Database) -> spec_fn(Media) -> (Media, i64) {
    |m: Media| (m, media_count(db, m) as i64)
}

/// The number of snippets per medium, for each medium that has any, in the order in
/// which the media are declared.
pub fn select_media_stats(db: &Database) -> (r: Result<Vec<(Media, i64)>, Error>)
    requires
        db.snippets@.len() <= i64::MAX,
    ensures
        r matches Ok(v) && v@ == all_media().filter(present_in(*db)).map_values(media_stat(*db)),
{
    let all: [Media; 6] = [Media::Blog, Media::Book, Media::News, Media::Twitter, Media::Video, Media::Website];
    assert(all@ =~= all_media());
    let mut out: Vec<(Media, i64)> = Vec::new();
    let mut i: usize = 0;
    while i < 6
        invariant
            i <= 6,
            all@ == all_media(),
            db.snippets@.len() <= i64::MAX,
            out@ == all_media().subrange(0, i as int).filter(present_in(*db)).map_values(media_stat(*db)),
        decreases 6 - i,
    {
        let m = all[i];
        let n = count_media(m, db);
        proof {
            assert(all_media().subrange(0, i + 1) =~= all_media().subrange(0, i as int).push(m));
            all_media().subrange(0, i as int).lemma_filter_push(m, present_in(*db));
        }
        if n > 0 {
            let ghost prev = all_media().subrange(0, i as int).filter(present_in(*db));
            out.push((m, n));
            assert(prev.push(m).map_values(media_stat(*db)) =~= prev.map_values(media_stat(*db)).push((m, n)));
        }
        i = i + 1;
    }
    assert(all_media().subrange(0, 6) =~= all_media());
    Ok(out)
}

/// A filter that keeps nothing of `s` gives the empty sequence.
proof fn lemma_filter_none<T>(s: Seq<T>, p: spec_fn(T) -> bool)
    requires
        forall|i: int| 0 <= i < s.len() ==> !p(#[trigger] s[i]),
    ensures
        s.filter(p) == Seq::<T>::empty(),
    decreases s.len(),
{
    reveal(Seq::filter);
    if s.len() > 0 {
        lemma_filter_none(s.drop_last(), p);
        assert(!p(s[s.len() - 1]));
    } else {
        assert(s.filter(p) =~= Seq::<T>::empty());
    }
}

/// A filter that keeps all of `s` gives `s`.
proof fn lemma_filter_all<T>(s: Seq<T>, p: spec_fn(T) -> bool)
    requires
        forall|i: int| 0 <= i < s.len() ==> p(#[trigger] s[i]),
    ensures
        s.filter(p) == s,
    decreases s.len(),
{
    reveal(Seq::filter);
    if s.len() > 0 {
        lemma_filter_all(s.drop_last(), p);
        assert(p(s[s.len() - 1]));
        assert(s.drop_last().push(s.last()) =~= s);
    } else {
        assert(s.filter(p) =~= s);
    }
}

/// The terms of snippet `sid` in `before + term_links(terms, sid)`, where `before`
/// holds no row of `sid`, are exactly `terms`.
proof fn lemma_terms_after_links(before: Seq<TermSnippet>, terms: Seq<Id>, sid: Id)
    requires
        forall|i: int| 0 <= i < before.len() ==> (#[trigger] before[i]).snippet_id != sid,
    ensures
        (before + term_links(terms, sid)).filter(term_row_of(sid)).map_values(|r: TermSnippet| r.term_id) == terms,
{
    let l = term_links(terms, sid);
    Seq::filter_distributes_over_add(before, l, term_row_of(sid));
    lemma_filter_none(before, term_row_of(sid));
    lemma_filter_all(l, term_row_of(sid));
    assert(Seq::<TermSnippet>::empty() + l =~= l);
    assert(l.map_values(|r: TermSnippet| r.term_id) =~= terms);
}

/// The authors of snippet `sid` in `before + author_links(ids, sid)`, where `before`
/// holds no row of `sid`, are exactly `ids`.
proof fn lemma_authors_after_links(before: Seq<AuthorSnippet>, ids: Seq<Id>, sid: Id)
    requires
        forall|i: int| 0 <= i < before.len() ==> (#[trigger] before[i]).snippet_id != sid,
    ensures
        (before + author_links(ids, sid)).filter(author_row_of(sid)).map_values(|r: AuthorSnippet| r.author_id) == ids,
{
    let l = author_links(ids, sid);
    Seq::filter_distributes_over_add(before, l, author_row_of(sid));
    lemma_filter_none(before, author_row_of(sid));
    lemma_filter_all(l, author_row_of(sid));
    assert(Seq::<AuthorSnippet>::empty() + l =~= l);
    assert(l.map_values(|r: AuthorSnippet| r.author_id) =~= ids);
}

/// A stored snippet reads back with exactly the terms it was stored with, and exactly
/// the known authors followed by the new ones.
pub proof fn lemma_insert_reads_back(a: Database, b: Database, s: Snippet, terms: Seq<Id>, existing: Seq<Id>, new_rows: Seq<Author>)
    requires
        a.wf(),
        insert_fault(a, s, terms, existing, new_rows) is None,
        snippet_added(a, b, s, terms, existing, new_rows),
    ensures
        linked_terms(b, s.id) == terms,
        linked_authors(b, s.id) == existing + ids_of_authors(new_rows),
        b.snippet_ids().contains(s.id),
{
    assert forall|i: int| 0 <= i < a.terms_snippets@.len() implies (#[trigger] a.terms_snippets@[i]).snippet_id != s.id by {
        assert(a.term_ids().contains(a.terms_snippets@[i].term_id));
    }
    assert forall|i: int| 0 <= i < a.authors_snippets@.len() implies (#[trigger] a.authors_snippets@[i]).snippet_id != s.id by {
        assert(a.author_ids().contains(a.authors_snippets@[i].author_id));
    }
    lemma_terms_after_links(a.terms_snippets@, terms, s.id);
    let ids = existing + ids_of_authors(new_rows);
    assert(author_links(existing, s.id) + author_links(ids_of_authors(new_rows), s.id) =~= author_links(ids, s.id));
    assert(a.authors_snippets@ + author_links(existing, s.id) + author_links(ids_of_authors(new_rows), s.id)
        =~= a.authors_snippets@ + author_links(ids, s.id));
    lemma_authors_after_links(a.authors_snippets@, ids, s.id);
    assert(b.snippet_ids()[a.snippets@.len() as int] == s.id);
}

/// After an update, a snippet reads back with exactly the new terms, and exactly the
/// new known authors followed by the new ones: nothing of the old associations stays.
pub proof fn lemma_update_reads_back(
    a: Database,
    b: Database,
    sid: Id,
    text: String,
    media: Media,
    link: Option<String>,
    terms: Seq<Id>,
    existing: Seq<Id>,
    new_rows: Seq<Author>,
)
    requires
        snippet_replaced(a, b, sid, text, media, link, terms, existing, new_rows),
    ensures
        linked_terms(b, sid) == terms,
        linked_authors(b, sid) == existing + ids_of_authors(new_rows),
{
    let kept_t = a.terms_snippets@.filter(term_row_kept(sid));
    broadcast use vstd::seq_lib::group_filter_ensures;
    assert forall|i: int| 0 <= i < kept_t.len() implies (#[trigger] kept_t[i]).snippet_id != sid by {
        assert(term_row_kept(sid)(kept_t[i]));
    }
    lemma_terms_after_links(kept_t, terms, sid);
    let kept_a = a.authors_snippets@.filter(author_row_kept(sid));
    broadcast use vstd::seq_lib::group_filter_ensures;
    assert forall|i: int| 0 <= i < kept_a.len() implies (#[trigger] kept_a[i]).snippet_id != sid by {
        assert(author_row_kept(sid)(kept_a[i]));
    }
    let ids = existing + ids_of_authors(new_rows);
    assert(author_links(existing, sid) + author_links(ids_of_authors(new_rows), sid) =~= author_links(ids, sid));
    assert(kept_a + author_links(existing, sid) + author_links(ids_of_authors(new_rows), sid) =~= kept_a + author_links(ids, sid));
    lemma_authors_after_links(kept_a, ids, sid);
}

} // verus!
