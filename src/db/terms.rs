use vstd::prelude::*;
use std::collections::HashMap;
use crate::db::{
    Database, edge_kept, lemma_filter_no_duplicates, lemma_no_duplicates_append, lemma_remove_keeps,
    lemma_remove_no_duplicates, push_related_links, related_links, remove_edges_from, remove_tags_of, tag_kept,
};
use crate::error::{Error, is_already_exists};
use crate::models::{Id, Term, TermRelated};
use crate::order::{order_by_instant, orders_by_instant};

verus! {

/// Every table but `terms` and `terms_related` is as before.
pub open spec fn only_terms_changed(a: Database, b: Database) -> bool {
    &&& b.users == a.users
    &&& b.passwords == a.passwords
    &&& b.authors == a.authors
    &&& b.authors_snippets == a.authors_snippets
    &&& b.snippets == a.snippets
    &&& b.terms_snippets == a.terms_snippets
}

/// Whether the edges from `tid` to each of `related` can be added to `edges` without
/// violating their composite key.
pub open spec fn edges_fit(edges: Seq<TermRelated>, tid: Id, related: Seq<Id>) -> bool {
    (edges + related_links(tid, related)).no_duplicates()
}

/// The outcome of storing `term` with edges to `related`: a conflict, changing nothing,
/// when the id is taken or an edge would repeat; otherwise the term and its edges added.
pub open spec fn term_inserted(a: Database, b: Database, term: Term, related: Seq<Id>, r: Result<Id, Error>) -> bool {
    &&& (!a.term_ids().contains(term.id) && edges_fit(a.terms_related@, term.id, related) <==> r is Ok)
    &&& r is Err ==> (r matches Err(e) && is_already_exists(e)) && b == a
    &&& r is Ok ==> {
        &&& r == Ok::<Id, Error>(term.id)
        &&& b.terms@ == a.terms@.push(term)
        &&& b.terms_related@ == a.terms_related@ + related_links(term.id, related)
        &&& only_terms_changed(a, b)
    }
}

/// The outcome of renaming term `id` and replacing its outgoing edges: a conflict,
/// changing nothing, when `related` repeats an id.
pub open spec fn term_updated(a: Database, b: Database, id: Id, name: String, related: Seq<Id>, r: Result<(), Error>) -> bool {
    &&& (related.no_duplicates() <==> r is Ok)
    &&& r is Err ==> (r matches Err(e) && is_already_exists(e)) && b == a
    &&& r is Ok ==> {
        &&& b.terms@.len() == a.terms@.len()
        &&& forall|i: int| 0 <= i < a.terms@.len() ==> #[trigger] b.terms@[i] == (
            if a.terms@[i].id == id {
                Term { name: name, ..a.terms@[i] }
            } else {
                a.terms@[i]
            })
        &&& b.terms_related@ == a.terms_related@.filter(edge_kept(id)) + related_links(id, related)
        &&& only_terms_changed(a, b)
    }
}

/// The outcome of deleting term `id`: its tags on snippets, its outgoing edges and the
/// term itself are gone; edges that point at it stay.
pub open spec fn term_deleted(a: Database, b: Database, id: Id, r: Result<usize, Error>) -> bool {
    &&& b.terms_snippets@ == a.terms_snippets@.filter(tag_kept(id))
    &&& b.terms_related@ == a.terms_related@.filter(edge_kept(id))
    &&& !b.term_ids().contains(id)
    &&& b.users == a.users
    &&& b.passwords == a.passwords
    &&& b.authors == a.authors
    &&& b.authors_snippets == a.authors_snippets
    &&& b.snippets == a.snippets
    &&& !a.term_ids().contains(id) ==> r == Ok::<usize, Error>(0) && b.terms == a.terms
    &&& a.term_ids().contains(id) ==> r == Ok::<usize, Error>(1) && exists|i: int|
        0 <= i < a.terms@.len() && a.terms@[i].id == id && b.terms@ == a.terms@.remove(i)
}

/// Whether adding the edges from `tid` to each of `related` violates their composite key.
fn edges_conflict(edges: &Vec<TermRelated>, tid: Id, related: &Vec<Id>) -> (r: bool)
    requires
        edges@.no_duplicates(),
    ensures
        r == !edges_fit(edges@, tid, related@),
{
    let l = Ghost(related_links(tid, related@));
    if crate::db::has_duplicate(related) {
        proof {
            let (x, y) = choose|x: int, y: int| 0 <= x < related@.len() && 0 <= y < related@.len() && x != y && related@[x] == related@[y];
            let c = edges@ + l@;
            assert(c[edges@.len() + x] == c[edges@.len() + y]);
        }
        return true;
    }
    let mut i: usize = 0;
    while i < edges.len()
        invariant
            i <= edges@.len(),
            l@ == related_links(tid, related@),
            forall|k: int| 0 <= k < i ==> !l@.contains(#[trigger] edges@[k]),
        decreases edges@.len() - i,
    {
        let e = edges[i];
        if e.term_id == tid {
            let mut j: usize = 0;
            while j < related.len()
                invariant
                    j <= related@.len(),
                    i < edges@.len(),
                    e == edges@[i as int],
                    e.term_id == tid,
                    l@ == related_links(tid, related@),
                    forall|k: int| 0 <= k < j ==> related@[k] != e.related_id,
                decreases related@.len() - j,
            {
                if related[j] == e.related_id {
                    proof {
                        let c = edges@ + l@;
                        assert(l@[j as int] == e);
                        assert(c[i as int] == c[edges@.len() + j]);
                    }
                    return true;
                }
                j = j + 1;
            }
            assert(!l@.contains(e)) by {
                if l@.contains(e) {
                    let k = choose|k: int| 0 <= k < l@.len() && l@[k] == e;
                    assert(related@[k] == e.related_id);
                }
            }
        } else {
            assert(!l@.contains(e)) by {
                if l@.contains(e) {
                    let k = choose|k: int| 0 <= k < l@.len() && l@[k] == e;
                    assert(l@[k].term_id == tid);
                }
            }
        }
        i = i + 1;
    }
    proof {
        assert(l@.no_duplicates()) by {
            assert forall|x: int, y: int| 0 <= x < l@.len() && 0 <= y < l@.len() && x != y implies l@[x] != l@[y] by {
                assert(related@[x] != related@[y]);
            }
        }
        assert(edges@.disjoint(l@)) by {
            assert forall|x: int, y: int| 0 <= x < edges@.len() && 0 <= y < l@.len() implies edges@[x] != l@[y] by {
                assert(!l@.contains(edges@[x]));
            }
        }
        lemma_no_duplicates_append(edges@, l@);
    }
    false
}

/// Stores `term` with edges to each of `related` in one transaction. Fails with a
/// conflict, changing nothing, when the id is taken or an edge would repeat. Edges
/// are not checked against the terms that exist.
pub fn insert(term: Term, related: Vec<Id>, db: &mut Database) -> (r: Result<Id, Error>)
    requires
        old(db).wf(),
    ensures
        final(db).wf(),
        term_inserted(*old(db), *final(db), term, related@, r),
{
    if let Some(i) = db.find_term(term.id) {
        assert(db.term_ids()[i as int] == term.id);
        return Err(Error::already_exists());
    }
    if edges_conflict(&db.terms_related, term.id, &related) {
        return Err(Error::already_exists());
    }
    let ghost before = *db;
    let tid = term.id;
    db.terms.push(term);
    push_related_links(&mut db.terms_related, tid, &related);
    proof {
        assert(db.term_ids() =~= before.term_ids() + seq![tid]);
        lemma_no_duplicates_append(before.term_ids(), seq![tid]);
        assert forall|x: Id| before.term_ids().contains(x) implies db.term_ids().contains(x) by {
            let k = choose|k: int| 0 <= k < before.term_ids().len() && before.term_ids()[k] == x;
            assert(db.term_ids()[k] == x);
        }
        assert forall|i: int| 0 <= i < db.terms_snippets@.len() implies {
            &&& db.term_ids().contains(#[trigger] db.terms_snippets@[i].term_id)
            &&& db.snippet_ids().contains(db.terms_snippets@[i].snippet_id)
        } by {
            assert(before.term_ids().contains(before.terms_snippets@[i].term_id));
        }
        assert(db.term_links_wf());
        assert(db.keys_wf());
        assert(db.users_wf()) by {
            assert(db.user_ids() == before.user_ids());
            assert(db.user_emails() == before.user_emails());
            assert(db.password_owners() == before.password_owners());
        }
        assert(db.author_links_wf()) by {
            assert(db.author_ids() == before.author_ids());
            assert(db.snippet_ids() == before.snippet_ids());
        }
    }
    Ok(tid)
}

/// Renames term `id` and replaces its outgoing edges by edges to each of `related`,
/// in one transaction. Fails with a conflict, changing nothing, when `related` repeats
/// an id.
pub fn update(id: Id, name: String, related: Vec<Id>, db: &mut Database) -> (r: Result<(), Error>)
    requires
        old(db).wf(),
    ensures
        final(db).wf(),
        term_updated(*old(db), *final(db), id, name, related@, r),
{
    if crate::db::has_duplicate(&related) {
        return Err(Error::already_exists());
    }
    let ghost d0 = *db;
    match db.find_term(id) {
        None => {
            assert forall|j: int| 0 <= j < db.terms@.len() implies db.terms@[j].id != id by {
                assert(db.term_ids()[j] == db.terms@[j].id);
            }
        },
        Some(i) => {
            proof {
                assert forall|j: int| 0 <= j < d0.terms@.len() && j != i implies d0.terms@[j].id != id by {
                    assert(d0.term_ids()[j] != d0.term_ids()[i as int]);
                }
            }
            let old_row = db.terms.remove(i);
            let row = Term { id: old_row.id, name, created_at: old_row.created_at, updated_at: old_row.updated_at };
            db.terms.insert(i, row);
            proof {
                assert(db.terms@ =~= d0.terms@.update(i as int, row));
            }
        },
    }
    proof {
        assert(db.term_ids() =~= d0.term_ids());
    }
    let ghost d1 = *db;
    let _ = remove_edges_from(&mut db.terms_related, id);
    let ghost kept = db.terms_related@;
    proof {
        lemma_filter_no_duplicates(d1.terms_related@, edge_kept(id));
        broadcast use vstd::seq_lib::group_filter_ensures;
        let l = related_links(id, related@);
        assert(l.no_duplicates()) by {
            assert forall|x: int, y: int| 0 <= x < l.len() && 0 <= y < l.len() && x != y implies l[x] != l[y] by {
                assert(related@[x] != related@[y]);
            }
        }
        assert forall|x: int, y: int| 0 <= x < kept.len() && 0 <= y < l.len() implies kept[x] != l[y] by {
            assert(edge_kept(id)(kept[x]));
        }
        lemma_no_duplicates_append(kept, l);
    }
    push_related_links(&mut db.terms_related, id, &related);
    proof {
        assert forall|i: int| 0 <= i < db.terms_snippets@.len() implies {
            &&& db.term_ids().contains(#[trigger] db.terms_snippets@[i].term_id)
            &&& db.snippet_ids().contains(db.terms_snippets@[i].snippet_id)
        } by {
            assert(d0.term_ids().contains(d0.terms_snippets@[i].term_id));
        }
        assert(db.term_links_wf());
        assert(db.keys_wf());
        assert(db.users_wf()) by {
            assert(db.user_ids() == d0.user_ids());
            assert(db.user_emails() == d0.user_emails());
            assert(db.password_owners() == d0.password_owners());
        }
        assert(db.author_links_wf()) by {
            assert(db.author_ids() == d0.author_ids());
            assert(db.snippet_ids() == d0.snippet_ids());
        }
    }
    Ok(())
}

/// Deletes term `id` in one transaction: first its tags on snippets and the edges that
/// leave it, then the term. Edges that point at it are kept. Returns the number of
/// terms deleted (0 or 1).
pub fn delete(id: Id, db: &mut Database) -> (r: Result<usize, Error>)
    requires
        old(db).wf(),
    ensures
        final(db).wf(),
        term_deleted(*old(db), *final(db), id, r),
{
    let ghost d0 = *db;
    let _ = remove_tags_of(&mut db.terms_snippets, id);
    let _ = remove_edges_from(&mut db.terms_related, id);
    proof {
        lemma_filter_no_duplicates(d0.terms_snippets@, tag_kept(id));
        lemma_filter_no_duplicates(d0.terms_related@, edge_kept(id));
        assert forall|j: int| 0 <= j < db.terms_snippets@.len() implies {
            &&& db.term_ids().contains(#[trigger] db.terms_snippets@[j].term_id)
            &&& db.snippet_ids().contains(db.terms_snippets@[j].snippet_id)
            &&& db.terms_snippets@[j].term_id != id
        } by {
            let x = db.terms_snippets@[j];
            assert(d0.terms_snippets@.filter(tag_kept(id))[j] == x);
            d0.terms_snippets@.lemma_filter_pred(tag_kept(id), j);
            d0.terms_snippets@.lemma_filter_contains_rev(tag_kept(id), x);
            let k = choose|k: int| 0 <= k < d0.terms_snippets@.len() && d0.terms_snippets@[k] == x;
            assert(d0.term_ids().contains(d0.terms_snippets@[k].term_id));
        }
        crate::db::lemma_users_frame(d0, *db);
        crate::db::lemma_author_links_frame(d0, *db);
        assert(db.keys_wf());
    }
    match db.find_term(id) {
        None => Ok(0),
        Some(i) => {
            let ghost before = *db;
            assert(before.term_ids()[i as int] == id);
            let _ = db.terms.remove(i);
            proof {
                assert(db.term_ids() =~= before.term_ids().remove(i as int));
                lemma_remove_no_duplicates(before.term_ids(), i as int);
                assert(!db.term_ids().contains(id)) by {
                    if db.term_ids().contains(id) {
                        let k = choose|k: int| 0 <= k < db.term_ids().len() && db.term_ids()[k] == id;
                        let j = if k < i { k } else { k + 1 };
                        assert(before.term_ids()[j] == id);
                    }
                }
                assert forall|j: int| 0 <= j < db.terms_snippets@.len() implies {
                    &&& db.term_ids().contains(#[trigger] db.terms_snippets@[j].term_id)
                    &&& db.snippet_ids().contains(db.terms_snippets@[j].snippet_id)
                } by {
                    assert(before.term_ids().contains(before.terms_snippets@[j].term_id));
                    assert(before.terms_snippets@[j].term_id != id);
                    lemma_remove_keeps(before.term_ids(), i as int, db.terms_snippets@[j].term_id);
                }
                assert(db.term_links_wf());
                assert(db.keys_wf());
                crate::db::lemma_users_frame(before, *db);
                crate::db::lemma_author_links_frame(before, *db);
            }
            Ok(1)
        },
    }
}

/// The creation instants of the terms, in table order.
pub open spec fn term_instants(db: Database) -> Seq<i64> {
    db.terms@.map_values(|t: Term| t.created_at)
}

/// `v` lists the terms of `db`, each once, the earliest created first (terms created at
/// the same instant in the order they were stored).
pub open spec fn lists_terms(db: Database, v: Seq<Term>) -> bool {
    exists|ord: Seq<usize>|
        #[trigger] orders_by_instant(term_instants(db), ord) && v.len() == ord.len() && forall|k: int|
            0 <= k < v.len() ==> #[trigger] v[k] == db.terms@[ord[k] as int]
}

/// `pair` holds the positions, in the term list `ord` (positions in the table), of the
/// two ends of edge `e`.
pub open spec fn edge_at(db: Database, ord: Seq<usize>, e: TermRelated, pair: Seq<usize>) -> bool {
    &&& pair.len() == 2
    &&& pair[0] < ord.len() && db.terms@[ord[pair[0] as int] as int].id == e.term_id
    &&& pair[1] < ord.len() && db.terms@[ord[pair[1] as int] as int].id == e.related_id
}

/// `names` and `pairs` are the term graph: the names of the terms in the order of
/// `select_all`, and each edge, in stored order, as the positions of its ends in that
/// list.
pub open spec fn graph_of(db: Database, names: Seq<String>, pairs: Seq<Vec<usize>>) -> bool {
    exists|ord: Seq<usize>|
        #[trigger] orders_by_instant(term_instants(db), ord) && {
            &&& names.len() == ord.len()
            &&& forall|k: int| 0 <= k < names.len() ==> #[trigger] names[k] == db.terms@[ord[k] as int].name
            &&& pairs.len() == db.terms_related@.len()
            &&& forall|k: int| 0 <= k < pairs.len() ==> edge_at(db, ord, db.terms_related@[k], #[trigger] pairs[k]@)
        }
}

/// The creation instants of the terms.
fn instants(db: &Database) -> (keys: Vec<i64>)
    ensures
        keys@ == term_instants(*db),
{
    let mut keys: Vec<i64> = Vec::new();
    let mut i: usize = 0;
    while i < db.terms.len()
        invariant
            i <= db.terms@.len(),
            keys@ == term_instants(*db).subrange(0, i as int),
        decreases db.terms@.len() - i,
    {
        keys.push(db.terms[i].created_at);
        i = i + 1;
        assert(keys@ =~= term_instants(*db).subrange(0, i as int));
    }
    assert(keys@ =~= term_instants(*db));
    keys
}

/// A copy of `t`.
fn copy_term(t: &Term) -> (r: Term)
    ensures
        r == *t,
{
    Term { id: t.id, name: t.name.clone(), created_at: t.created_at, updated_at: t.updated_at }
}

/// All terms, the earliest created first.
pub fn select_all(db: &Database) -> (r: Result<Vec<Term>, Error>)
    ensures
        r matches Ok(v) && lists_terms(*db, v@),
{
    let keys = instants(db);
    let ord = order_by_instant(&keys);
    let mut out: Vec<Term> = Vec::new();
    let mut k: usize = 0;
    while k < ord.len()
        invariant
            orders_by_instant(term_instants(*db), ord@),
            k <= ord@.len(),
            out@.len() == k,
            forall|x: int| 0 <= x < k ==> #[trigger] out@[x] == db.terms@[ord@[x] as int],
        decreases ord@.len() - k,
    {
        out.push(copy_term(&db.terms[ord[k]]));
        k = k + 1;
    }
    Ok(out)
}

/// All edges between terms.
pub fn select_related(db: &Database) -> (r: &Vec<TermRelated>)
    ensures
        r@ == db.terms_related@,
{
    &db.terms_related
}

/// Both ends of every edge are terms that exist.
pub open spec fn edges_resolved(db: Database) -> bool {
    forall|k: int|
        0 <= k < db.terms_related@.len() ==> db.term_ids().contains(#[trigger] db.terms_related@[k].term_id)
            && db.term_ids().contains(db.terms_related@[k].related_id)
}

/// The term graph: the names of all terms, in the order of `select_all`, and each edge
/// as the pair of positions of its ends in that list. The positions come from one map
/// from id to position, built once. An edge with an end that is not a term fails with
/// an internal error.
pub fn select_graph(db: &Database) -> (r: Result<(Vec<String>, Vec<Vec<usize>>), Error>)
    requires
        db.wf(),
    ensures
        edges_resolved(*db) <==> r is Ok,
        r is Err ==> r == Err::<(Vec<String>, Vec<Vec<usize>>), Error>(Error::InternalServerError),
        r matches Ok((names, pairs)) ==> graph_of(*db, names@, pairs@),
{
    broadcast use vstd::std_specs::hash::group_hash_axioms;

    let keys = instants(db);
    let ord = order_by_instant(&keys);
    let n = ord.len();
    let mut index: HashMap<Id, usize> = HashMap::new();
    let mut i: usize = 0;
    while i < n
        invariant
            orders_by_instant(term_instants(*db), ord@),
            n == ord@.len(),
            n == db.terms@.len(),
            i <= n,
            forall|id: Id|
                #[trigger] index@.contains_key(id) ==> index@[id] < i && db.terms@[ord@[index@[id] as int] as int].id == id,
            forall|x: int| 0 <= x < i ==> #[trigger] index@.contains_key(db.terms@[ord@[x] as int].id),
        decreases n - i,
    {
        index.insert(db.terms[ord[i]].id, i);
        i = i + 1;
    }
    proof {
        assert forall|id: Id| db.term_ids().contains(id) implies #[trigger] index@.contains_key(id) by {
            let j = choose|j: int| 0 <= j < db.term_ids().len() && db.term_ids()[j] == id;
            assert(ord@.contains(j as usize));
            let x = choose|x: int| 0 <= x < ord@.len() && ord@[x] == j as usize;
            assert(index@.contains_key(db.terms@[ord@[x] as int].id));
        }
        assert forall|id: Id| #[trigger] index@.contains_key(id) implies db.term_ids().contains(id) by {
            let p = ord@[index@[id] as int] as int;
            assert(db.term_ids()[p] == id);
        }
    }
    let mut pairs: Vec<Vec<usize>> = Vec::new();
    let mut k: usize = 0;
    while k < db.terms_related.len()
        invariant
            orders_by_instant(term_instants(*db), ord@),
            n == ord@.len(),
            k <= db.terms_related@.len(),
            forall|id: Id|
                #[trigger] index@.contains_key(id) ==> index@[id] < n && db.terms@[ord@[index@[id] as int] as int].id == id,
            forall|id: Id| #[trigger] index@.contains_key(id) <==> db.term_ids().contains(id),
            pairs@.len() == k,
            forall|x: int| 0 <= x < k ==> edge_at(*db, ord@, db.terms_related@[x], #[trigger] pairs@[x]@),
            forall|x: int|
                0 <= x < k ==> db.term_ids().contains(#[trigger] db.terms_related@[x].term_id)
                    && db.term_ids().contains(db.terms_related@[x].related_id),
        decreases db.terms_related@.len() - k,
    {
        let e = db.terms_related[k];
        let from = match index.get(&e.term_id) {
            Some(p) => *p,
            None => {
                assert(!db.term_ids().contains(db.terms_related@[k as int].term_id));
                return Err(Error::InternalServerError);
            },
        };
        let to = match index.get(&e.related_id) {
            Some(p) => *p,
            None => {
                assert(!db.term_ids().contains(db.terms_related@[k as int].related_id));
                return Err(Error::InternalServerError);
            },
        };
        let mut pair: Vec<usize> = Vec::new();
        pair.push(from);
        pair.push(to);
        pairs.push(pair);
        k = k + 1;
    }
    let mut names: Vec<String> = Vec::new();
    let mut j: usize = 0;
    while j < n
        invariant
            orders_by_instant(term_instants(*db), ord@),
            n == ord@.len(),
            j <= n,
            names@.len() == j,
            forall|x: int| 0 <= x < j ==> #[trigger] names@[x] == db.terms@[ord@[x] as int].name,
        decreases n - j,
    {
        names.push(db.terms[ord[j]].name.clone());
        j = j + 1;
    }
    assert(graph_of(*db, names@, pairs@));
    Ok((names, pairs))
}

} // verus!
