use vstd::prelude::*;
use crate::auth::{AuthData, admin_refusal, require_admin};
use crate::db::Database;
use crate::db::terms::{edges_resolved, graph_of, lists_terms, term_deleted, term_inserted, term_updated};
use crate::error::Error;
use crate::models::{Id, Term, TermRelated};
use crate::validation::MIN_NAME_LENGTH;

verus! {

/// A request to create a term with edges to related terms.
pub struct CreateTerm {
    pub name: String,
    pub related: Vec<Id>,
}

/// A request to rename a term and replace its edges.
pub struct UpdateTerm {
    pub name: String,
    pub related: Vec<Id>,
}

/// A term as the interface shows it, with the terms it points at.
pub struct TermResponse {
    pub id: Id,
    pub name: String,
    pub related: Vec<Id>,
}

/// The term graph as the interface shows it.
pub struct TermGraphResponse {
    pub terms: Vec<String>,
    pub nodes: Vec<Vec<usize>>,
}

/// Edges that leave term `tid`.
pub open spec fn edge_from(tid: Id) -> spec_fn(TermRelated) -> bool {
    |e: TermRelated| e.term_id == tid
}

/// The terms that term `tid` points at, in the order of the edges.
pub open spec fn related_of(db: Database, tid: Id) -> Seq<Id> {
    db.terms_related@.filter(edge_from(tid)).map_values(|e: TermRelated| e.related_id)
}

/// Whether `name` is long enough for a term.
fn name_ok(name: &String) -> (r: bool)
    ensures
        r == (name@.len() >= MIN_NAME_LENGTH),
{
    name.as_str().unicode_len() >= MIN_NAME_LENGTH
}

/// Creates a term with a fresh random id, for administrators only, from a body whose
/// name is long enough.
pub fn create(auth: Result<AuthData, Error>, body: CreateTerm, db: &mut Database) -> (r: Result<Id, Error>)
    requires
        old(db).wf(),
    ensures
        final(db).wf(),
        match admin_refusal(auth) {
            Some(e) => r == Err::<Id, Error>(e) && *final(db) == *old(db),
            None => if body.name@.len() < MIN_NAME_LENGTH {
                r matches Err(Error::BadRequest(_)) && *final(db) == *old(db)
            } else {
                exists|t: Term| t.name == body.name && #[trigger] term_inserted(*old(db), *final(db), t, body.related@, r)
            },
        },
{
    if let Err(e) = require_admin(auth) {
        return Err(e);
    }
    if !name_ok(&body.name) {
        return Err(Error::BadRequest("name is too short".to_string()));
    }
    let term = Term::new(body.name);
    crate::db::terms::insert(term, body.related, db)
}

/// All terms, the earliest created first, each with the terms it points at, to any
/// holder of valid claims.
pub fn read_all(auth: Result<AuthData, Error>, db: &Database) -> (r: Result<Vec<TermResponse>, Error>)
    ensures
        auth is Err ==> r == Err::<Vec<TermResponse>, Error>(Error::Unauthorized),
        auth is Ok ==> (r matches Ok(v) && exists|ts: Seq<Term>|
            #[trigger] lists_terms(*db, ts) && v@.len() == ts.len() && forall|k: int|
                0 <= k < v@.len() ==> {
                    &&& (#[trigger] v@[k]).id == ts[k].id
                    &&& v@[k].name == ts[k].name
                    &&& v@[k].related@ == related_of(*db, ts[k].id)
                }),
{
    if auth.is_err() {
        return Err(Error::Unauthorized);
    }
    let terms = match crate::db::terms::select_all(db) {
        Ok(v) => v,
        Err(e) => {
            return Err(e);
        },
    };
    let edges = crate::db::terms::select_related(db);
    let mut out: Vec<TermResponse> = Vec::new();
    let mut i: usize = 0;
    while i < terms.len()
        invariant
            lists_terms(*db, terms@),
            edges@ == db.terms_related@,
            i <= terms@.len(),
            out@.len() == i,
            forall|k: int|
                0 <= k < i ==> {
                    &&& (#[trigger] out@[k]).id == terms@[k].id
                    &&& out@[k].name == terms@[k].name
                    &&& out@[k].related@ == related_of(*db, terms@[k].id)
                },
        decreases terms@.len() - i,
    {
        let tid = terms[i].id;
        let mut related: Vec<Id> = Vec::new();
        let mut j: usize = 0;
        while j < edges.len()
            invariant
                edges@ == db.terms_related@,
                j <= edges@.len(),
                related@ == edges@.subrange(0, j as int).filter(edge_from(tid)).map_values(|e: TermRelated| e.related_id),
            decreases edges@.len() - j,
        {
            let e = edges[j];
            let ghost before = edges@.subrange(0, j as int).filter(edge_from(tid));
            proof {
                assert(edges@.subrange(0, j + 1) =~= edges@.subrange(0, j as int).push(e));
                edges@.subrange(0, j as int).lemma_filter_push(e, edge_from(tid));
            }
            if e.term_id == tid {
                related.push(e.related_id);
                assert(before.push(e).map_values(|e: TermRelated| e.related_id) =~= before.map_values(|e: TermRelated| e.related_id).push(e.related_id));
            }
            j = j + 1;
        }
        assert(edges@.subrange(0, j as int) =~= edges@);
        out.push(TermResponse { id: tid, name: terms[i].name.clone(), related });
        i = i + 1;
    }
    Ok(out)
}

/// Renames term `id` and replaces its outgoing edges, for administrators only, from a
/// body whose name is long enough.
pub fn update(auth: Result<AuthData, Error>, id: Id, body: UpdateTerm, db: &mut Database) -> (r: Result<(), Error>)
    requires
        old(db).wf(),
    ensures
        final(db).wf(),
        match admin_refusal(auth) {
            Some(e) => r == Err::<(), Error>(e) && *final(db) == *old(db),
            None => if body.name@.len() < MIN_NAME_LENGTH {
                r matches Err(Error::BadRequest(_)) && *final(db) == *old(db)
            } else {
                term_updated(*old(db), *final(db), id, body.name, body.related@, r)
            },
        },
{
    if let Err(e) = require_admin(auth) {
        return Err(e);
    }
    if !name_ok(&body.name) {
        return Err(Error::BadRequest("name is too short".to_string()));
    }
    crate::db::terms::update(id, body.name, body.related, db)
}

/// Deletes term `id` and its outgoing edges, for administrators only.
pub fn delete(auth: Result<AuthData, Error>, id: Id, db: &mut Database) -> (r: Result<(), Error>)
    requires
        old(db).wf(),
    ensures
        final(db).wf(),
        match admin_refusal(auth) {
            Some(e) => r == Err::<(), Error>(e) && *final(db) == *old(db),
            None => r is Ok && exists|n: Result<usize, Error>| #[trigger] term_deleted(*old(db), *final(db), id, n),
        },
{
    if let Err(e) = require_admin(auth) {
        return Err(e);
    }
    let ghost d0 = *db;
    let n = crate::db::terms::delete(id, db);
    assert(term_deleted(d0, *db, id, n));
    match n {
        Ok(_) => Ok(()),
        Err(e) => Err(e),
    }
}

/// The term graph, to any holder of valid claims.
pub fn read_graph(auth: Result<AuthData, Error>, db: &Database) -> (r: Result<TermGraphResponse, Error>)
    requires
        db.wf(),
    ensures
        auth is Err ==> r == Err::<TermGraphResponse, Error>(Error::Unauthorized),
        auth is Ok ==> (edges_resolved(*db) <==> r is Ok),
        auth is Ok && r is Err ==> r == Err::<TermGraphResponse, Error>(Error::InternalServerError),
        r matches Ok(g) ==> graph_of(*db, g.terms@, g.nodes@),
{
    if auth.is_err() {
        return Err(Error::Unauthorized);
    }
    match crate::db::terms::select_graph(db) {
        Ok((terms, nodes)) => Ok(TermGraphResponse { terms, nodes }),
        Err(e) => Err(e),
    }
}

} // verus!
