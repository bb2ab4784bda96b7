use vstd::prelude::*;
use crate::auth::{AuthData, admin_refusal, require_admin};
use crate::db::{Database, author_row_kept, term_row_kept};
use crate::db::snippets::{
    SnippetWithRelated, all_media, insert_outcome, media_stat, page_count, present_in, search_result,
    snippet_count, update_outcome,
};
use crate::error::Error;
use crate::models::{Author, Id, Media, Snippet};
use crate::validation::{CreateSnippet, MIN_TEXT_LENGTH, UpdateSnippet};

verus! {

/// Number of snippets on one page of search results.
pub const PAGE_SIZE: i64 = 20;

/// A search request: an optional term to match and a page number, counted from 1.
pub struct SnippetQueryStringExtractor {
    pub term_id: Option<Id>,
    pub page: i64,
}

/// One page of search results and the number of pages.
pub struct SnippetSearchResponse {
    pub pages: i64,
    pub snippets: Vec<SnippetWithRelated>,
}

/// Some snippet with the given body, whatever its drawn id and instants, was stored
/// with outcome `r`.
pub open spec fn created(
    a: Database,
    b: Database,
    text: String,
    media: Media,
    link: Option<String>,
    terms: Seq<Id>,
    existing: Seq<Id>,
    names: Seq<String>,
    r: Result<Id, Error>,
) -> bool {
    exists|s: Snippet, rows: Seq<Author>|
        s.text == text && s.media == media && s.link == link && #[trigger] insert_outcome(a, b, s, terms, existing, names, rows, r)
}

/// Creates a snippet, for administrators only, from a body whose text is long enough.
pub fn create(auth: Result<AuthData, Error>, body: CreateSnippet, db: &mut Database) -> (r: Result<Id, Error>)
    requires
        old(db).wf(),
    ensures
        final(db).wf(),
        match admin_refusal(auth) {
            Some(e) => r == Err::<Id, Error>(e) && *final(db) == *old(db),
            None => if body.text@.len() < MIN_TEXT_LENGTH {
                r matches Err(Error::BadRequest(_)) && *final(db) == *old(db)
            } else {
                created(*old(db), *final(db), body.text, body.media, body.link, body.terms@, body.existing_authors@, body.new_authors@, r)
            },
        },
{
    if let Err(e) = require_admin(auth) {
        return Err(e);
    }
    if let Err(e) = body.validate() {
        return Err(e);
    }
    let ghost d0 = *db;
    let ghost terms = body.terms@;
    let ghost existing = body.existing_authors@;
    let ghost names = body.new_authors@;
    let snippet = Snippet::new(body.text, body.media, body.link);
    let ghost s = snippet;
    let r = crate::db::snippets::insert(snippet, body.terms, body.existing_authors, body.new_authors, db);
    assert(exists|rows: Seq<Author>| #[trigger] insert_outcome(d0, *db, s, terms, existing, names, rows, r));
    r
}

/// All snippets, the most recently created first, to any holder of valid claims.
pub fn read_all(auth: Result<AuthData, Error>, db: &Database) -> (r: Result<Vec<SnippetWithRelated>, Error>)
    requires
        db.wf(),
    ensures
        auth is Err ==> r == Err::<Vec<SnippetWithRelated>, Error>(Error::Unauthorized),
        auth is Ok ==> (r matches Ok(v) && search_result(*db, None, None, None, v@)),
{
    if auth.is_err() {
        return Err(Error::Unauthorized);
    }
    crate::db::snippets::search(None, None, None, db)
}

/// One page of search results, `PAGE_SIZE` snippets from the start of page
/// `query.page`, with the number of pages, to any holder of valid claims. A page
/// before the first asks the storage for a negative offset: an internal failure.
pub fn search(auth: Result<AuthData, Error>, query: SnippetQueryStringExtractor, db: &Database) -> (r: Result<
    SnippetSearchResponse,
    Error,
>)
    requires
        db.wf(),
        db.snippets@.len() <= i64::MAX,
        db.terms_snippets@.len() <= i64::MAX,
        -(i64::MAX / PAGE_SIZE) < query.page <= i64::MAX / PAGE_SIZE,
    ensures
        auth is Err ==> r == Err::<SnippetSearchResponse, Error>(Error::Unauthorized),
        auth is Ok && query.page < 1 ==> r == Err::<SnippetSearchResponse, Error>(Error::InternalServerError),
        auth is Ok && query.page >= 1 ==> (r matches Ok(resp) && {
            &&& resp.pages == page_count(snippet_count(*db, query.term_id), PAGE_SIZE as int)
            &&& search_result(*db, query.term_id, Some(PAGE_SIZE), Some(((query.page - 1) * PAGE_SIZE) as i64), resp.snippets@)
        }),
{
    if auth.is_err() {
        return Err(Error::Unauthorized);
    }
    assert(i64::MIN <= (query.page - 1) * PAGE_SIZE <= i64::MAX) by (nonlinear_arith)
        requires
            -(i64::MAX / PAGE_SIZE) < query.page <= i64::MAX / PAGE_SIZE,
            PAGE_SIZE == 20,
    ;
    let offset = (query.page - 1) * PAGE_SIZE;
    let pages = match crate::db::snippets::count(query.term_id, PAGE_SIZE, db) {
        Ok(n) => n,
        Err(e) => {
            return Err(e);
        },
    };
    match crate::db::snippets::search(query.term_id, Some(PAGE_SIZE), Some(offset), db) {
        Ok(snippets) => Ok(SnippetSearchResponse { pages, snippets }),
        Err(e) => Err(e),
    }
}

/// Replaces the body and all associations of snippet `id`, for administrators only,
/// from a body whose text is long enough.
pub fn update(auth: Result<AuthData, Error>, id: Id, body: UpdateSnippet, db: &mut Database) -> (r: Result<(), Error>)
    requires
        old(db).wf(),
    ensures
        final(db).wf(),
        match admin_refusal(auth) {
            Some(e) => r == Err::<(), Error>(e) && *final(db) == *old(db),
            None => if body.text@.len() < MIN_TEXT_LENGTH {
                r matches Err(Error::BadRequest(_)) && *final(db) == *old(db)
            } else {
                exists|rows: Seq<Author>| #[trigger] update_outcome(
                    *old(db),
                    *final(db),
                    id,
                    body.text,
                    body.media,
                    body.link,
                    body.terms@,
                    body.existing_authors@,
                    body.new_authors@,
                    rows,
                    r,
                )
            },
        },
{
    if let Err(e) = require_admin(auth) {
        return Err(e);
    }
    if let Err(e) = body.validate() {
        return Err(e);
    }
    crate::db::snippets::update(
        id,
        body.text,
        body.media,
        body.link,
        body.terms,
        body.existing_authors,
        body.new_authors,
        db,
    )
}

/// Deletes snippet `id` with its associations, for administrators only.
pub fn delete(auth: Result<AuthData, Error>, id: Id, db: &mut Database) -> (r: Result<(), Error>)
    requires
        old(db).wf(),
    ensures
        final(db).wf(),
        match admin_refusal(auth) {
            Some(e) => r == Err::<(), Error>(e) && *final(db) == *old(db),
            None => {
                &&& r is Ok
                &&& !final(db).snippet_ids().contains(id)
                &&& final(db).terms_snippets@ == old(db).terms_snippets@.filter(term_row_kept(id))
                &&& final(db).authors_snippets@ == old(db).authors_snippets@.filter(author_row_kept(id))
            },
        },
{
    if let Err(e) = require_admin(auth) {
        return Err(e);
    }
    match crate::db::snippets::delete(id, db) {
        Ok(_) => Ok(()),
        Err(e) => Err(e),
    }
}

/// The number of snippets per medium, to any holder of valid claims.
pub fn stats(auth: Result<AuthData, Error>, db: &Database) -> (r: Result<Vec<(Media, i64)>, Error>)
    requires
        db.snippets@.len() <= i64::MAX,
    ensures
        auth is Err ==> r == Err::<Vec<(Media, i64)>, Error>(Error::Unauthorized),
        auth is Ok ==> (r matches Ok(v) && v@ == all_media().filter(present_in(*db)).map_values(media_stat(*db))),
{
    if auth.is_err() {
        return Err(Error::Unauthorized);
    }
    crate::db::snippets::select_media_stats(db)
}

} // verus!
