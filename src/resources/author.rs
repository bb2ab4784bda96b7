use vstd::prelude::*;
use crate::auth::AuthData;
use crate::db::Database;
use crate::error::Error;
use crate::db::authors::lists_authors;
use crate::models::{Author, Id};

verus! {

/// An author as the interface shows it.
pub struct AuthorResponse {
    pub id: Id,
    pub name: String,
}

/// All authors, ordered by name, to any holder of valid claims.
pub fn read_all(auth: Result<AuthData, Error>, db: &Database) -> (r: Result<Vec<AuthorResponse>, Error>)
    ensures
        auth is Err ==> r == Err::<Vec<AuthorResponse>, Error>(Error::Unauthorized),
        auth is Ok ==> (r matches Ok(v) && exists|rows: Seq<Author>|
            #[trigger] lists_authors(*db, rows) && rows.len() == v@.len() && forall|k: int|
                0 <= k < v@.len() ==> (#[trigger] v@[k]).id == rows[k].id && v@[k].name == rows[k].name),
{
    if auth.is_err() {
        return Err(Error::Unauthorized);
    }
    let authors = match crate::db::authors::select_all(db) {
        Ok(v) => v,
        Err(e) => {
            return Err(e);
        },
    };
    let mut out: Vec<AuthorResponse> = Vec::new();
    let mut i: usize = 0;
    while i < authors.len()
        invariant
            lists_authors(*db, authors@),
            i <= authors@.len(),
            out@.len() == i,
            forall|k: int| 0 <= k < i ==> (#[trigger] out@[k]).id == authors@[k].id && out@[k].name == authors@[k].name,
        decreases authors@.len() - i,
    {
        out.push(AuthorResponse { id: authors[i].id, name: authors[i].name.clone() });
        i = i + 1;
    }
    Ok(out)
}

} // verus!
