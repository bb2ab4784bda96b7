use vstd::prelude::*;
use crate::models::{Author, AuthorSnippet, Id, Password, Snippet, Term, TermRelated, TermSnippet, User};

pub mod authors;
pub mod snippets;
pub mod terms;
pub mod users;

verus! {

/// The relational state: one table per entity and one per junction.
/// Rows of each table are kept in the order in which they were created.
pub struct Database {
    pub users: Vec<User>,
    pub passwords: Vec<Password>,
    pub authors: Vec<Author>,
    pub authors_snippets: Vec<AuthorSnippet>,
    pub snippets: Vec<Snippet>,
    pub terms: Vec<Term>,
    pub terms_related: Vec<TermRelated>,
    pub terms_snippets: Vec<TermSnippet>,
}

/// Why a statement fails: a unique or composite key is violated (reported as a
/// conflict), or a foreign key is (an internal failure).
pub enum Fault {
    Conflict,
    Internal,
}

/// The fault raised by inserting one junction row per key, where `known` holds the
/// keys that the referenced table has: repeated keys violate the composite key, checked
/// row by row; a key missing from `known` violates the foreign key, checked after.
pub open spec fn links_fault(keys: Seq<Id>, known: Seq<Id>) -> Option<Fault> {
    if !keys.no_duplicates() {
        Some(Fault::Conflict)
    } else if exists|i: int| 0 <= i < keys.len() && !known.contains(keys[i]) {
        Some(Fault::Internal)
    } else {
        None
    }
}

/// `r` is the error that `f` stands for.
pub open spec fn reports(r: crate::error::Error, f: Fault) -> bool {
    match f {
        Fault::Conflict => crate::error::is_already_exists(r),
        Fault::Internal => r == crate::error::Error::InternalServerError,
    }
}

/// The junction rows tagging snippet `sid` with each of `terms`.
pub open spec fn term_links(terms: Seq<Id>, sid: Id) -> Seq<TermSnippet> {
    terms.map_values(|t: Id| TermSnippet { term_id: t, snippet_id: sid })
}

/// The junction rows naming each of `authors` as an author of snippet `sid`.
pub open spec fn author_links(authors: Seq<Id>, sid: Id) -> Seq<AuthorSnippet> {
    authors.map_values(|a: Id| AuthorSnippet { author_id: a, snippet_id: sid })
}

/// The edges from term `tid` to each of `related`.
pub open spec fn related_links(tid: Id, related: Seq<Id>) -> Seq<TermRelated> {
    related.map_values(|r: Id| TermRelated { term_id: tid, related_id: r })
}

/// Rows of `terms_snippets` that do not belong to snippet `sid`.
pub open spec fn term_row_kept(sid: Id) -> spec_fn(TermSnippet) -> bool {
    |r: TermSnippet| r.snippet_id != sid
}

/// Rows of `authors_snippets` that do not belong to snippet `sid`.
pub open spec fn author_row_kept(sid: Id) -> spec_fn(AuthorSnippet) -> bool {
    |r: AuthorSnippet| r.snippet_id != sid
}

/// Rows of `authors_snippets` that do not name author `aid`.
pub open spec fn membership_kept(aid: Id) -> spec_fn(AuthorSnippet) -> bool {
    |r: AuthorSnippet| r.author_id != aid
}

/// Rows of `terms_snippets` that do not tag with term `tid`.
pub open spec fn tag_kept(tid: Id) -> spec_fn(TermSnippet) -> bool {
    |r: TermSnippet| r.term_id != tid
}

/// Edges of `terms_related` that do not leave term `tid`.
pub open spec fn edge_kept(tid: Id) -> spec_fn(TermRelated) -> bool {
    |r: TermRelated| r.term_id != tid
}

impl Database {
    /// The ids of the users, in table order.
    pub open spec fn user_ids(&self) -> Seq<Id> {
        self.users@.map_values(|u: User| u.id)
    }

    /// The e-mail addresses of the users, in table order.
    pub open spec fn user_emails(&self) -> Seq<Seq<char>> {
        self.users@.map_values(|u: User| u.email@)
    }

    /// The users that the password rows belong to, in table order.
    pub open spec fn password_owners(&self) -> Seq<Id> {
        self.passwords@.map_values(|p: Password| p.user_id)
    }

    /// The ids of the authors, in table order.
    pub open spec fn author_ids(&self) -> Seq<Id> {
        self.authors@.map_values(|a: Author| a.id)
    }

    /// The ids of the snippets, in table order.
    pub open spec fn snippet_ids(&self) -> Seq<Id> {
        self.snippets@.map_values(|s: Snippet| s.id)
    }

    /// The ids of the terms, in table order.
    pub open spec fn term_ids(&self) -> Seq<Id> {
        self.terms@.map_values(|t: Term| t.id)
    }

    /// User ids and e-mail addresses are unique, and users and password rows match one to one.
    pub open spec fn users_wf(&self) -> bool {
        &&& self.user_ids().no_duplicates()
        &&& self.user_emails().no_duplicates()
        &&& self.password_owners().no_duplicates()
        &&& forall|i: int|
            0 <= i < self.passwords@.len() ==> self.user_ids().contains(
                #[trigger] self.passwords@[i].user_id,
            )
        &&& forall|i: int|
            0 <= i < self.users@.len() ==> self.password_owners().contains(
                #[trigger] self.users@[i].id,
            )
    }

    /// Ids of authors, snippets and terms are unique, and so are the edges between terms.
    pub open spec fn keys_wf(&self) -> bool {
        &&& self.author_ids().no_duplicates()
        &&& self.snippet_ids().no_duplicates()
        &&& self.term_ids().no_duplicates()
        &&& self.terms_related@.no_duplicates()
    }

    /// Term tags are unique and refer to a term and a snippet that exist.
    pub open spec fn term_links_wf(&self) -> bool {
        &&& self.terms_snippets@.no_duplicates()
        &&& forall|i: int|
            0 <= i < self.terms_snippets@.len() ==> {
                &&& self.term_ids().contains(#[trigger] self.terms_snippets@[i].term_id)
                &&& self.snippet_ids().contains(self.terms_snippets@[i].snippet_id)
            }
    }

    /// Author memberships are unique and refer to an author and a snippet that exist.
    pub open spec fn author_links_wf(&self) -> bool {
        &&& self.authors_snippets@.no_duplicates()
        &&& forall|i: int|
            0 <= i < self.authors_snippets@.len() ==> {
                &&& self.author_ids().contains(#[trigger] self.authors_snippets@[i].author_id)
                &&& self.snippet_ids().contains(self.authors_snippets@[i].snippet_id)
            }
    }

    /// Keys are unique, every user has exactly one password row, and every junction
    /// row refers to rows that exist. Edges between terms are unique but unchecked.
    pub open spec fn wf(&self) -> bool {
        &&& self.users_wf()
        &&& self.keys_wf()
        &&& self.term_links_wf()
        &&& self.author_links_wf()
    }

    /// An empty database.
    pub fn new() -> (r: Database)
        ensures
            r.wf(),
            r.users@.len() == 0,
            r.passwords@.len() == 0,
            r.authors@.len() == 0,
            r.authors_snippets@.len() == 0,
            r.snippets@.len() == 0,
            r.terms@.len() == 0,
            r.terms_related@.len() == 0,
            r.terms_snippets@.len() == 0,
    {
        Database {
            users: Vec::new(),
            passwords: Vec::new(),
            authors: Vec::new(),
            authors_snippets: Vec::new(),
            snippets: Vec::new(),
            terms: Vec::new(),
            terms_related: Vec::new(),
            terms_snippets: Vec::new(),
        }
    }

    /// The position of the snippet with id `id`.
    pub fn find_snippet(&self, id: Id) -> (r: Option<usize>)
        ensures
            match r {
                Some(i) => i < self.snippets@.len() && self.snippets@[i as int].id == id,
                None => !self.snippet_ids().contains(id),
            },
    {
        let mut i: usize = 0;
        while i < self.snippets.len()
            invariant
                i <= self.snippets@.len(),
                forall|k: int| 0 <= k < i ==> self.snippets@[k].id != id,
            decreases self.snippets@.len() - i,
        {
            if self.snippets[i].id == id {
                return Some(i);
            }
            i = i + 1;
        }
        proof {
            assert(!self.snippet_ids().contains(id)) by {
                if self.snippet_ids().contains(id) {
                    let k = choose|k: int| 0 <= k < self.snippet_ids().len() && self.snippet_ids()[k] == id;
                    assert(self.snippets@[k].id == id);
                }
            }
        }
        None
    }

    /// The position of the term with id `id`.
    pub fn find_term(&self, id: Id) -> (r: Option<usize>)
        ensures
            match r {
                Some(i) => i < self.terms@.len() && self.terms@[i as int].id == id,
                None => !self.term_ids().contains(id),
            },
    {
        let mut i: usize = 0;
        while i < self.terms.len()
            invariant
                i <= self.terms@.len(),
                forall|k: int| 0 <= k < i ==> self.terms@[k].id != id,
            decreases self.terms@.len() - i,
        {
            if self.terms[i].id == id {
                return Some(i);
            }
            i = i + 1;
        }
        proof {
            assert(!self.term_ids().contains(id)) by {
                if self.term_ids().contains(id) {
                    let k = choose|k: int| 0 <= k < self.term_ids().len() && self.term_ids()[k] == id;
                    assert(self.terms@[k].id == id);
                }
            }
        }
        None
    }

    /// The position of the author with id `id`.
    pub fn find_author(&self, id: Id) -> (r: Option<usize>)
        ensures
            match r {
                Some(i) => i < self.authors@.len() && self.authors@[i as int].id == id,
                None => !self.author_ids().contains(id),
            },
    {
        let mut i: usize = 0;
        while i < self.authors.len()
            invariant
                i <= self.authors@.len(),
                forall|k: int| 0 <= k < i ==> self.authors@[k].id != id,
            decreases self.authors@.len() - i,
        {
            if self.authors[i].id == id {
                return Some(i);
            }
            i = i + 1;
        }
        proof {
            assert(!self.author_ids().contains(id)) by {
                if self.author_ids().contains(id) {
                    let k = choose|k: int| 0 <= k < self.author_ids().len() && self.author_ids()[k] == id;
                    assert(self.authors@[k].id == id);
                }
            }
        }
        None
    }

    /// The position of the user with id `id`, deleted or not.
    pub fn find_user(&self, id: Id) -> (r: Option<usize>)
        ensures
            match r {
                Some(i) => i < self.users@.len() && self.users@[i as int].id == id,
                None => !self.user_ids().contains(id),
            },
    {
        let mut i: usize = 0;
        while i < self.users.len()
            invariant
                i <= self.users@.len(),
                forall|k: int| 0 <= k < i ==> self.users@[k].id != id,
            decreases self.users@.len() - i,
        {
            if self.users[i].id == id {
                return Some(i);
            }
            i = i + 1;
        }
        proof {
            assert(!self.user_ids().contains(id)) by {
                if self.user_ids().contains(id) {
                    let k = choose|k: int| 0 <= k < self.user_ids().len() && self.user_ids()[k] == id;
                    assert(self.users@[k].id == id);
                }
            }
        }
        None
    }

    /// The position of the user with e-mail address `email`, deleted or not.
    pub fn find_user_by_email(&self, email: &String) -> (r: Option<usize>)
        ensures
            match r {
                Some(i) => i < self.users@.len() && self.users@[i as int].email@ == email@,
                None => !self.user_emails().contains(email@),
            },
    {
        let mut i: usize = 0;
        while i < self.users.len()
            invariant
                i <= self.users@.len(),
                forall|k: int| 0 <= k < i ==> self.users@[k].email@ != email@,
            decreases self.users@.len() - i,
        {
            if self.users[i].email == *email {
                return Some(i);
            }
            i = i + 1;
        }
        proof {
            assert(!self.user_emails().contains(email@)) by {
                if self.user_emails().contains(email@) {
                    let k = choose|k: int| 0 <= k < self.user_emails().len() && self.user_emails()[k] == email@;
                    assert(self.users@[k].email@ == email@);
                }
            }
        }
        None
    }

    /// The position of the password row of user `id`.
    pub fn find_password(&self, id: Id) -> (r: Option<usize>)
        ensures
            match r {
                Some(i) => i < self.passwords@.len() && self.passwords@[i as int].user_id == id,
                None => !self.password_owners().contains(id),
            },
    {
        let mut i: usize = 0;
        while i < self.passwords.len()
            invariant
                i <= self.passwords@.len(),
                forall|k: int| 0 <= k < i ==> self.passwords@[k].user_id != id,
            decreases self.passwords@.len() - i,
        {
            if self.passwords[i].user_id == id {
                return Some(i);
            }
            i = i + 1;
        }
        proof {
            assert(!self.password_owners().contains(id)) by {
                if self.password_owners().contains(id) {
                    let k = choose|k: int| 0 <= k < self.password_owners().len() && self.password_owners()[k] == id;
                    assert(self.passwords@[k].user_id == id);
                }
            }
        }
        None
    }
}

/// Whether `keys` holds some value twice.
pub fn has_duplicate(keys: &Vec<Id>) -> (r: bool)
    ensures
        r == !keys@.no_duplicates(),
{
    let mut i: usize = 0;
    while i < keys.len()
        invariant
            i <= keys@.len(),
            forall|a: int, b: int| 0 <= a < keys@.len() && 0 <= b < keys@.len() && a != b && (a < i || b < i) ==> keys@[a] != keys@[b],
        decreases keys@.len() - i,
    {
        let mut j: usize = i + 1;
        while j < keys.len()
            invariant
                i < keys@.len(),
                i + 1 <= j <= keys@.len(),
                forall|a: int, b: int| 0 <= a < keys@.len() && 0 <= b < keys@.len() && a != b && (a < i || b < i) ==> keys@[a] != keys@[b],
                forall|b: int| i < b < j ==> keys@[i as int] != keys@[b],
            decreases keys@.len() - j,
        {
            if keys[i] == keys[j] {
                return true;
            }
            j = j + 1;
        }
        i = i + 1;
    }
    false
}

/// Two sequences without duplicates and without a common element concatenate to one
/// without duplicates.
pub proof fn lemma_no_duplicates_append<T>(a: Seq<T>, b: Seq<T>)
    requires
        a.no_duplicates(),
        b.no_duplicates(),
        a.disjoint(b),
    ensures
        (a + b).no_duplicates(),
{
    let c = a + b;
    assert forall|i: int, j: int| 0 <= i < c.len() && 0 <= j < c.len() && i != j implies c[i] != c[j] by {
        if i < a.len() && j >= a.len() {
            assert(c[j] == b[j - a.len()]);
        } else if j < a.len() && i >= a.len() {
            assert(c[i] == b[i - a.len()]);
        }
    }
}

/// Filtering keeps a sequence free of duplicates.
pub proof fn lemma_filter_no_duplicates<T>(s: Seq<T>, p: spec_fn(T) -> bool)
    requires
        s.no_duplicates(),
    ensures
        s.filter(p).no_duplicates(),
    decreases s.len(),
{
    reveal(Seq::filter);
    if s.len() > 0 {
        let rest = s.drop_last();
        assert(rest.no_duplicates());
        lemma_filter_no_duplicates(rest, p);
        if p(s.last()) {
            let f = rest.filter(p);
            assert(!f.contains(s.last())) by {
                if f.contains(s.last()) {
                    rest.lemma_filter_contains_rev(p, s.last());
                    let k = choose|k: int| 0 <= k < rest.len() && rest[k] == s.last();
                    assert(s[k] == s[s.len() - 1]);
                }
            }
            assert forall|i: int, j: int| 0 <= i < f.push(s.last()).len() && 0 <= j < f.push(s.last()).len() && i != j implies f.push(s.last())[i] != f.push(s.last())[j] by {
                if i == f.len() {
                    assert(f.push(s.last())[j] == f[j]);
                } else if j == f.len() {
                    assert(f.push(s.last())[i] == f[i]);
                }
            }
        }
    }
}

/// Appends one row tagging snippet `sid` with each of `terms`.
pub fn push_term_links(rows: &mut Vec<TermSnippet>, terms: &Vec<Id>, sid: Id)
    ensures
        final(rows)@ == old(rows)@ + term_links(terms@, sid),
{
    let ghost start = rows@;
    let mut i: usize = 0;
    while i < terms.len()
        invariant
            i <= terms@.len(),
            rows@ == start + term_links(terms@.subrange(0, i as int), sid),
        decreases terms@.len() - i,
    {
        rows.push(TermSnippet::new(terms[i], sid));
        i = i + 1;
        assert(term_links(terms@.subrange(0, i as int), sid) =~= term_links(terms@.subrange(0, i - 1), sid).push(TermSnippet { term_id: terms@[i - 1], snippet_id: sid }));
    }
    assert(terms@.subrange(0, i as int) =~= terms@);
}

/// Appends one row naming each of `authors` as an author of snippet `sid`.
pub fn push_author_links(rows: &mut Vec<AuthorSnippet>, authors: &Vec<Id>, sid: Id)
    ensures
        final(rows)@ == old(rows)@ + author_links(authors@, sid),
{
    let ghost start = rows@;
    let mut i: usize = 0;
    while i < authors.len()
        invariant
            i <= authors@.len(),
            rows@ == start + author_links(authors@.subrange(0, i as int), sid),
        decreases authors@.len() - i,
    {
        rows.push(AuthorSnippet::new(authors[i], sid));
        i = i + 1;
        assert(author_links(authors@.subrange(0, i as int), sid) =~= author_links(authors@.subrange(0, i - 1), sid).push(AuthorSnippet { author_id: authors@[i - 1], snippet_id: sid }));
    }
    assert(authors@.subrange(0, i as int) =~= authors@);
}

/// Appends one edge from term `tid` to each of `related`.
pub fn push_related_links(rows: &mut Vec<TermRelated>, tid: Id, related: &Vec<Id>)
    ensures
        final(rows)@ == old(rows)@ + related_links(tid, related@),
{
    let ghost start = rows@;
    let mut i: usize = 0;
    while i < related.len()
        invariant
            i <= related@.len(),
            rows@ == start + related_links(tid, related@.subrange(0, i as int)),
        decreases related@.len() - i,
    {
        rows.push(TermRelated::new(tid, related[i]));
        i = i + 1;
        assert(related_links(tid, related@.subrange(0, i as int)) =~= related_links(tid, related@.subrange(0, i - 1)).push(TermRelated { term_id: tid, related_id: related@[i - 1] }));
    }
    assert(related@.subrange(0, i as int) =~= related@);
}

/// Removes the rows of snippet `sid`; returns how many were removed.
pub fn remove_term_links(rows: &mut Vec<TermSnippet>, sid: Id) -> (n: usize)
    ensures
        final(rows)@ == old(rows)@.filter(term_row_kept(sid)),
        n == old(rows)@.len() - final(rows)@.len(),
{
    let mut kept: Vec<TermSnippet> = Vec::new();
    let mut i: usize = 0;
    while i < rows.len()
        invariant
            i <= rows@.len(),
            kept@ == rows@.subrange(0, i as int).filter(term_row_kept(sid)),
            kept@.len() <= i,
        decreases rows@.len() - i,
    {
        let r = rows[i];
        proof {
            assert(rows@.subrange(0, i + 1) =~= rows@.subrange(0, i as int).push(r));
            rows@.subrange(0, i as int).lemma_filter_push(r, term_row_kept(sid));
        }
        if r.snippet_id != sid {
            kept.push(r);
        }
        i = i + 1;
    }
    assert(rows@.subrange(0, i as int) =~= rows@);
    let n = rows.len() - kept.len();
    *rows = kept;
    n
}

/// Removes the rows of snippet `sid`; returns how many were removed.
pub fn remove_author_links(rows: &mut Vec<AuthorSnippet>, sid: Id) -> (n: usize)
    ensures
        final(rows)@ == old(rows)@.filter(author_row_kept(sid)),
        n == old(rows)@.len() - final(rows)@.len(),
{
    let mut kept: Vec<AuthorSnippet> = Vec::new();
    let mut i: usize = 0;
    while i < rows.len()
        invariant
            i <= rows@.len(),
            kept@ == rows@.subrange(0, i as int).filter(author_row_kept(sid)),
            kept@.len() <= i,
        decreases rows@.len() - i,
    {
        let r = rows[i];
        proof {
            assert(rows@.subrange(0, i + 1) =~= rows@.subrange(0, i as int).push(r));
            rows@.subrange(0, i as int).lemma_filter_push(r, author_row_kept(sid));
        }
        if r.snippet_id != sid {
            kept.push(r);
        }
        i = i + 1;
    }
    assert(rows@.subrange(0, i as int) =~= rows@);
    let n = rows.len() - kept.len();
    *rows = kept;
    n
}

/// Removes the edges leaving term `tid`; returns how many were removed.
pub fn remove_edges_from(rows: &mut Vec<TermRelated>, tid: Id) -> (n: usize)
    ensures
        final(rows)@ == old(rows)@.filter(edge_kept(tid)),
        n == old(rows)@.len() - final(rows)@.len(),
{
    let mut kept: Vec<TermRelated> = Vec::new();
    let mut i: usize = 0;
    while i < rows.len()
        invariant
            i <= rows@.len(),
            kept@ == rows@.subrange(0, i as int).filter(edge_kept(tid)),
            kept@.len() <= i,
        decreases rows@.len() - i,
    {
        let r = rows[i];
        proof {
            assert(rows@.subrange(0, i + 1) =~= rows@.subrange(0, i as int).push(r));
            rows@.subrange(0, i as int).lemma_filter_push(r, edge_kept(tid));
        }
        if r.term_id != tid {
            kept.push(r);
        }
        i = i + 1;
    }
    assert(rows@.subrange(0, i as int) =~= rows@);
    let n = rows.len() - kept.len();
    *rows = kept;
    n
}


/// The ids of `rows`.
pub open spec fn ids_of_authors(rows: Seq<Author>) -> Seq<Id> {
    rows.map_values(|a: Author| a.id)
}

/// Removing one element keeps every other element.
pub proof fn lemma_remove_keeps<T>(s: Seq<T>, i: int, x: T)
    requires
        0 <= i < s.len(),
        s.contains(x),
        x != s[i],
    ensures
        s.remove(i).contains(x),
{
    let k = choose|k: int| 0 <= k < s.len() && s[k] == x;
    if k < i {
        assert(s.remove(i)[k] == x);
    } else {
        assert(s.remove(i)[k - 1] == x);
    }
}

/// Removing one element keeps a sequence free of duplicates.
pub proof fn lemma_remove_no_duplicates<T>(s: Seq<T>, i: int)
    requires
        0 <= i < s.len(),
        s.no_duplicates(),
    ensures
        s.remove(i).no_duplicates(),
{
    let r = s.remove(i);
    assert forall|a: int, b: int| 0 <= a < r.len() && 0 <= b < r.len() && a != b implies r[a] != r[b] by {
        let sa = if a < i { a } else { a + 1 };
        let sb = if b < i { b } else { b + 1 };
        assert(r[a] == s[sa]);
        assert(r[b] == s[sb]);
    }
}



/// The author memberships of `b`, and the tables they refer to, are those of `a`.
pub proof fn lemma_author_links_frame(a: Database, b: Database)
    requires
        a.author_links_wf(),
        b.authors_snippets == a.authors_snippets,
        b.authors == a.authors,
        b.snippets == a.snippets,
    ensures
        b.author_links_wf(),
{
    assert(b.author_ids() == a.author_ids());
    assert(b.snippet_ids() == a.snippet_ids());
}

/// Removes the rows that name author `aid`; returns how many were removed.
pub fn remove_memberships_of(rows: &mut Vec<AuthorSnippet>, aid: Id) -> (n: usize)
    ensures
        final(rows)@ == old(rows)@.filter(membership_kept(aid)),
        n == old(rows)@.len() - final(rows)@.len(),
{
    let mut kept: Vec<AuthorSnippet> = Vec::new();
    let mut i: usize = 0;
    while i < rows.len()
        invariant
            i <= rows@.len(),
            kept@ == rows@.subrange(0, i as int).filter(membership_kept(aid)),
            kept@.len() <= i,
        decreases rows@.len() - i,
    {
        let r = rows[i];
        proof {
            assert(rows@.subrange(0, i + 1) =~= rows@.subrange(0, i as int).push(r));
            rows@.subrange(0, i as int).lemma_filter_push(r, membership_kept(aid));
        }
        if r.author_id != aid {
            kept.push(r);
        }
        i = i + 1;
    }
    assert(rows@.subrange(0, i as int) =~= rows@);
    let n = rows.len() - kept.len();
    *rows = kept;
    n
}

/// Removes the rows that tag with term `tid`; returns how many were removed.
pub fn remove_tags_of(rows: &mut Vec<TermSnippet>, tid: Id) -> (n: usize)
    ensures
        final(rows)@ == old(rows)@.filter(tag_kept(tid)),
        n == old(rows)@.len() - final(rows)@.len(),
{
    let mut kept: Vec<TermSnippet> = Vec::new();
    let mut i: usize = 0;
    while i < rows.len()
        invariant
            i <= rows@.len(),
            kept@ == rows@.subrange(0, i as int).filter(tag_kept(tid)),
            kept@.len() <= i,
        decreases rows@.len() - i,
    {
        let r = rows[i];
        proof {
            assert(rows@.subrange(0, i + 1) =~= rows@.subrange(0, i as int).push(r));
            rows@.subrange(0, i as int).lemma_filter_push(r, tag_kept(tid));
        }
        if r.term_id != tid {
            kept.push(r);
        }
        i = i + 1;
    }
    assert(rows@.subrange(0, i as int) =~= rows@);
    let n = rows.len() - kept.len();
    *rows = kept;
    n
}

/// The term tags of `b`, and the tables they refer to, are those of `a`.
pub proof fn lemma_term_links_frame(a: Database, b: Database)
    requires
        a.term_links_wf(),
        b.terms_snippets == a.terms_snippets,
        b.terms == a.terms,
        b.snippets == a.snippets,
    ensures
        b.term_links_wf(),
{
    assert(b.term_ids() == a.term_ids());
    assert(b.snippet_ids() == a.snippet_ids());
}

/// The user tables of `b` are those of `a`.
pub proof fn lemma_users_frame(a: Database, b: Database)
    requires
        a.users_wf(),
        b.users == a.users,
        b.passwords == a.passwords,
    ensures
        b.users_wf(),
{
    assert(b.user_ids() == a.user_ids());
    assert(b.user_emails() == a.user_emails());
    assert(b.password_owners() == a.password_owners());
}

} // verus!
