use vstd::prelude::*;

verus! {

/// A row identifier: the 128-bit value of a random (version 4) UUID.
pub type Id = u128;

/// An instant: microseconds since the Unix epoch, in UTC.
pub type Timestamp = i64;

/// Relies on uuid::Uuid::new_v4: a random identifier, taken as its 128-bit value.
/// Nothing is promised of the value; uniqueness is checked where rows are stored.
#[verifier::external_body]
pub(crate) fn new_id() -> (r: Id) {
    uuid::Uuid::new_v4().as_u128()
}

/// Relies on chrono::Utc::now: the current instant in microseconds since the Unix epoch.
/// `Utc::now` measures the duration since the epoch (and stops on a clock set before
/// it), so the value is not negative.
#[verifier::external_body]
pub(crate) fn now_micros() -> (r: Timestamp)
    ensures
        r >= 0,
{
    chrono::Utc::now().timestamp_micros()
}

/// The kind of medium a snippet was taken from.
#[derive(Clone, Copy, Debug, PartialEq, Eq, Structural)]
pub enum Media {
    Blog,
    Book,
    News,
    Twitter,
    Video,
    Website,
}

/// The role of a user account.
#[derive(Clone, Copy, Debug, PartialEq, Eq, Structural)]
pub enum Role {
    User,
    Admin,
}

/// A user account. Deleting a user sets `is_deleted` and keeps the row.
#[derive(Clone, Debug, PartialEq, Eq)]
pub struct User {
    pub id: Id,
    pub name: String,
    pub email: String,
    pub role: Role,
    pub is_deleted: bool,
    pub created_at: Timestamp,
    pub updated_at: Timestamp,
}

/// The stored password hash of a user.
#[derive(Clone, Debug, PartialEq, Eq)]
pub struct Password {
    pub user_id: Id,
    pub password: String,
    pub created_at: Timestamp,
    pub updated_at: Timestamp,
}

/// A term that tags snippets.
#[derive(Clone, Debug, PartialEq, Eq)]
pub struct Term {
    pub id: Id,
    pub name: String,
    pub created_at: Timestamp,
    pub updated_at: Timestamp,
}

/// A directed edge from one term to a related term.
#[derive(Clone, Copy, Debug, PartialEq, Eq, Structural)]
pub struct TermRelated {
    pub term_id: Id,
    pub related_id: Id,
}

/// A curated quote or media reference.
#[derive(Clone, Debug, PartialEq, Eq)]
pub struct Snippet {
    pub id: Id,
    pub text: String,
    pub media: Media,
    pub link: Option<String>,
    pub created_at: Timestamp,
    pub updated_at: Timestamp,
}

/// Membership of a term in the tags of a snippet.
#[derive(Clone, Copy, Debug, PartialEq, Eq, Structural)]
pub struct TermSnippet {
    pub term_id: Id,
    pub snippet_id: Id,
}

/// An author of snippets.
#[derive(Clone, Debug, PartialEq, Eq)]
pub struct Author {
    pub id: Id,
    pub name: String,
    pub created_at: Timestamp,
    pub updated_at: Timestamp,
}

/// Membership of an author among the authors of a snippet.
#[derive(Clone, Copy, Debug, PartialEq, Eq, Structural)]
pub struct AuthorSnippet {
    pub author_id: Id,
    pub snippet_id: Id,
}

impl User {
    /// A new, not deleted account with a fresh random id, created and updated now.
    pub fn new(name: String, email: String, role: Role) -> (r: User)
        ensures
            r.name == name,
            r.email == email,
            r.role == role,
            !r.is_deleted,
            r.created_at == r.updated_at,
    {
        let now = now_micros();
        User { id: new_id(), name, email, role, is_deleted: false, created_at: now, updated_at: now }
    }
}

impl Password {
    /// The password row of `user_id` holding `password` (a hash), created and updated now.
    pub fn new(user_id: Id, password: String) -> (r: Password)
        ensures
            r.user_id == user_id,
            r.password == password,
            r.created_at == r.updated_at,
    {
        let now = now_micros();
        Password { user_id, password, created_at: now, updated_at: now }
    }
}

impl Term {
    /// A new term with a fresh random id, created and updated now.
    pub fn new(name: String) -> (r: Term)
        ensures
            r.name == name,
            r.created_at == r.updated_at,
    {
        let now = now_micros();
        Term { id: new_id(), name, created_at: now, updated_at: now }
    }
}

impl TermRelated {
    /// The edge `term_id -> related_id`.
    pub fn new(term_id: Id, related_id: Id) -> (r: TermRelated)
        ensures
            r.term_id == term_id,
            r.related_id == related_id,
    {
        TermRelated { term_id, related_id }
    }
}

impl Snippet {
    /// A new snippet with a fresh random id, created and updated now.
    pub fn new(text: String, media: Media, link: Option<String>) -> (r: Snippet)
        ensures
            r.text == text,
            r.media == media,
            r.link == link,
            r.created_at == r.updated_at,
    {
        let now = now_micros();
        Snippet { id: new_id(), text, media, link, created_at: now, updated_at: now }
    }
}

impl TermSnippet {
    /// The membership of `term_id` in the tags of `snippet_id`.
    pub fn new(term_id: Id, snippet_id: Id) -> (r: TermSnippet)
        ensures
            r.term_id == term_id,
            r.snippet_id == snippet_id,
    {
        TermSnippet { term_id, snippet_id }
    }
}

impl Author {
    /// A new author with a fresh random id, created and updated now.
    pub fn new(name: String) -> (r: Author)
        ensures
            r.name == name,
            r.created_at == r.updated_at,
    {
        let now = now_micros();
        Author { id: new_id(), name, created_at: now, updated_at: now }
    }
}

impl AuthorSnippet {
    /// The membership of `author_id` among the authors of `snippet_id`.
    pub fn new(author_id: Id, snippet_id: Id) -> (r: AuthorSnippet)
        ensures
            r.author_id == author_id,
            r.snippet_id == snippet_id,
    {
        AuthorSnippet { author_id, snippet_id }
    }
}

/// The storage encoding of `Media`: each variant by its name.
pub struct MediaEnum;

/// The storage encoding of `Role`: each variant by its name.
pub struct RoleEnum;

/// The label that stands for medium `m` in storage.
pub open spec fn media_label(m: Media) -> Seq<char> {
    match m {
        Media::Blog => "Blog"@,
        Media::Book => "Book"@,
        Media::News => "News"@,
        Media::Twitter => "Twitter"@,
        Media::Video => "Video"@,
        Media::Website => "Website"@,
    }
}

/// The label that stands for role `r` in storage and in tokens.
pub open spec fn role_label(r: Role) -> Seq<char> {
    match r {
        Role::User => "User"@,
        Role::Admin => "Admin"@,
    }
}

/// The role that label `s` stands for, if any.
pub open spec fn role_of_label(s: Seq<char>) -> Option<Role> {
    if s == "User"@ {
        Some(Role::User)
    } else if s == "Admin"@ {
        Some(Role::Admin)
    } else {
        None
    }
}

/// Reading back the label of a role gives the role.
pub proof fn lemma_role_label_round_trip(r: Role)
    ensures
        role_of_label(role_label(r)) == Some(r),
{
    reveal_strlit("User");
    reveal_strlit("Admin");
    assert("User"@ != "Admin"@) by {
        assert("User"@.len() != "Admin"@.len());
    }
}

impl MediaEnum {
    /// The label of `m`.
    pub fn label(m: Media) -> (r: String)
        ensures
            r@ == media_label(m),
    {
        match m {
            Media::Blog => "Blog".to_string(),
            Media::Book => "Book".to_string(),
            Media::News => "News".to_string(),
            Media::Twitter => "Twitter".to_string(),
            Media::Video => "Video".to_string(),
            Media::Website => "Website".to_string(),
        }
    }
}

impl RoleEnum {
    /// The label of `r`.
    pub fn label(r: Role) -> (s: String)
        ensures
            s@ == role_label(r),
    {
        match r {
            Role::User => "User".to_string(),
            Role::Admin => "Admin".to_string(),
        }
    }

    /// The role that `s` stands for, if any.
    pub fn parse(s: &String) -> (r: Option<Role>)
        ensures
            r == role_of_label(s@),
    {
        if *s == "User".to_string() {
            Some(Role::User)
        } else if *s == "Admin".to_string() {
            Some(Role::Admin)
        } else {
            None
        }
    }
}

} // verus!
