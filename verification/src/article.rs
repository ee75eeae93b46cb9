//! Articles captured from external sources, and their review pipeline.
//!
//! An article moves Pending -> Summarized -> Reviewed, with Archived
//! reachable at any point; Reviewed and Archived are terminal.  Approving an
//! article materializes a reference note from it and marks it reviewed.

use vstd::prelude::*;

use crate::error::CoreError;
use crate::external::{new_uuid, now_millis, uuid_text, uuid_text_of};
use crate::note::{Note, NoteType};
use crate::plan_parser::{ci_match, lc_seq, str_to_chars};

verus! {

/// Where an article stands in the review pipeline.
#[derive(Debug, Clone, Copy, PartialEq, Eq, Structural)]
pub enum ArticleStatus {
    /// Fetched, awaiting summarization.
    Pending,
    /// Has a summary, awaiting review.
    Summarized,
    /// Approved and materialized as a note.
    Reviewed,
    /// Dismissed or saved for later.
    Archived,
}

/// Reviewed and Archived end the pipeline.
pub open spec fn article_terminal(st: ArticleStatus) -> bool {
    st == ArticleStatus::Reviewed || st == ArticleStatus::Archived
}

/// The lowercase name of an article status.
pub open spec fn article_status_name(st: ArticleStatus) -> Seq<char> {
    match st {
        ArticleStatus::Pending => "pending"@,
        ArticleStatus::Summarized => "summarized"@,
        ArticleStatus::Reviewed => "reviewed"@,
        ArticleStatus::Archived => "archived"@,
    }
}

/// The article status a name denotes, compared without regard to case.
pub open spec fn article_status_of_name(s: Seq<char>) -> Option<ArticleStatus> {
    let l = lc_seq(s);
    if l == "pending"@ {
        Some(ArticleStatus::Pending)
    } else if l == "summarized"@ {
        Some(ArticleStatus::Summarized)
    } else if l == "reviewed"@ {
        Some(ArticleStatus::Reviewed)
    } else if l == "archived"@ {
        Some(ArticleStatus::Archived)
    } else {
        None
    }
}

impl ArticleStatus {
    /// The lowercase name of this status.
    pub fn as_str(&self) -> (r: &'static str)
        ensures
            r@ == article_status_name(*self),
    {
        match self {
            ArticleStatus::Pending => "pending",
            ArticleStatus::Summarized => "summarized",
            ArticleStatus::Reviewed => "reviewed",
            ArticleStatus::Archived => "archived",
        }
    }

    /// Whether this status ends the pipeline.
    pub fn is_terminal(&self) -> (r: bool)
        ensures
            r == article_terminal(*self),
    {
        match self {
            ArticleStatus::Reviewed => true,
            ArticleStatus::Archived => true,
            _ => false,
        }
    }
}

impl Default for ArticleStatus {
    /// A fresh article starts out pending.
    fn default() -> (r: Self)
        ensures
            r == ArticleStatus::Pending,
    {
        ArticleStatus::Pending
    }
}

/// Read an article status from its name.
pub fn parse_article_status(s: &str) -> (r: Result<ArticleStatus, String>)
    ensures
        article_status_of_name(s@) matches Some(t) ==> r == Ok::<ArticleStatus, String>(t),
        article_status_of_name(s@) is None ==> (r matches Err(m) && m@
            == "Unknown article status: "@ + s@),
{
    let v = str_to_chars(s);
    let n = v.len();
    proof {
        assert(v@.subrange(0, n as int) =~= s@);
    }
    if ci_match(&v, 0, n, "pending") {
        Ok(ArticleStatus::Pending)
    } else if ci_match(&v, 0, n, "summarized") {
        Ok(ArticleStatus::Summarized)
    } else if ci_match(&v, 0, n, "reviewed") {
        Ok(ArticleStatus::Reviewed)
    } else if ci_match(&v, 0, n, "archived") {
        Ok(ArticleStatus::Archived)
    } else {
        let mut m = String::from_str("Unknown article status: ");
        m.append(s);
        Err(m)
    }
}

impl core::str::FromStr for ArticleStatus {
    type Err = String;

    fn from_str(s: &str) -> Result<ArticleStatus, String> {
        parse_article_status(s)
    }
}

/// Metadata about the source of an article.
#[derive(Debug, Clone)]
pub struct SourceMetadata {
    /// The author, when the extractor found one.
    pub author: Option<String>,
    /// Publication time, in milliseconds since the epoch.
    pub published_at: Option<i64>,
    /// The site's name.
    pub site_name: Option<String>,
    /// A description or excerpt.
    pub description: Option<String>,
    /// A featured image address.
    pub image_url: Option<String>,
}

impl Default for SourceMetadata {
    /// Metadata with every field absent.
    fn default() -> (r: Self)
        ensures
            r.author is None,
            r.published_at is None,
            r.site_name is None,
            r.description is None,
            r.image_url is None,
    {
        SourceMetadata {
            author: None,
            published_at: None,
            site_name: None,
            description: None,
            image_url: None,
        }
    }
}

/// Content captured from an external source for summarization and review.
#[derive(Debug, Clone)]
pub struct Article {
    /// The stable opaque id.
    pub id: u128,
    /// The address the article came from; unique across articles.
    pub url: String,
    /// The article's title.
    pub title: String,
    /// The extracted text.
    pub raw_content: String,
    /// The summary, once one was produced.
    pub summary: Option<String>,
    /// The room the article is assigned to, if any.
    pub room_id: Option<u128>,
    /// Where the article stands in the pipeline.
    pub status: ArticleStatus,
    /// What is known about the source.
    pub source_metadata: SourceMetadata,
    /// When the article was captured, in milliseconds since the epoch.
    pub created_at: i64,
    /// When the article last changed, in milliseconds since the epoch.
    pub updated_at: i64,
}

impl Article {
    /// The invariant every article holds: a summarized article has a summary.
    pub open spec fn wf(&self) -> bool {
        self.status == ArticleStatus::Summarized ==> self.summary is Some
    }

    /// Capture a new article.
    pub fn new(url: String, title: String, content: String) -> (r: Self)
        ensures
            r.url == url,
            r.title == title,
            r.raw_content == content,
            r.summary is None,
            r.room_id is None,
            r.status == ArticleStatus::Pending,
            r.source_metadata.author is None,
            r.source_metadata.published_at is None,
            r.source_metadata.site_name is None,
            r.source_metadata.description is None,
            r.source_metadata.image_url is None,
            r.created_at == r.updated_at,
            r.wf(),
    {
        let now = now_millis();
        Article {
            id: new_uuid(),
            url,
            title,
            raw_content: content,
            summary: None,
            room_id: None,
            status: ArticleStatus::Pending,
            source_metadata: SourceMetadata::default(),
            created_at: now,
            updated_at: now,
        }
    }

    /// Assign the article to a room.
    pub fn with_room(self, room_id: u128) -> (r: Self)
        ensures
            r == (Article { room_id: Some(room_id), ..self }),
    {
        Article { room_id: Some(room_id), ..self }
    }

    /// Attach source metadata.
    pub fn with_metadata(self, metadata: SourceMetadata) -> (r: Self)
        ensures
            r == (Article { source_metadata: metadata, ..self }),
    {
        Article { source_metadata: metadata, ..self }
    }

    /// Store a summary and move to Summarized.  Terminal articles refuse the
    /// change and stay exactly as they are.
    pub fn set_summary(&mut self, summary: String) -> (r: Result<(), CoreError>)
        ensures
            !article_terminal(old(self).status) ==> r is Ok && *final(self) == (Article {
                summary: Some(summary),
                status: ArticleStatus::Summarized,
                updated_at: final(self).updated_at,
                ..*old(self)
            }),
            article_terminal(old(self).status) ==> r is Err && *final(self) == *old(self),
            old(self).wf() ==> final(self).wf(),
    {
        if self.status.is_terminal() {
            Err(CoreError::InvalidTransition(article_terminal_message()))
        } else {
            self.summary = Some(summary);
            self.status = ArticleStatus::Summarized;
            self.updated_at = now_millis();
            Ok(())
        }
    }

    /// Move to Reviewed.  Terminal articles refuse the change.
    pub fn mark_reviewed(&mut self) -> (r: Result<(), CoreError>)
        ensures
            !article_terminal(old(self).status) ==> r is Ok && *final(self) == (Article {
                status: ArticleStatus::Reviewed,
                updated_at: final(self).updated_at,
                ..*old(self)
            }),
            article_terminal(old(self).status) ==> r is Err && *final(self) == *old(self),
            old(self).wf() ==> final(self).wf(),
    {
        if self.status.is_terminal() {
            Err(CoreError::InvalidTransition(article_terminal_message()))
        } else {
            self.status = ArticleStatus::Reviewed;
            self.updated_at = now_millis();
            Ok(())
        }
    }

    /// Archive the article, from any state.
    pub fn archive(&mut self)
        ensures
            *final(self) == (Article {
                status: ArticleStatus::Archived,
                updated_at: final(self).updated_at,
                ..*old(self)
            }),
            old(self).wf() ==> final(self).wf(),
    {
        self.status = ArticleStatus::Archived;
        self.updated_at = now_millis();
    }
}

/// The message carried by a refused article transition.
fn article_terminal_message() -> String {
    String::from_str("transition refused: the article is already terminal")
}

// ---------------------------------------------------------------------------
// Approval
// ---------------------------------------------------------------------------

/// The body of the note an approval creates: summary (when present), source
/// address and full content under fixed headings.
pub open spec fn note_body(a: Article) -> Seq<char> {
    match a.summary {
        Some(s) => "## Summary\n\n"@ + s@ + "\n\n## Source\n\n"@ + a.url@ + "\n\n## Full Content\n\n"@
            + a.raw_content@,
        None => "## Source\n\n"@ + a.url@ + "\n\n## Content\n\n"@ + a.raw_content@,
    }
}

/// Build the note body for an article.
pub fn render_note_body(a: &Article) -> (r: String)
    ensures
        r@ == note_body(*a),
{
    let mut out: String;
    match &a.summary {
        Some(s) => {
            out = String::from_str("## Summary\n\n");
            out.append(s.as_str());
            out.append("\n\n## Source\n\n");
            out.append(a.url.as_str());
            out.append("\n\n## Full Content\n\n");
            out.append(a.raw_content.as_str());
        },
        None => {
            out = String::from_str("## Source\n\n");
            out.append(a.url.as_str());
            out.append("\n\n## Content\n\n");
            out.append(a.raw_content.as_str());
        },
    }
    out
}

/// Which room an approval targets: the explicitly named room wins, else the
/// room the article is assigned to, else the approval is rejected.
pub fn approve_target_room(explicit: Option<u128>, article_room: Option<u128>) -> (r: Result<
    u128,
    CoreError,
>)
    ensures
        explicit is Some ==> r == Ok::<u128, CoreError>(explicit.unwrap()),
        explicit is None && article_room is Some ==> r == Ok::<u128, CoreError>(
            article_room.unwrap(),
        ),
        explicit is None && article_room is None ==> (r matches Err(e) && e is InvalidInput),
{
    match explicit {
        Some(room) => Ok(room),
        None => match article_room {
            Some(room) => Ok(room),
            None => Err(
                CoreError::InvalidInput(
                    String::from_str(
                        "No room specified. Use --room or assign article to a room first.",
                    ),
                ),
            ),
        },
    }
}

/// Approve an article: produce the reference note to create in the target
/// room and the reviewed article to store.  The note carries the article's
/// title and the fixed-template body; the article comes back Reviewed with
/// everything else untouched.  A terminal article refuses the approval.
pub fn approve_article(article: &Article, target_room_id: u128) -> (r: Result<
    (Note, Article),
    CoreError,
>)
    ensures
        !article_terminal(article.status) ==> (r matches Ok(p) && {
            &&& p.0.room_id == target_room_id
            &&& p.0.title@ == article.title@
            &&& p.0.note_type == NoteType::Reference
            &&& p.0.content@ == note_body(*article)
            &&& p.0.status is None
            &&& p.1 == (Article {
                status: ArticleStatus::Reviewed,
                updated_at: p.1.updated_at,
                ..*article
            })
        }),
        article_terminal(article.status) ==> (r matches Err(e) && e is InvalidTransition),
{
    if article.status.is_terminal() {
        return Err(CoreError::InvalidTransition(article_terminal_message()));
    }
    let body = render_note_body(article);
    let note = Note::new(target_room_id, article.title.clone(), NoteType::Reference).with_content(
        body,
    );
    let mut reviewed = article.clone_article();
    match reviewed.mark_reviewed() {
        Ok(()) => Ok((note, reviewed)),
        Err(e) => Err(e),
    }
}

impl Article {
    /// Clone an article field by field.
    pub(crate) fn clone_article(&self) -> (r: Article)
        ensures
            r == *self,
    {
        Article {
            id: self.id,
            url: self.url.clone(),
            title: self.title.clone(),
            raw_content: self.raw_content.clone(),
            summary: match &self.summary {
                Some(s) => Some(s.clone()),
                None => None,
            },
            room_id: self.room_id,
            status: self.status,
            source_metadata: SourceMetadata {
                author: match &self.source_metadata.author {
                    Some(s) => Some(s.clone()),
                    None => None,
                },
                published_at: self.source_metadata.published_at,
                site_name: match &self.source_metadata.site_name {
                    Some(s) => Some(s.clone()),
                    None => None,
                },
                description: match &self.source_metadata.description {
                    Some(s) => Some(s.clone()),
                    None => None,
                },
                image_url: match &self.source_metadata.image_url {
                    Some(s) => Some(s.clone()),
                    None => None,
                },
            },
            created_at: self.created_at,
            updated_at: self.updated_at,
        }
    }
}

/// Whether a query names an article: the query is a prefix of the article's
/// hyphenated id text.
pub open spec fn article_id_matches(a: Article, q: Seq<char>) -> bool {
    q.is_prefix_of(uuid_text_of(a.id))
}

/// Resolve a query against a list of articles by id text or unique prefix.
pub fn find_article(articles: &Vec<Article>, query: &str) -> (r: Result<usize, CoreError>)
    ensures
        r matches Ok(j) ==> 0 <= j < articles@.len() && article_id_matches(
            articles@[j as int],
            query@,
        ) && (forall|i: int|
            0 <= i < articles@.len() && i != j ==> !article_id_matches(
                #[trigger] articles@[i],
                query@,
            )),
        (r matches Err(e) && e is NotFound) <==> (forall|i: int|
            0 <= i < articles@.len() ==> !article_id_matches(#[trigger] articles@[i], query@)),
        (r matches Err(e) && e is Ambiguous) <==> (exists|i: int, j: int|
            0 <= i < j < articles@.len() && article_id_matches(#[trigger] articles@[i], query@)
                && article_id_matches(#[trigger] articles@[j], query@)),
        r matches Err(e) ==> e is NotFound || e is Ambiguous,
{
    let q = str_to_chars(query);
    let n = articles.len();
    let mut first: Option<usize> = None;
    let mut i: usize = 0;
    while i < n
        invariant
            0 <= i <= n == articles@.len(),
            q@ == query@,
            first matches Some(a) ==> 0 <= a < i && article_id_matches(
                articles@[a as int],
                query@,
            ) && (forall|k: int|
                0 <= k < i && k != a ==> !article_id_matches(#[trigger] articles@[k], query@)),
            first is None ==> forall|k: int|
                0 <= k < i ==> !article_id_matches(#[trigger] articles@[k], query@),
        decreases n - i,
    {
        let text = uuid_text(articles[i].id);
        if crate::sync::is_prefix(&q, text.as_str()) {
            match first {
                Some(a) => {
                    return Err(
                        CoreError::Ambiguous(
                            String::from_str("more than one article matches that id prefix"),
                        ),
                    );
                },
                None => {
                    first = Some(i);
                },
            }
        }
        i = i + 1;
    }
    match first {
        Some(a) => Ok(a),
        None => Err(CoreError::NotFound(String::from_str("no article matches that id"))),
    }
}

} // verus!
