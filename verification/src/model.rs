//! The common data model: the single document type every source converges
//! to, and the source-independent query.

use vstd::prelude::*;

verus! {

/// Kind of source a document came from.
#[derive(Debug, Clone, Copy, PartialEq, Eq, Hash, Structural)]
pub enum SourceKind {
    Arxiv,
    News,
    Blog,
    Youtube,
    Web,
}

/// An instant in UTC: whole seconds since the Unix epoch and the
/// sub-second nanoseconds. Instants order by seconds, then nanoseconds.
#[derive(Debug, Clone, Copy, PartialEq, Eq, Structural)]
pub struct Timestamp {
    pub secs: i64,
    pub nanos: u32,
}

/// Strict order of instants.
pub open spec fn ts_lt(a: Timestamp, b: Timestamp) -> bool {
    a.secs < b.secs || (a.secs == b.secs && a.nanos < b.nanos)
}

impl Timestamp {
    /// The current instant, read from the system clock: which instant is
    /// not known, but it is never inside a leap second (its nanoseconds are
    /// below one second), so whole days from it are exact differences.
    pub fn now() -> (r: Self)
        ensures
            r.nanos < 1_000_000_000,
    {
        crate::external::utc_now()
    }

    /// Whether `self` is strictly earlier than `other`.
    pub fn is_before(&self, other: &Timestamp) -> (r: bool)
        ensures
            r == ts_lt(*self, *other),
    {
        self.secs < other.secs || (self.secs == other.secs && self.nanos < other.nanos)
    }
}

/// An author.
#[derive(Debug, Clone)]
pub struct Author {
    pub name: String,
    pub id: Option<String>,
}

/// Mathematical model of an author.
#[verifier::ext_equal]
pub struct AuthorView {
    pub name: Seq<char>,
    pub id: Option<Seq<char>>,
}

/// The characters of an optional string.
pub open spec fn opt_view(o: Option<String>) -> Option<Seq<char>> {
    match o {
        Some(s) => Some(s@),
        None => None,
    }
}

impl View for Author {
    type V = AuthorView;

    open spec fn view(&self) -> AuthorView {
        AuthorView { name: self.name@, id: opt_view(self.id) }
    }
}

impl Author {
    /// An author with the given name and no identifier.
    pub fn new(name: String) -> (r: Self)
        ensures
            r.name@ == name@,
            r.id is None,
    {
        Author { name, id: None }
    }
}

/// Identity of a document, the basis of duplicate removal.
#[derive(Debug, Clone)]
pub struct DocIdentity {
    /// First-priority identifier for scholarly documents.
    pub doi: Option<String>,
    /// arXiv identifier without version suffix (`2301.00001v2` -> `2301.00001`).
    pub arxiv_id: Option<String>,
    /// URL with tracking parameters removed.
    pub canonical_url: Option<String>,
    /// Hash of the lowercased alphanumeric title; the fallback identity.
    pub title_hash: u64,
}

/// Mathematical model of a document identity.
#[verifier::ext_equal]
pub struct IdentityView {
    pub doi: Option<Seq<char>>,
    pub arxiv_id: Option<Seq<char>>,
    pub canonical_url: Option<Seq<char>>,
    pub title_hash: u64,
}

impl View for DocIdentity {
    type V = IdentityView;

    open spec fn view(&self) -> IdentityView {
        IdentityView {
            doi: opt_view(self.doi),
            arxiv_id: opt_view(self.arxiv_id),
            canonical_url: opt_view(self.canonical_url),
            title_hash: self.title_hash,
        }
    }
}

impl Default for DocIdentity {
    fn default() -> (r: Self)
        ensures
            r.doi is None,
            r.arxiv_id is None,
            r.canonical_url is None,
            r.title_hash == 0,
    {
        DocIdentity { doi: None, arxiv_id: None, canonical_url: None, title_hash: 0 }
    }
}

/// The single document type all sources converge to.
#[derive(Debug, Clone)]
pub struct Document {
    pub identity: DocIdentity,
    pub source: SourceKind,
    pub title: String,
    pub url: String,
    pub authors: Vec<Author>,
    pub published_at: Option<Timestamp>,
    pub fetched_at: Timestamp,
    pub summary: Option<String>,
    pub content: Option<String>,
    pub language: Option<String>,
    pub tags: Vec<String>,
    /// The sources that supplied this same document (merge tracking).
    pub sources: Vec<SourceKind>,
    /// Source-specific raw metadata, keyed by name: a map, no key twice
    /// (`keys_unique`), which merging preserves.
    pub extra: Vec<(String, serde_json::Value)>,
}

/// Whether no metadata key occurs twice (the metadata is a map from names
/// to values).
pub open spec fn keys_unique(extra: Seq<(Seq<char>, serde_json::Value)>) -> bool {
    forall|i: int, j: int| 0 <= i < j < extra.len() ==> extra[i].0 != extra[j].0
}

/// Mathematical model of a document.
#[verifier::ext_equal]
pub struct DocView {
    pub identity: IdentityView,
    pub source: SourceKind,
    pub title: Seq<char>,
    pub url: Seq<char>,
    pub authors: Seq<AuthorView>,
    pub published_at: Option<Timestamp>,
    pub fetched_at: Timestamp,
    pub summary: Option<Seq<char>>,
    pub content: Option<Seq<char>>,
    pub language: Option<Seq<char>>,
    pub tags: Seq<Seq<char>>,
    pub sources: Seq<SourceKind>,
    pub extra: Seq<(Seq<char>, serde_json::Value)>,
}

/// Models of a sequence of authors.
pub open spec fn author_views(s: Seq<Author>) -> Seq<AuthorView> {
    s.map_values(|a: Author| a@)
}

/// Models of a sequence of strings.
pub open spec fn string_views(s: Seq<String>) -> Seq<Seq<char>> {
    s.map_values(|t: String| t@)
}

/// Models of metadata entries.
pub open spec fn extra_views(s: Seq<(String, serde_json::Value)>) -> Seq<(Seq<char>, serde_json::Value)> {
    s.map_values(|e: (String, serde_json::Value)| (e.0@, e.1))
}

impl View for Document {
    type V = DocView;

    open spec fn view(&self) -> DocView {
        DocView {
            identity: self.identity@,
            source: self.source,
            title: self.title@,
            url: self.url@,
            authors: author_views(self.authors@),
            published_at: self.published_at,
            fetched_at: self.fetched_at,
            summary: opt_view(self.summary),
            content: opt_view(self.content),
            language: opt_view(self.language),
            tags: string_views(self.tags@),
            sources: self.sources@,
            extra: extra_views(self.extra@),
        }
    }
}

/// Models of a sequence of documents.
pub open spec fn doc_views(s: Seq<Document>) -> Seq<DocView> {
    s.map_values(|d: Document| d@)
}

/// Freshness window of a query.
#[derive(Debug, Clone, Copy, PartialEq, Eq, Structural)]
pub enum Recency {
    Day,
    Week,
    Month,
    Year,
}

/// A source-independent query.
#[derive(Debug, Clone)]
pub struct SearchQuery {
    pub text: String,
    /// Target sources; empty means every registered source.
    pub sources: Vec<SourceKind>,
    /// Number of fused results returned overall (not per source).
    pub limit: usize,
    pub language: Option<String>,
    pub recency: Option<Recency>,
    pub from_date: Option<Timestamp>,
    pub to_date: Option<Timestamp>,
    /// Whether full content is wanted.
    pub include_content: bool,
    /// Query expansions supplied by the caller.
    pub expansions: Vec<String>,
}

impl SearchQuery {
    /// A query with the given text and limit; every other field is empty.
    pub fn from_text(text: String, limit: usize) -> (r: Self)
        ensures
            r.text@ == text@,
            r.sources@.len() == 0,
            r.limit == limit,
            r.language is None,
            r.recency is None,
            r.from_date is None,
            r.to_date is None,
            !r.include_content,
            r.expansions@.len() == 0,
    {
        SearchQuery {
            text,
            sources: Vec::new(),
            limit,
            language: None,
            recency: None,
            from_date: None,
            to_date: None,
            include_content: false,
            expansions: Vec::new(),
        }
    }

    /// The same query restricted to the given sources.
    pub fn with_sources(self, sources: Vec<SourceKind>) -> (r: Self)
        ensures
            r.sources@ == sources@,
            r.text == self.text,
            r.limit == self.limit,
            r.language == self.language,
            r.recency == self.recency,
            r.from_date == self.from_date,
            r.to_date == self.to_date,
            r.include_content == self.include_content,
            r.expansions == self.expansions,
    {
        let mut q = self;
        q.sources = sources;
        q
    }
}

} // verus!
