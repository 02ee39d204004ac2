//! Validation of search requests, classification of search failures, and the orientation of
//! search hits (which stored field is shown as source and which as target).

use vstd::prelude::*;
use crate::text::{contains, decimal, has_prefix, occurs_in, owned, push_str, push_usize, starts_with};
use crate::tokenizer::{tokenizer_for, uses_default_tokenizer, DEFAULT_TOKENIZER, INVERSE_REGEX_CJK_ERROR};
use crate::util::{is_valid_path_segment, validate_path_segment, PathSegmentError};

verus! {

/// Number of hits returned when no limit is given.
pub const DEFAULT_QUERY_LIMIT: usize = 10;
/// Largest accepted limit.
pub const MAX_QUERY_LIMIT: usize = 50;
/// Maximum length in bytes of a regex query.
pub const MAX_REGEX_QUERY_LEN: usize = 64;

/// A refused `limit`.
#[derive(Debug, Clone, Copy, PartialEq, Eq, Structural)]
pub enum LimitError {
    /// The limit was 0.
    TooSmall,
    /// The limit was above [`MAX_QUERY_LIMIT`].
    TooLarge,
}

impl LimitError {
    pub open spec fn spec_message(&self) -> Seq<char> {
        match self {
            LimitError::TooSmall => "limit must be at least 1"@,
            LimitError::TooLarge => "limit must be at most "@ + decimal(MAX_QUERY_LIMIT as nat),
        }
    }

    /// The error text.
    pub fn message(&self) -> (r: String)
        ensures
            r@ == self.spec_message(),
    {
        match self {
            LimitError::TooSmall => owned("limit must be at least 1"),
            LimitError::TooLarge => {
                let mut r = owned("limit must be at most ");
                push_usize(&mut r, MAX_QUERY_LIMIT);
                r
            },
        }
    }
}

/// The limit a request with `limit` gets: 10 by default, 1 to 50 as given.
pub open spec fn limit_result(limit: Option<usize>) -> Result<usize, LimitError> {
    match limit {
        None => Ok(DEFAULT_QUERY_LIMIT),
        Some(n) => if n == 0 {
            Err(LimitError::TooSmall)
        } else if n > MAX_QUERY_LIMIT {
            Err(LimitError::TooLarge)
        } else {
            Ok(n)
        },
    }
}

/// A request without a limit gets 10; a limit from 1 to 50 is used as given; 0 is too small
/// and anything above 50 too large.
pub proof fn lemma_limit_rules(n: usize)
    ensures
        limit_result(None) == Ok::<usize, LimitError>(10),
        1 <= n <= 50 ==> limit_result(Some(n)) == Ok::<usize, LimitError>(n),
        n == 0 ==> limit_result(Some(n)) == Err::<usize, LimitError>(LimitError::TooSmall),
        n > 50 ==> limit_result(Some(n)) == Err::<usize, LimitError>(LimitError::TooLarge),
{
}

/// Validates query `limit` (default 10, maximum 50).
pub fn validate_query_limit(limit: Option<usize>) -> (r: Result<usize, LimitError>)
    ensures
        r == limit_result(limit),
{
    match limit {
        None => Ok(DEFAULT_QUERY_LIMIT),
        Some(0) => Err(LimitError::TooSmall),
        Some(n) => if n > MAX_QUERY_LIMIT {
            Err(LimitError::TooLarge)
        } else {
            Ok(n)
        },
    }
}

/// Validates HTTP query `limit` (default 10, maximum 50).
pub fn validate_http_limit(limit: Option<usize>) -> (r: Result<usize, LimitError>)
    ensures
        r == limit_result(limit),
{
    validate_query_limit(limit)
}

/// A refused regex query.
#[derive(Debug, Clone, Copy, PartialEq, Eq, Structural)]
pub enum RegexQueryError {
    /// Regex search in inverse mode on a language tokenized with a dictionary.
    InverseRegexCjk,
    /// The pattern is longer than [`MAX_REGEX_QUERY_LEN`] bytes; holds its length.
    TooLong(usize),
}

impl RegexQueryError {
    pub open spec fn spec_message(&self) -> Seq<char> {
        match self {
            RegexQueryError::InverseRegexCjk => INVERSE_REGEX_CJK_ERROR@,
            RegexQueryError::TooLong(n) => "regex query is too long: "@ + decimal(*n as nat)
                + " bytes (max "@ + decimal(MAX_REGEX_QUERY_LEN as nat) + " bytes)"@,
        }
    }

    /// The error text.
    pub fn message(&self) -> (r: String)
        ensures
            r@ == self.spec_message(),
    {
        match self {
            RegexQueryError::InverseRegexCjk => owned(INVERSE_REGEX_CJK_ERROR),
            RegexQueryError::TooLong(n) => {
                let mut r = owned("regex query is too long: ");
                push_usize(&mut r, *n);
                push_str(&mut r, " bytes (max ");
                push_usize(&mut r, MAX_REGEX_QUERY_LEN);
                push_str(&mut r, " bytes)");
                r
            },
        }
    }
}

/// Length in bytes of the UTF-8 encoding of `s` (what `str::len` returns).
pub open spec fn utf8_len(s: Seq<char>) -> usize {
    vstd::utf8::encode_utf8(s).len() as usize
}

/// What [`validate_regex_query`] decides.
pub open spec fn regex_query_result(lang: Seq<char>, query: Seq<char>, inverse: bool, regex: bool) -> Result<(), RegexQueryError> {
    if regex && inverse && tokenizer_for(lang) != DEFAULT_TOKENIZER@ {
        Err(RegexQueryError::InverseRegexCjk)
    } else if regex && utf8_len(query) > MAX_REGEX_QUERY_LEN {
        Err(RegexQueryError::TooLong(utf8_len(query)))
    } else {
        Ok(())
    }
}

/// Which queries the regex rules accept: a plain query always; a forward regex query for
/// every language when its pattern is at most 64 bytes; an inverse regex query on a language
/// with the default tokenizer under the same length rule. An inverse regex query on a
/// dictionary-tokenized (CJK) language is refused, and a longer pattern is refused with its
/// length.
pub proof fn lemma_regex_rules(lang: Seq<char>, query: Seq<char>, inverse: bool)
    ensures
        regex_query_result(lang, query, inverse, false) == Ok::<(), RegexQueryError>(()),
        utf8_len(query) <= 64 ==> regex_query_result(lang, query, false, true) == Ok::<(), RegexQueryError>(()),
        utf8_len(query) <= 64 && tokenizer_for(lang) == DEFAULT_TOKENIZER@
            ==> regex_query_result(lang, query, true, true) == Ok::<(), RegexQueryError>(()),
        tokenizer_for(lang) != DEFAULT_TOKENIZER@
            ==> regex_query_result(lang, query, true, true) == Err::<(), RegexQueryError>(RegexQueryError::InverseRegexCjk),
        utf8_len(query) > 64 && (!inverse || tokenizer_for(lang) == DEFAULT_TOKENIZER@)
            ==> regex_query_result(lang, query, inverse, true) == Err::<(), RegexQueryError>(
                RegexQueryError::TooLong(utf8_len(query)),
            ),
{
}

/// Refuses regex queries in inverse mode for dictionary-tokenized languages and regex
/// patterns longer than [`MAX_REGEX_QUERY_LEN`] bytes.
pub fn validate_regex_query(lang: &str, query: &str, inverse: bool, regex: bool) -> (r: Result<(), RegexQueryError>)
    ensures
        r == regex_query_result(lang@, query@, inverse, regex),
{
    if regex && inverse && !uses_default_tokenizer(lang) {
        return Err(RegexQueryError::InverseRegexCjk);
    }
    let len = query.len();
    if regex && len > MAX_REGEX_QUERY_LEN {
        return Err(RegexQueryError::TooLong(len));
    }
    Ok(())
}

/// Kind of failure returned by a search or by index resolution.
#[derive(Debug, Clone, Copy, PartialEq, Eq, Structural)]
pub enum SearchFailureKind {
    InvalidInput,
    MissingIndex,
    Internal,
}

/// The message start that marks a missing index.
pub open spec fn missing_index_marker() -> Seq<char> {
    "index directory does not exist:"@
}

/// `true` when the message names a problem with the request.
pub open spec fn names_invalid_input(msg: Seq<char>) -> bool {
    ||| occurs_in(msg, "lang contains invalid path component"@)
    ||| occurs_in(msg, " must not be empty"@)
    ||| occurs_in(msg, "failed to parse regex query:"@)
    ||| occurs_in(msg, "QueryParserError"@)
    ||| occurs_in(msg, "regex queries are not supported"@)
}

/// How a failure with message `msg` is classified.
pub open spec fn failure_kind(msg: Seq<char>) -> SearchFailureKind {
    if has_prefix(msg, missing_index_marker()) {
        SearchFailureKind::MissingIndex
    } else if names_invalid_input(msg) {
        SearchFailureKind::InvalidInput
    } else {
        SearchFailureKind::Internal
    }
}

/// How failures are classified by their message: one that starts with `index directory does
/// not exist:` is a missing index; otherwise one that mentions an invalid `lang`, an empty
/// value, an unparseable regex or query, or a refused regex query is invalid input; anything
/// else is internal. Only a missing index gets the install hint.
pub proof fn lemma_failure_rules(msg: Seq<char>)
    ensures
        has_prefix(msg, "index directory does not exist:"@) ==> failure_kind(msg) == SearchFailureKind::MissingIndex,
        !has_prefix(msg, "index directory does not exist:"@) && (occurs_in(msg, "lang contains invalid path component"@)
            || occurs_in(msg, " must not be empty"@) || occurs_in(msg, "failed to parse regex query:"@)
            || occurs_in(msg, "QueryParserError"@) || occurs_in(msg, "regex queries are not supported"@))
            ==> failure_kind(msg) == SearchFailureKind::InvalidInput,
        !has_prefix(msg, "index directory does not exist:"@) && !occurs_in(msg, "lang contains invalid path component"@)
            && !occurs_in(msg, " must not be empty"@) && !occurs_in(msg, "failed to parse regex query:"@)
            && !occurs_in(msg, "QueryParserError"@) && !occurs_in(msg, "regex queries are not supported"@)
            ==> failure_kind(msg) == SearchFailureKind::Internal,
        failure_kind(msg) == SearchFailureKind::MissingIndex ==> failure_text(msg) == msg
            + ". Install an index with: packtrans-glossary index download --lang <lang>"@,
        failure_kind(msg) != SearchFailureKind::MissingIndex ==> failure_text(msg) == msg,
        is_invalid_params_failure(msg) <==> (occurs_in(msg, "lang contains invalid path component"@)
            || occurs_in(msg, "failed to parse regex query"@) || occurs_in(msg, "QueryParserError"@)),
{
}

/// Classifies search/index resolution failures (by their message) for tool and HTTP errors.
pub fn classify_search_failure(message: &str) -> (r: SearchFailureKind)
    ensures
        r == failure_kind(message@),
{
    if starts_with(message, "index directory does not exist:") {
        return SearchFailureKind::MissingIndex;
    }
    if contains(message, "lang contains invalid path component") || contains(
        message,
        " must not be empty",
    ) || contains(message, "failed to parse regex query:") || contains(message, "QueryParserError")
        || contains(message, "regex queries are not supported") {
        return SearchFailureKind::InvalidInput;
    }
    SearchFailureKind::Internal
}

/// The text a tool error shows for a failure with message `msg`: a missing index adds how to
/// install one.
pub open spec fn failure_text(msg: Seq<char>) -> Seq<char> {
    if failure_kind(msg) == SearchFailureKind::MissingIndex {
        msg + ". Install an index with: packtrans-glossary index download --lang <lang>"@
    } else {
        msg
    }
}

/// Classifies a search failure and returns the text to show for it.
pub fn map_search_failure(message: &str) -> (r: (SearchFailureKind, String))
    ensures
        r.0 == failure_kind(message@),
        r.1@ == failure_text(message@),
{
    let kind = classify_search_failure(message);
    let mut text = owned(message);
    if kind == SearchFailureKind::MissingIndex {
        push_str(&mut text, ". Install an index with: packtrans-glossary index download --lang <lang>");
    }
    (kind, text)
}

/// `true` when a search failure with message `msg` is reported to a tool client as invalid
/// parameters (a bad language code or an unparseable query) rather than an internal error.
pub open spec fn is_invalid_params_failure(msg: Seq<char>) -> bool {
    ||| occurs_in(msg, "lang contains invalid path component"@)
    ||| occurs_in(msg, "failed to parse regex query"@)
    ||| occurs_in(msg, "QueryParserError"@)
}

/// Whether a search failure counts as invalid parameters for a tool client.
pub fn search_error_is_invalid_params(message: &str) -> (r: bool)
    ensures
        r == is_invalid_params_failure(message@),
{
    contains(message, "lang contains invalid path component") || contains(message, "failed to parse regex query")
        || contains(message, "QueryParserError")
}

/// A refused search request.
#[derive(Debug)]
pub enum QueryInputError {
    /// `lang` was empty.
    MissingLang,
    /// The search text was empty; `text` is the message naming the parameter.
    MissingText(String),
    Limit(LimitError),
    Regex(RegexQueryError),
    Lang(PathSegmentError),
}

impl QueryInputError {
    pub open spec fn spec_message(&self) -> Seq<char> {
        match self {
            QueryInputError::MissingLang => "missing `lang`"@,
            QueryInputError::MissingText(m) => m@,
            QueryInputError::Limit(e) => e.spec_message(),
            QueryInputError::Regex(e) => e.spec_message(),
            QueryInputError::Lang(e) => e.spec_message(),
        }
    }

    /// The error text.
    pub fn message(&self) -> (r: String)
        ensures
            r@ == self.spec_message(),
    {
        match self {
            QueryInputError::MissingLang => owned("missing `lang`"),
            QueryInputError::MissingText(m) => m.clone(),
            QueryInputError::Limit(e) => e.message(),
            QueryInputError::Regex(e) => e.message(),
            QueryInputError::Lang(e) => e.message(),
        }
    }
}

/// Checks of a glossary tool query, in order: `lang` present, search text present, limit,
/// regex rules, `lang` a single path segment. Returns the limit to use.
pub fn validate_glossary_query(lang: &str, q: &str, limit: Option<usize>, inverse: bool, regex: bool) -> (r:
    Result<usize, QueryInputError>)
    ensures
        lang@.len() == 0 ==> r matches Err(QueryInputError::MissingLang),
        lang@.len() > 0 && q@.len() == 0 ==> (r matches Err(QueryInputError::MissingText(m)) && m@
            == "missing search text (`q`)"@),
        lang@.len() > 0 && q@.len() > 0 ==> match limit_result(limit) {
            Err(e) => r == Err::<usize, QueryInputError>(QueryInputError::Limit(e)),
            Ok(n) => match regex_query_result(lang@, q@, inverse, regex) {
                Err(e) => r == Err::<usize, QueryInputError>(QueryInputError::Regex(e)),
                Ok(()) => if is_valid_path_segment(lang@) {
                    r == Ok::<usize, QueryInputError>(n)
                } else {
                    r matches Err(QueryInputError::Lang(e)) && e.spec_message()
                        == crate::util::invalid_component_message("lang"@, lang@)
                },
            },
        },
{
    if lang.is_empty() {
        return Err(QueryInputError::MissingLang);
    }
    if q.is_empty() {
        return Err(QueryInputError::MissingText(owned("missing search text (`q`)")));
    }
    let n = match validate_query_limit(limit) {
        Ok(n) => n,
        Err(e) => {
            return Err(QueryInputError::Limit(e));
        },
    };
    match validate_regex_query(lang, q, inverse, regex) {
        Ok(()) => {},
        Err(e) => {
            return Err(QueryInputError::Regex(e));
        },
    }
    match validate_path_segment(lang, "lang") {
        Ok(()) => Ok(n),
        Err(e) => Err(QueryInputError::Lang(e)),
    }
}

/// Checks of an HTTP query, in order: search text present, `lang` present, limit. Returns the
/// limit to use.
pub fn validate_http_query(lang: &str, q: &str, limit: Option<usize>) -> (r: Result<usize, QueryInputError>)
    ensures
        q@.len() == 0 ==> (r matches Err(QueryInputError::MissingText(m)) && m@
            == "missing search text (`q` or `query`)"@),
        q@.len() > 0 && lang@.len() == 0 ==> r matches Err(QueryInputError::MissingLang),
        q@.len() > 0 && lang@.len() > 0 ==> match limit_result(limit) {
            Err(e) => r == Err::<usize, QueryInputError>(QueryInputError::Limit(e)),
            Ok(n) => r == Ok::<usize, QueryInputError>(n),
        },
{
    if q.is_empty() {
        return Err(QueryInputError::MissingText(owned("missing search text (`q` or `query`)")));
    }
    if lang.is_empty() {
        return Err(QueryInputError::MissingLang);
    }
    match validate_http_limit(limit) {
        Ok(n) => Ok(n),
        Err(e) => Err(QueryInputError::Limit(e)),
    }
}

/// Checks made before a search runs, in order: `lang` a single path segment, then the regex
/// rules.
pub fn validate_search_request(lang: &str, q: &str, inverse: bool, regex: bool) -> (r: Result<(), QueryInputError>)
    ensures
        !is_valid_path_segment(lang@) ==> r matches Err(QueryInputError::Lang(_)),
        is_valid_path_segment(lang@) ==> match regex_query_result(lang@, q@, inverse, regex) {
            Err(e) => r == Err::<(), QueryInputError>(QueryInputError::Regex(e)),
            Ok(()) => r is Ok,
        },
{
    match validate_path_segment(lang, "lang") {
        Ok(()) => {},
        Err(e) => {
            return Err(QueryInputError::Lang(e));
        },
    }
    match validate_regex_query(lang, q, inverse, regex) {
        Ok(()) => Ok(()),
        Err(e) => Err(QueryInputError::Regex(e)),
    }
}


/// Which text field a search runs on.
#[derive(Debug, Clone, Copy, PartialEq, Eq, Structural)]
pub enum TextField {
    SourceText,
    TargetText,
}

/// Forward searches look in the source text, inverse searches in the target text.
pub fn search_field(inverse: bool) -> (r: TextField)
    ensures
        r == if inverse { TextField::TargetText } else { TextField::SourceText },
{
    if inverse {
        TextField::TargetText
    } else {
        TextField::SourceText
    }
}

/// The stored fields of one indexed document.
#[derive(Debug)]
pub struct StoredDoc {
    pub mod_id: String,
    pub key: String,
    pub source_lang: String,
    pub source_text: String,
    pub target_lang: String,
    pub target_text: String,
}

/// The text columns of a search hit. Column semantics follow the query direction: `source` is
/// the text that was searched.
#[derive(Debug)]
pub struct HitText {
    pub mod_id: String,
    pub key: String,
    pub source: String,
    pub source_lang: String,
    pub target_lang: String,
    pub target: String,
}

/// Lays out a document as a hit: in inverse mode, source and target (texts and languages) swap.
pub fn orient_hit(doc: StoredDoc, inverse: bool) -> (r: HitText)
    ensures
        r.mod_id == doc.mod_id,
        r.key == doc.key,
        inverse ==> r.source == doc.target_text && r.target == doc.source_text
            && r.source_lang == doc.target_lang && r.target_lang == doc.source_lang,
        !inverse ==> r.source == doc.source_text && r.target == doc.target_text
            && r.source_lang == doc.source_lang && r.target_lang == doc.target_lang,
{
    if inverse {
        HitText {
            mod_id: doc.mod_id,
            key: doc.key,
            source: doc.target_text,
            source_lang: doc.target_lang,
            target_lang: doc.source_lang,
            target: doc.source_text,
        }
    } else {
        HitText {
            mod_id: doc.mod_id,
            key: doc.key,
            source: doc.source_text,
            source_lang: doc.source_lang,
            target_lang: doc.target_lang,
            target: doc.target_text,
        }
    }
}

/// The columns of a hit: mod, key, source, source language, target language, target.
pub open spec fn hit_view(h: HitText) -> (Seq<char>, Seq<char>, Seq<char>, Seq<char>, Seq<char>, Seq<char>) {
    (h.mod_id@, h.key@, h.source@, h.source_lang@, h.target_lang@, h.target@)
}

/// The columns of the hit that document `d` gives: in inverse mode the searched text is the
/// target text, so source and target (texts and languages) swap.
pub open spec fn oriented_view(d: StoredDoc, inverse: bool) -> (Seq<char>, Seq<char>, Seq<char>, Seq<char>, Seq<char>, Seq<char>) {
    if inverse {
        (d.mod_id@, d.key@, d.target_text@, d.target_lang@, d.source_lang@, d.source_text@)
    } else {
        (d.mod_id@, d.key@, d.source_text@, d.source_lang@, d.target_lang@, d.target_text@)
    }
}

/// A copy of a stored document.
fn copy_doc(d: &StoredDoc) -> (r: StoredDoc)
    ensures
        r.mod_id@ == d.mod_id@,
        r.key@ == d.key@,
        r.source_lang@ == d.source_lang@,
        r.source_text@ == d.source_text@,
        r.target_lang@ == d.target_lang@,
        r.target_text@ == d.target_text@,
{
    StoredDoc {
        mod_id: owned(d.mod_id.as_str()),
        key: owned(d.key.as_str()),
        source_lang: owned(d.source_lang.as_str()),
        source_text: owned(d.source_text.as_str()),
        target_lang: owned(d.target_lang.as_str()),
        target_text: owned(d.target_text.as_str()),
    }
}

/// `true` when no column of a hit's view is empty.
pub open spec fn view_is_complete(h: (Seq<char>, Seq<char>, Seq<char>, Seq<char>, Seq<char>, Seq<char>)) -> bool {
    h.0.len() > 0 && h.1.len() > 0 && h.2.len() > 0 && h.3.len() > 0 && h.4.len() > 0 && h.5.len() > 0
}

/// The complete hits of `docs[i..n]`, oriented, in order, each with its position in `docs`.
pub open spec fn complete_views(docs: Seq<StoredDoc>, inverse: bool, i: int, n: int) -> Seq<
    (int, (Seq<char>, Seq<char>, Seq<char>, Seq<char>, Seq<char>, Seq<char>)),
>
    decreases n - i,
{
    if i >= n || i < 0 {
        Seq::empty()
    } else {
        let h = oriented_view(docs[i], inverse);
        let rest = complete_views(docs, inverse, i + 1, n);
        if view_is_complete(h) { seq![(i, h)] + rest } else { rest }
    }
}

/// View of positioned hits.
pub open spec fn placed_hits_view(v: Seq<(usize, HitText)>) -> Seq<
    (int, (Seq<char>, Seq<char>, Seq<char>, Seq<char>, Seq<char>, Seq<char>)),
> {
    v.map_values(|p: (usize, HitText)| (p.0 as int, hit_view(p.1)))
}

/// The hits of an in-memory search: of the first `limit` documents it returned, in order,
/// those whose oriented columns are all non-empty, each with its position among the documents
/// (to find its score).
pub fn complete_hits(docs: &[StoredDoc], inverse: bool, limit: usize) -> (r: Vec<(usize, HitText)>)
    ensures
        placed_hits_view(r@) == complete_views(
            docs@,
            inverse,
            0,
            if docs@.len() < limit { docs@.len() as int } else { limit as int },
        ),
        r@.len() <= limit,
        forall|i: int| 0 <= i < r@.len() ==> hit_is_complete(#[trigger] r@[i].1),
{
    let n: usize = if docs.len() < limit { docs.len() } else { limit };
    let ghost whole = complete_views(docs@, inverse, 0, n as int);
    let mut out: Vec<(usize, HitText)> = Vec::new();
    let mut i: usize = 0;
    assert(placed_hits_view(out@) + whole =~= whole);
    while i < n
        invariant
            n <= docs@.len(),
            n <= limit,
            i <= n,
            whole == complete_views(docs@, inverse, 0, n as int),
            placed_hits_view(out@) + complete_views(docs@, inverse, i as int, n as int) == whole,
            out@.len() <= i,
            forall|j: int| 0 <= j < out@.len() ==> hit_is_complete(#[trigger] out@[j].1),
        decreases n - i,
    {
        let hit = orient_hit(copy_doc(&docs[i]), inverse);
        assert(hit_view(hit) == oriented_view(docs@[i as int], inverse));
        let ghost before = out@;
        if is_complete_hit(&hit) {
            out.push((i, hit));
            assert(placed_hits_view(out@) =~= placed_hits_view(before).push(
                (i as int, oriented_view(docs@[i as int], inverse)),
            ));
            assert(placed_hits_view(before) + complete_views(docs@, inverse, i as int, n as int)
                =~= placed_hits_view(out@) + complete_views(docs@, inverse, i + 1, n as int));
        }
        i += 1;
    }
    assert(placed_hits_view(out@) + Seq::empty() =~= placed_hits_view(out@));
    out
}

/// The hits of the documents a search returned, best first: at most `limit` of them, in the
/// order the search gave, each laid out by [`orient_hit`].
pub fn orient_hits(docs: &[StoredDoc], inverse: bool, limit: usize) -> (r: Vec<HitText>)
    ensures
        r@.len() == if docs@.len() < limit { docs@.len() as int } else { limit as int },
        r@.len() <= limit,
        forall|i: int| 0 <= i < r@.len() ==> hit_view(#[trigger] r@[i]) == oriented_view(docs@[i], inverse),
{
    let n: usize = if docs.len() < limit { docs.len() } else { limit };
    let mut out: Vec<HitText> = Vec::new();
    let mut i: usize = 0;
    while i < n
        invariant
            n <= docs@.len(),
            n <= limit,
            n == if docs@.len() < limit { docs@.len() as int } else { limit as int },
            i <= n,
            out@.len() == i,
            forall|j: int| 0 <= j < i ==> hit_view(#[trigger] out@[j]) == oriented_view(docs@[j], inverse),
        decreases n - i,
    {
        out.push(orient_hit(copy_doc(&docs[i]), inverse));
        i += 1;
    }
    out
}

/// `true` when no column of the hit is empty (in-memory searches drop the others).
pub open spec fn hit_is_complete(h: HitText) -> bool {
    &&& h.mod_id@.len() > 0
    &&& h.key@.len() > 0
    &&& h.source@.len() > 0
    &&& h.source_lang@.len() > 0
    &&& h.target_lang@.len() > 0
    &&& h.target@.len() > 0
}

/// Checks [`hit_is_complete`].
pub fn is_complete_hit(h: &HitText) -> (r: bool)
    ensures
        r == hit_is_complete(*h),
{
    !(h.mod_id.as_str().is_empty() || h.key.as_str().is_empty() || h.source.as_str().is_empty()
        || h.source_lang.as_str().is_empty() || h.target_lang.as_str().is_empty()
        || h.target.as_str().is_empty())
}

/// `true` for the characters with the Unicode `White_Space` property (what
/// `char::is_whitespace` tests).
pub open spec fn is_white_space(c: char) -> bool {
    ||| ('\u{9}' <= c && c <= '\u{d}')
    ||| c == ' '
    ||| c == '\u{85}'
    ||| c == '\u{a0}'
    ||| c == '\u{1680}'
    ||| ('\u{2000}' <= c && c <= '\u{200a}')
    ||| c == '\u{2028}'
    ||| c == '\u{2029}'
    ||| c == '\u{202f}'
    ||| c == '\u{205f}'
    ||| c == '\u{3000}'
}

/// `true` when trimming white space leaves nothing.
pub open spec fn is_blank(s: Seq<char>) -> bool {
    forall|i: int| 0 <= i < s.len() ==> is_white_space(#[trigger] s[i])
}

/// A refused in-memory search.
#[derive(Debug, Clone, Copy, PartialEq, Eq, Structural)]
pub enum InMemorySearchError {
    EmptyQuery,
    ZeroLimit,
}

impl InMemorySearchError {
    pub open spec fn spec_message(&self) -> Seq<char> {
        match self {
            InMemorySearchError::EmptyQuery => "query must not be empty"@,
            InMemorySearchError::ZeroLimit => "limit must be at least 1"@,
        }
    }

    /// The error text.
    pub fn message(&self) -> (r: String)
        ensures
            r@ == self.spec_message(),
    {
        match self {
            InMemorySearchError::EmptyQuery => owned("query must not be empty"),
            InMemorySearchError::ZeroLimit => owned("limit must be at least 1"),
        }
    }
}

/// Checks of an in-memory search: the query must hold something other than white space, and
/// the limit must be at least 1.
pub fn validate_in_memory_search(query: &str, limit: usize) -> (r: Result<(), InMemorySearchError>)
    ensures
        r == if is_blank(query@) {
            Err(InMemorySearchError::EmptyQuery)
        } else if limit == 0 {
            Err(InMemorySearchError::ZeroLimit)
        } else {
            Ok(())
        },
{
    let chars = crate::text::chars_of(query);
    let mut i: usize = 0;
    let mut blank = true;
    while i < chars.len()
        invariant
            i <= chars@.len(),
            chars@ == query@,
            blank == forall|j: int| 0 <= j < i ==> is_white_space(#[trigger] chars@[j]),
        decreases chars@.len() - i,
    {
        let c = chars[i];
        let ws = ('\u{9}' <= c && c <= '\u{d}') || c == ' ' || c == '\u{85}' || c == '\u{a0}'
            || c == '\u{1680}' || ('\u{2000}' <= c && c <= '\u{200a}') || c == '\u{2028}'
            || c == '\u{2029}' || c == '\u{202f}' || c == '\u{205f}' || c == '\u{3000}';
        if !ws {
            blank = false;
        }
        i += 1;
    }
    if blank {
        Err(InMemorySearchError::EmptyQuery)
    } else if limit == 0 {
        Err(InMemorySearchError::ZeroLimit)
    } else {
        Ok(())
    }
}

/// A response status and error text for a refused or failed HTTP request.
#[derive(Debug)]
pub enum ApiError {
    BadRequest(String),
    Internal,
}

impl ApiError {
    /// A bad-request error with `message`.
    pub fn bad_request(message: String) -> (r: ApiError)
        ensures
            r == ApiError::BadRequest(message),
    {
        ApiError::BadRequest(message)
    }

    /// The HTTP status code and error text sent for this error.
    pub fn status_and_message(&self) -> (r: (u16, String))
        ensures
            match self {
                ApiError::BadRequest(m) => r.0 == 400 && r.1@ == m@,
                ApiError::Internal => r.0 == 500 && r.1@ == "internal server error"@,
            },
    {
        match self {
            ApiError::BadRequest(m) => (400, m.clone()),
            ApiError::Internal => (500, owned("internal server error")),
        }
    }
}
} // verus!
