//! Saved image editor projects: project ids and file names, and the summaries
//! listed for the project browser, newest first. The application reads and
//! writes the files.
use vstd::prelude::*;

use crate::export::path_extension;
use crate::export::extension_of;
use crate::text::{has_prefix, is_err_with, joined, owned, str_eq};

verus! {

broadcast use vstd::string::group_string_axioms;

// ---------------------------------------------------------------------------
// Project ids
// ---------------------------------------------------------------------------
/// A character a project id may hold: ASCII letters and digits, `-` and `_`.
pub open spec fn is_project_id_char(c: char) -> bool {
    ('a' <= c && c <= 'z') || ('A' <= c && c <= 'Z') || ('0' <= c && c <= '9') || c == '-' || c
        == '_'
}

/// A project id: non-empty, of allowed characters only.
pub open spec fn valid_project_id(id: Seq<char>) -> bool {
    id.len() > 0 && forall|i: int| 0 <= i < id.len() ==> is_project_id_char(#[trigger] id[i])
}

/// The message for an id that is not a project id.
pub open spec fn bad_project_id_message() -> Seq<char> {
    "项目 ID 无效"@
}

/// The name of the file a project is stored in: its id and `.json`.
pub fn project_file_name(id: &str) -> (r: Result<String, String>)
    ensures
        valid_project_id(id@) ==> (r matches Ok(f) && f@ == id@ + ".json"@),
        !valid_project_id(id@) ==> is_err_with(r, bad_project_id_message()),
{
    let mut ok = id.unicode_len() > 0;
    let mut i: usize = 0;
    let n = id.unicode_len();
    while i < n
        invariant
            n == id@.len(),
            i <= n,
            ok == (id@.len() > 0 && forall|j: int| 0 <= j < i ==> is_project_id_char(#[trigger] id@[j])),
        decreases n - i,
    {
        let c = id.get_char(i);
        let allowed = ('a' <= c && c <= 'z') || ('A' <= c && c <= 'Z') || ('0' <= c && c <= '9')
            || c == '-' || c == '_';
        ok = ok && allowed;
        i = i + 1;
    }
    if ok {
        Ok(joined(id, ".json"))
    } else {
        Err(owned("项目 ID 无效"))
    }
}

/// The path names a JSON file (extension exactly `json`).
pub fn is_json_path(path: &str) -> (b: bool)
    ensures
        b == (path_extension(path@) == Some("json"@)),
{
    match extension_of(path) {
        Some(e) => str_eq(e.as_str(), "json"),
        None => false,
    }
}

// ---------------------------------------------------------------------------
// Reading project documents (serde_json)
// ---------------------------------------------------------------------------
/// Whether `serde_json` parses `raw` as a JSON value.
pub uninterp spec fn json_parses(raw: Seq<char>) -> bool;

/// The string at `key` of the JSON object `raw`, as `Value::get` and
/// `Value::as_str` read it.
pub uninterp spec fn json_text_field(raw: Seq<char>, key: Seq<char>) -> Option<Seq<char>>;

/// The unsigned integer at `key` of the JSON object `raw` (`Value::as_u64`).
pub uninterp spec fn json_u64_field(raw: Seq<char>, key: Seq<char>) -> Option<u64>;

/// The length of the array at `key` of the JSON object `raw` (`Value::as_array`).
pub uninterp spec fn json_array_len_field(raw: Seq<char>, key: Seq<char>) -> Option<nat>;

/// Calls `serde_json::from_str::<Value>`: it fails exactly when `json_parses`
/// is false, with the parser's message (not stated); the value is carried as is.
#[verifier::external_body]
pub(crate) fn parse_json_value(raw: &str) -> (r: Result<serde_json::Value, String>)
    ensures
        r is Ok <==> json_parses(raw@),
{
    serde_json::from_str::<serde_json::Value>(raw).map_err(|e| e.to_string())
}

/// Parses `raw` with `serde_json` and reads the string at `key`; named by
/// `json_text_field`.
#[verifier::external_body]
fn json_text_at(raw: &str, key: &str) -> (r: Option<String>)
    ensures
        match r {
            Some(t) => json_text_field(raw@, key@) == Some(t@),
            None => json_text_field(raw@, key@) is None,
        },
{
    match serde_json::from_str::<serde_json::Value>(raw) {
        Ok(v) => v.get(key).and_then(serde_json::Value::as_str).map(String::from),
        Err(_) => None,
    }
}

/// Parses `raw` with `serde_json` and reads the unsigned integer at `key`; named
/// by `json_u64_field`.
#[verifier::external_body]
fn json_u64_at(raw: &str, key: &str) -> (r: Option<u64>)
    ensures
        r == json_u64_field(raw@, key@),
{
    match serde_json::from_str::<serde_json::Value>(raw) {
        Ok(v) => v.get(key).and_then(serde_json::Value::as_u64),
        Err(_) => None,
    }
}

/// Parses `raw` with `serde_json` and reads the length of the array at `key`;
/// named by `json_array_len_field`.
#[verifier::external_body]
fn json_array_len_at(raw: &str, key: &str) -> (r: Option<usize>)
    ensures
        match r {
            Some(n) => json_array_len_field(raw@, key@) == Some(n as nat),
            None => json_array_len_field(raw@, key@) is None,
        },
{
    match serde_json::from_str::<serde_json::Value>(raw) {
        Ok(v) => v.get(key).and_then(serde_json::Value::as_array).map(Vec::len),
        Err(_) => None,
    }
}

/// The prefix of the message for a project that is not JSON, when saving.
pub open spec fn bad_project_data_prefix() -> Seq<char> {
    "项目数据无效: "@
}

/// Checks a project document before it is saved: it must parse, carry a string
/// `id`, and that id must be a project id. Answers the id and the file name.
pub fn plan_project_save(json: &str) -> (r: Result<(String, String), String>)
    ensures
        !json_parses(json@) ==> (r matches Err(e) && has_prefix(e@, bad_project_data_prefix())),
        json_parses(json@) ==> match json_text_field(json@, "id"@) {
            None => is_err_with(r, "项目缺少 id"@),
            Some(id) => if valid_project_id(id) {
                r matches Ok(p) && p.0@ == id && p.1@ == id + ".json"@
            } else {
                is_err_with(r, bad_project_id_message())
            },
        },
{
    if let Err(e) = parse_json_value(json) {
        let m = joined("项目数据无效: ", e.as_str());
        assert(m@.take(bad_project_data_prefix().len() as int) =~= bad_project_data_prefix());
        return Err(m);
    }
    let id = match json_text_at(json, "id") {
        Some(id) => id,
        None => {
            return Err(owned("项目缺少 id"));
        },
    };
    let file = project_file_name(id.as_str())?;
    Ok((id, file))
}

// ---------------------------------------------------------------------------
// Project summaries
// ---------------------------------------------------------------------------
/// What the project browser lists of a saved project.
#[derive(Clone, Debug)]
pub struct ProjectSummary {
    pub id: String,
    pub name: String,
    pub updated_at: u64,
    pub image_count: u32,
    pub preview_base64: Option<String>,
}

/// A summary as plain values: id, name, update time, image count, preview.
pub type SummaryView = (Seq<char>, Seq<char>, u64, u32, Option<Seq<char>>);

/// The characters of an optional string.
pub open spec fn opt_text(o: Option<String>) -> Option<Seq<char>> {
    match o {
        Some(s) => Some(s@),
        None => None,
    }
}

impl ProjectSummary {
    /// The summary as plain values.
    pub open spec fn view(&self) -> SummaryView {
        (self.id@, self.name@, self.updated_at, self.image_count, opt_text(self.preview_base64))
    }
}

/// The views of a sequence of summaries.
pub open spec fn views(s: Seq<ProjectSummary>) -> Seq<SummaryView> {
    s.map_values(|p: ProjectSummary| p.view())
}

/// The summary of a project document's fields: none without a non-empty id;
/// a missing name, time or image list counts as "未命名项目", 0 and 0. The image
/// count is the list's length taken as a `u32`.
pub open spec fn summary_from(
    id: Option<Seq<char>>,
    name: Option<Seq<char>>,
    updated_at: Option<u64>,
    document_count: Option<nat>,
    preview: Option<Seq<char>>,
) -> Option<SummaryView> {
    match id {
        None => None,
        Some(i) => if i.len() == 0 {
            None
        } else {
            Some(
                (
                    i,
                    match name {
                        Some(n) => n,
                        None => "未命名项目"@,
                    },
                    match updated_at {
                        Some(u) => u,
                        None => 0,
                    },
                    match document_count {
                        Some(c) => c as u32,
                        None => 0,
                    },
                    preview,
                ),
            )
        },
    }
}

/// The view of an optional summary.
pub open spec fn opt_summary(o: Option<ProjectSummary>) -> Option<SummaryView> {
    match o {
        Some(p) => Some(p.view()),
        None => None,
    }
}

/// Builds the summary of a project document from its fields (see `summary_from`).
pub fn summary_from_fields(
    id: Option<String>,
    name: Option<String>,
    updated_at: Option<u64>,
    document_count: Option<usize>,
    preview_base64: Option<String>,
) -> (r: Option<ProjectSummary>)
    ensures
        opt_summary(r) == summary_from(
            opt_text(id),
            opt_text(name),
            updated_at,
            match document_count {
                Some(c) => Some(c as nat),
                None => None,
            },
            opt_text(preview_base64),
        ),
{
    let id = match id {
        Some(i) => i,
        None => {
            return None;
        },
    };
    if id.unicode_len() == 0 {
        return None;
    }
    let name = match name {
        Some(n) => n,
        None => owned("未命名项目"),
    };
    let updated_at = match updated_at {
        Some(u) => u,
        None => 0,
    };
    let image_count: u32 = match document_count {
        Some(c) => c as u32,
        None => 0,
    };
    Some(ProjectSummary { id, name, updated_at, image_count, preview_base64 })
}

/// The summary of the project document `raw`, as its fields read.
pub open spec fn document_summary(raw: Seq<char>) -> Option<SummaryView> {
    summary_from(
        json_text_field(raw, "id"@),
        json_text_field(raw, "name"@),
        json_u64_field(raw, "updatedAt"@),
        json_array_len_field(raw, "documents"@),
        json_text_field(raw, "previewBase64"@),
    )
}

/// The prefix of the message for a stored project that is not JSON.
pub open spec fn unreadable_project_prefix() -> Seq<char> {
    "解析项目失败: "@
}

/// Summarizes a stored project document; none when it has no id.
pub fn project_summary(raw: &str) -> (r: Result<Option<ProjectSummary>, String>)
    ensures
        r is Ok <==> json_parses(raw@),
        r matches Err(e) ==> has_prefix(e@, unreadable_project_prefix()),
        r matches Ok(o) ==> opt_summary(o) == document_summary(raw@),
{
    if let Err(e) = parse_json_value(raw) {
        let m = joined("解析项目失败: ", e.as_str());
        assert(m@.take(unreadable_project_prefix().len() as int) =~= unreadable_project_prefix());
        return Err(m);
    }
    let id = json_text_at(raw, "id");
    let name = json_text_at(raw, "name");
    let updated_at = json_u64_at(raw, "updatedAt");
    let count = json_array_len_at(raw, "documents");
    let preview = json_text_at(raw, "previewBase64");
    Ok(summary_from_fields(id, name, updated_at, count, preview))
}

// ---------------------------------------------------------------------------
// Newest first
// ---------------------------------------------------------------------------
/// The first position in `s` whose update time is older than `t` (or the end).
pub open spec fn first_older(s: Seq<SummaryView>, t: u64) -> int
    decreases s.len(),
{
    if s.len() == 0 {
        0
    } else if s[0].2 < t {
        0
    } else {
        1 + first_older(s.drop_first(), t)
    }
}

/// `s` with `x` placed after every summary at least as recent as it.
pub open spec fn insert_by_recency(s: Seq<SummaryView>, x: SummaryView) -> Seq<SummaryView> {
    s.insert(first_older(s, x.2), x)
}

/// `s` ordered newest first; summaries with the same time keep their order.
pub open spec fn newest_first(s: Seq<SummaryView>) -> Seq<SummaryView>
    decreases s.len(),
{
    if s.len() == 0 {
        s
    } else {
        insert_by_recency(newest_first(s.drop_last()), s.last())
    }
}

/// Ordered by update time, newest first.
pub open spec fn is_newest_first(s: Seq<SummaryView>) -> bool {
    forall|i: int, j: int| 0 <= i < j < s.len() ==> #[trigger] s[i].2 >= #[trigger] s[j].2
}

proof fn lemma_first_older_at(s: Seq<SummaryView>, t: u64, p: int)
    requires
        0 <= p <= s.len(),
        forall|j: int| 0 <= j < p ==> #[trigger] s[j].2 >= t,
        p == s.len() || s[p].2 < t,
    ensures
        first_older(s, t) == p,
    decreases p,
{
    if p > 0 {
        assert(s[0].2 >= t);
        let d = s.drop_first();
        assert forall|j: int| 0 <= j < p - 1 implies #[trigger] d[j].2 >= t by {
            assert(d[j] == s[j + 1]);
        }
        if p < s.len() {
            assert(d[p - 1] == s[p]);
        }
        lemma_first_older_at(d, t, p - 1);
    }
}

proof fn lemma_first_older_bounds(s: Seq<SummaryView>, t: u64)
    ensures
        0 <= first_older(s, t) <= s.len(),
        forall|j: int| 0 <= j < first_older(s, t) ==> #[trigger] s[j].2 >= t,
        first_older(s, t) < s.len() ==> s[first_older(s, t)].2 < t,
    decreases s.len(),
{
    if s.len() > 0 && s[0].2 >= t {
        let d = s.drop_first();
        lemma_first_older_bounds(d, t);
        assert forall|j: int| 0 <= j < first_older(s, t) implies #[trigger] s[j].2 >= t by {
            if j > 0 {
                assert(s[j] == d[j - 1]);
            }
        }
    }
}

/// Ordering newest first yields a sequence ordered by update time, newest
/// first, holding the same summaries.
pub proof fn lemma_newest_first_sorted(s: Seq<SummaryView>)
    ensures
        is_newest_first(newest_first(s)),
        newest_first(s).to_multiset() == s.to_multiset(),
    decreases s.len(),
{
    broadcast use vstd::seq_lib::group_to_multiset_ensures;
    broadcast use vstd::seq_lib::to_multiset_insert;

    if s.len() > 0 {
        let prev = newest_first(s.drop_last());
        lemma_newest_first_sorted(s.drop_last());
        let x = s.last();
        let p = first_older(prev, x.2);
        lemma_first_older_bounds(prev, x.2);
        let r = prev.insert(p, x);
        assert forall|i: int, j: int| 0 <= i < j < r.len() implies #[trigger] r[i].2
            >= #[trigger] r[j].2 by {
            if j < p {
                assert(r[i] == prev[i] && r[j] == prev[j]);
            } else if j == p {
                assert(r[i] == prev[i]);
            } else if i < p {
                assert(r[i] == prev[i] && r[j] == prev[j - 1]);
            } else if i == p {
                assert(r[j] == prev[j - 1]);
                assert(prev[p].2 < x.2);
                assert(prev[p].2 >= prev[j - 1].2 || j - 1 == p);
            } else {
                assert(r[i] == prev[i - 1] && r[j] == prev[j - 1]);
            }
        }
        assert(s.drop_last().push(x) =~= s);
    }
}

/// Orders project summaries newest first, keeping the order of equal times.
pub fn sort_newest_first(items: Vec<ProjectSummary>) -> (r: Vec<ProjectSummary>)
    ensures
        views(r@) == newest_first(views(items@)),
{
    let ghost orig = views(items@);
    let mut rest = items;
    let mut out: Vec<ProjectSummary> = Vec::new();
    let ghost mut k: int = 0;
    while rest.len() > 0
        invariant
            0 <= k <= orig.len(),
            rest@.len() + k == orig.len(),
            views(out@) == newest_first(orig.take(k)),
            views(rest@) == orig.skip(k),
        decreases rest.len(),
    {
        assert(views(rest@)[0] == rest@[0].view());
        assert(orig.skip(k)[0] == orig[k]);
        let ghost rest_before = rest@;
        let x = rest.remove(0);
        let t = x.updated_at;
        let mut pos: usize = 0;
        while pos < out.len() && out[pos].updated_at >= t
            invariant
                pos <= out.len(),
                forall|j: int| 0 <= j < pos ==> #[trigger] views(out@)[j].2 >= t,
            decreases out.len() - pos,
        {
            pos = pos + 1;
        }
        proof {
            lemma_first_older_at(views(out@), t, pos as int);
        }
        let ghost before = out@;
        out.insert(pos, x);
        proof {
            assert(views(out@) =~= views(before).insert(pos as int, x.view()));
            assert(orig.take(k + 1).drop_last() =~= orig.take(k));
            assert(orig.take(k + 1).last() == x.view());
            assert forall|j: int| 0 <= j < views(rest@).len() implies views(rest@)[j] == orig.skip(
                k + 1,
            )[j] by {
                assert(rest@[j] == rest_before[j + 1]);
                assert(views(rest_before)[j + 1] == orig.skip(k)[j + 1]);
            }
            assert(views(rest@) =~= orig.skip(k + 1));
            k = k + 1;
        }
    }
    assert(orig.take(k) =~= orig);
    out
}

/// Adds the summary of the stored project document `raw` to the list being
/// built (nothing when it has no id); a document that is not JSON is an error
/// and adds nothing.
pub fn add_project_summary(items: &mut Vec<ProjectSummary>, raw: &str) -> (r: Result<(), String>)
    ensures
        r is Ok <==> json_parses(raw@),
        r matches Err(e) ==> has_prefix(e@, unreadable_project_prefix()),
        views(final(items)@) == match (r, document_summary(raw@)) {
            (Ok(_), Some(v)) => views(old(items)@).push(v),
            _ => views(old(items)@),
        },
{
    let summary = project_summary(raw)?;
    if let Some(p) = summary {
        let ghost before = items@;
        items.push(p);
        assert(views(items@) =~= views(before).push(p.view()));
    }
    Ok(())
}

} // verus!
