//! Image editor sessions: the main window stages a batch of images under a
//! session id, commits it, and the editor window then takes the committed batch.
use vstd::prelude::*;

use crate::codec::{decoded_dimensions, image_decodes, image_dimensions};
use crate::export::{extension_of, file_name_of, path_extension, path_file_name};
use crate::keyed::KeyedStore;
use crate::text::{
    ascii_lower, chars_of, has_prefix, is_blank, is_err_with, joined, owned, str_eq,
    string_from_chars, to_ascii_lower, trim,
};

verus! {

broadcast use vstd::string::group_string_axioms;

/// Declares `serde_json::Value`, the editor's saved state of an image, carried
/// through the session unread.
#[verifier::external_type_specification]
#[verifier::external_body]
pub struct ExJsonValue(serde_json::Value);

/// One image of a session, with the editor's saved state for it (JSON).
#[derive(Clone, Debug)]
pub struct EditorImageItem {
    pub id: String,
    pub name: String,
    pub width: u32,
    pub height: u32,
    pub bytes: Vec<u8>,
    pub export_name: String,
    pub edit_state: Option<serde_json::Value>,
}

/// The settings a session opens the editor with.
#[derive(Clone, Debug)]
pub struct EditorSessionMeta {
    pub active_id: String,
    pub export_mode: String,
    pub export_format_id: String,
    pub compression_preset_id: String,
    pub size_scale_preset_id: String,
    pub thumbnail_sizes: Vec<u32>,
    pub ico_sizes: Vec<u32>,
    pub project_id: Option<String>,
    pub project_name: Option<String>,
}

/// A committed session: its settings and images, in the order they came.
#[derive(Clone, Debug)]
pub struct EditorSessionBatch {
    pub meta: EditorSessionMeta,
    pub images: Vec<EditorImageItem>,
}

/// Sessions being staged, by id, and the committed batch waiting for the editor.
#[derive(Debug)]
pub struct ImageEditorState {
    pub staging: KeyedStore<(EditorSessionMeta, Vec<EditorImageItem>)>,
    pub pending: Option<EditorSessionBatch>,
}

/// The staged sessions as settings and image sequences.
pub type Staged = Map<Seq<char>, (EditorSessionMeta, Seq<EditorImageItem>)>;

/// The message for a blank session id.
pub open spec fn bad_session_id_message() -> Seq<char> {
    "会话 ID 无效"@
}

/// The message for settings without an active image.
pub open spec fn no_active_image_message() -> Seq<char> {
    "未指定活动图片"@
}

/// The message for an image without bytes.
pub open spec fn empty_image_message() -> Seq<char> {
    "图片数据为空"@
}

/// The message for a session id that is not staged.
pub open spec fn unknown_session_message() -> Seq<char> {
    "编辑会话不存在或已过期"@
}

/// The message for committing a session without images.
pub open spec fn no_images_message() -> Seq<char> {
    "请至少添加一张图片"@
}

impl ImageEditorState {
    /// The staging entries have distinct ids.
    pub open spec fn wf(&self) -> bool {
        self.staging.wf()
    }

    /// The staged sessions.
    pub open spec fn staged(&self) -> Staged {
        self.staging.view().map_values(
            |p: (EditorSessionMeta, Vec<EditorImageItem>)| (p.0, p.1@),
        )
    }

    /// Nothing staged and nothing committed.
    pub fn new() -> (s: Self)
        ensures
            s.wf(),
            s.staged() == Staged::empty(),
            s.pending is None,
    {
        let s = ImageEditorState { staging: KeyedStore::new(), pending: None };
        assert(s.staged() =~= Staged::empty());
        s
    }
}

/// Starts staging a session (replacing one staged under the same id). The id and
/// the active image id must not be blank.
pub fn begin_editor_session(
    state: &mut ImageEditorState,
    session_id: String,
    meta: EditorSessionMeta,
) -> (r: Result<(), String>)
    requires
        old(state).wf(),
    ensures
        final(state).wf(),
        final(state).pending == old(state).pending,
        trim(session_id@).len() == 0 ==> is_err_with(r, bad_session_id_message()) && final(state).staged() == old(state).staged(),
        trim(session_id@).len() > 0 && trim(meta.active_id@).len() == 0 ==> is_err_with(
            r,
            no_active_image_message(),
        ) && final(state).staged() == old(state).staged(),
        trim(session_id@).len() > 0 && trim(meta.active_id@).len() > 0 ==> r is Ok && final(state).staged() == old(state).staged().insert(session_id@, (meta, Seq::empty())),
{
    if is_blank(session_id.as_str()) {
        return Err(owned("会话 ID 无效"));
    }
    if is_blank(meta.active_id.as_str()) {
        return Err(owned("未指定活动图片"));
    }
    let ghost k = session_id@;
    let ghost m = meta;
    state.staging.insert(session_id, (meta, Vec::new()));
    assert(state.staged() =~= old(state).staged().insert(k, (m, Seq::empty())));
    Ok(())
}

/// Adds an image to a staged session; an image without bytes is refused.
pub fn append_editor_session_image(
    state: &mut ImageEditorState,
    session_id: String,
    item: EditorImageItem,
) -> (r: Result<(), String>)
    requires
        old(state).wf(),
    ensures
        final(state).wf(),
        final(state).pending == old(state).pending,
        item.bytes@.len() == 0 ==> is_err_with(r, empty_image_message()) && final(state).staged()
            == old(state).staged(),
        item.bytes@.len() > 0 && !old(state).staged().dom().contains(session_id@) ==> is_err_with(
            r,
            unknown_session_message(),
        ) && final(state).staged() == old(state).staged(),
        item.bytes@.len() > 0 && old(state).staged().dom().contains(session_id@) ==> r is Ok
            && final(state).staged() == old(state).staged().insert(
            session_id@,
            (
                old(state).staged()[session_id@].0,
                old(state).staged()[session_id@].1.push(item),
            ),
        ),
{
    if item.bytes.len() == 0 {
        return Err(owned("图片数据为空"));
    }
    let ghost it = item;
    match state.staging.remove(session_id.as_str()) {
        Some((key, (meta, mut images))) => {
            let ghost before = images@;
            let ghost m = meta;
            images.push(item);
            state.staging.insert(key, (meta, images));
            assert(state.staged() =~= old(state).staged().insert(
                session_id@,
                (m, before.push(it)),
            ));
            Ok(())
        },
        None => {
            assert(state.staged() =~= old(state).staged());
            Err(owned("编辑会话不存在或已过期"))
        },
    }
}

/// What committing the session `id` answers, for the staged sessions `s`: its
/// settings and images, or the message (an id that is not staged, then a
/// session without images).
pub open spec fn commit_answer(s: Staged, id: Seq<char>) -> Result<
    (EditorSessionMeta, Seq<EditorImageItem>),
    Seq<char>,
> {
    if !s.dom().contains(id) {
        Err(unknown_session_message())
    } else if s[id].1.len() == 0 {
        Err(no_images_message())
    } else {
        Ok(s[id])
    }
}

/// Ends staging a session and, when it holds images, makes it the committed
/// batch (replacing one not yet taken). The session leaves staging either way.
pub fn commit_editor_session(state: &mut ImageEditorState, session_id: String) -> (r: Result<
    (),
    String,
>)
    requires
        old(state).wf(),
    ensures
        final(state).wf(),
        !old(state).staged().dom().contains(session_id@) ==> is_err_with(
            r,
            unknown_session_message(),
        ) && final(state).staged() == old(state).staged() && final(state).pending == old(state).pending,
        old(state).staged().dom().contains(session_id@) ==> final(state).staged() == old(state).staged().remove(session_id@),
        match commit_answer(old(state).staged(), session_id@) {
            Ok(batch) => r is Ok && (final(state).pending matches Some(b) && b.meta == batch.0
                && b.images@ == batch.1),
            Err(e) => is_err_with(r, e) && final(state).pending == old(state).pending,
        },
{
    match state.staging.remove(session_id.as_str()) {
        Some((_, (meta, images))) => {
            assert(state.staged() =~= old(state).staged().remove(session_id@));
            if images.len() == 0 {
                return Err(owned("请至少添加一张图片"));
            }
            state.pending = Some(EditorSessionBatch { meta, images });
            Ok(())
        },
        None => {
            assert(state.staged() =~= old(state).staged());
            Err(owned("编辑会话不存在或已过期"))
        },
    }
}

/// Hands over the committed batch, if any, and clears it.
pub fn take_image_editor_session(state: &mut ImageEditorState) -> (r: Result<
    Option<EditorSessionBatch>,
    String,
>)
    requires
        old(state).wf(),
    ensures
        final(state).wf(),
        final(state).staged() == old(state).staged(),
        final(state).pending is None,
        r == Ok::<Option<EditorSessionBatch>, String>(old(state).pending),
{
    Ok(state.pending.take())
}

// ---------------------------------------------------------------------------
// What a committed session holds
// ---------------------------------------------------------------------------
/// The staged sessions after `begin_editor_session(id, meta)` and then
/// `append_editor_session_image(id, item)` for each of `items` in order.
pub open spec fn staged_after(m: Staged, id: Seq<char>, meta: EditorSessionMeta, items: Seq<
    EditorImageItem,
>) -> Staged
    decreases items.len(),
{
    if items.len() == 0 {
        m.insert(id, (meta, Seq::empty()))
    } else {
        let prev = staged_after(m, id, meta, items.drop_last());
        prev.insert(id, (prev[id].0, prev[id].1.push(items.last())))
    }
}

/// A session hands the editor what was staged in it: after beginning `id` with
/// `meta` and appending `items`, the session holds `meta` and exactly `items` in
/// order (so committing it yields that batch), and other sessions are untouched.
pub proof fn lemma_session_holds_appended(
    m: Staged,
    id: Seq<char>,
    meta: EditorSessionMeta,
    items: Seq<EditorImageItem>,
)
    ensures
        staged_after(m, id, meta, items).dom().contains(id),
        staged_after(m, id, meta, items)[id] == (meta, items),
        forall|k: Seq<char>| k != id ==> #[trigger] staged_after(m, id, meta, items).dom().contains(k)
            == m.dom().contains(k),
        forall|k: Seq<char>|
            k != id && m.dom().contains(k) ==> #[trigger] staged_after(m, id, meta, items)[k] == m[k],
    decreases items.len(),
{
    if items.len() > 0 {
        lemma_session_holds_appended(m, id, meta, items.drop_last());
        assert(items.drop_last().push(items.last()) =~= items);
    }
}

/// A session hands the editor exactly what the main window staged: after
/// beginning `id` with `meta` and appending `items` (at least one), committing
/// yields `meta` with `items` in append order as the batch, which
/// `take_image_editor_session` then hands over once (it clears the batch); the
/// session has left staging, so committing it again is refused as unknown.
pub proof fn lemma_editor_session_round_trip(
    m: Staged,
    id: Seq<char>,
    meta: EditorSessionMeta,
    items: Seq<EditorImageItem>,
)
    requires
        items.len() > 0,
    ensures
        commit_answer(staged_after(m, id, meta, items), id) == Ok::<
            (EditorSessionMeta, Seq<EditorImageItem>),
            Seq<char>,
        >((meta, items)),
        commit_answer(staged_after(m, id, meta, items).remove(id), id) == Err::<
            (EditorSessionMeta, Seq<EditorImageItem>),
            Seq<char>,
        >(unknown_session_message()),
{
    lemma_session_holds_appended(m, id, meta, items);
}

// ---------------------------------------------------------------------------
// Opening an image file
// ---------------------------------------------------------------------------
/// An image file read for the editor.
#[derive(Clone, Debug)]
pub struct ReadImageFileResult {
    pub name: String,
    pub width: u32,
    pub height: u32,
    pub bytes: Vec<u8>,
}

/// The (lower-case) extensions of the image files the editor opens.
pub open spec fn is_image_extension(e: Seq<char>) -> bool {
    e == "png"@ || e == "jpg"@ || e == "jpeg"@ || e == "gif"@ || e == "webp"@ || e == "bmp"@
        || e == "tif"@ || e == "tiff"@ || e == "ico"@ || e == "avif"@ || e == "svg"@
}

/// The path's extension names an image format, ignoring ASCII case.
pub open spec fn has_image_extension(path: Seq<char>) -> bool {
    match path_extension(path) {
        Some(e) => is_image_extension(ascii_lower(e)),
        None => false,
    }
}

/// The image file extensions the editor opens (lower case).
pub open spec fn image_extensions() -> Seq<Seq<char>> {
    seq![
        "png"@,
        "jpg"@,
        "jpeg"@,
        "gif"@,
        "webp"@,
        "bmp"@,
        "tif"@,
        "tiff"@,
        "ico"@,
        "avif"@,
        "svg"@,
    ]
}

/// Image extensions are exactly those of the table: every extension of the
/// table, in any ASCII case, names an image, and no other extension does.
pub proof fn lemma_image_extensions(e: Seq<char>)
    ensures
        is_image_extension(e) <==> image_extensions().contains(e),
{
    reveal_strlit("png");
    reveal_strlit("jpg");
    reveal_strlit("jpeg");
    reveal_strlit("gif");
    reveal_strlit("webp");
    reveal_strlit("bmp");
    reveal_strlit("tif");
    reveal_strlit("tiff");
    reveal_strlit("ico");
    reveal_strlit("avif");
    reveal_strlit("svg");
    assert("png"@.len() == 3 && "png"@[0] == 'p');
    assert("jpg"@.len() == 3 && "jpg"@[0] == 'j');
    assert("jpeg"@.len() == 4 && "jpeg"@[0] == 'j');
    assert("gif"@.len() == 3 && "gif"@[0] == 'g');
    assert("webp"@.len() == 4 && "webp"@[0] == 'w');
    assert("bmp"@.len() == 3 && "bmp"@[0] == 'b');
    assert("tif"@.len() == 3 && "tif"@[0] == 't');
    assert("tiff"@.len() == 4 && "tiff"@[0] == 't');
    assert("ico"@.len() == 3 && "ico"@[0] == 'i');
    assert("avif"@.len() == 4 && "avif"@[0] == 'a');
    assert("svg"@.len() == 3 && "svg"@[0] == 's');
    let t = image_extensions();
    if is_image_extension(e) {
        let i: int = if e == t[0] {
            0
        } else if e == t[1] {
            1
        } else if e == t[2] {
            2
        } else if e == t[3] {
            3
        } else if e == t[4] {
            4
        } else if e == t[5] {
            5
        } else if e == t[6] {
            6
        } else if e == t[7] {
            7
        } else if e == t[8] {
            8
        } else if e == t[9] {
            9
        } else {
            10
        };
        assert(t[i] == e);
    }
    if t.contains(e) {
        let i = choose|i: int| 0 <= i < t.len() && t[i] == e;
        assert(0 <= i < 11);
    }
}

/// Whether the path's extension names an image format, ignoring ASCII case.
pub fn is_image_path(path: &str) -> (b: bool)
    ensures
        b == has_image_extension(path@),
        b <==> (path_extension(path@) matches Some(e) && image_extensions().contains(
            ascii_lower(e),
        )),
{
    proof {
        if let Some(e) = path_extension(path@) {
            lemma_image_extensions(ascii_lower(e));
        }
    }
    match extension_of(path) {
        Some(e) => {
            let lower = string_from_chars(&to_ascii_lower(&chars_of(e.as_str())));
            let l = lower.as_str();
            str_eq(l, "png") || str_eq(l, "jpg") || str_eq(l, "jpeg") || str_eq(l, "gif")
                || str_eq(l, "webp") || str_eq(l, "bmp") || str_eq(l, "tif") || str_eq(l, "tiff")
                || str_eq(l, "ico") || str_eq(l, "avif") || str_eq(l, "svg")
        },
        None => false,
    }
}

/// The checks made before an image file is read: it must be a file, with an
/// image extension.
pub fn check_image_file(path: &str, is_file: bool) -> (r: Result<(), String>)
    ensures
        !is_file ==> is_err_with(r, "文件不存在"@),
        is_file && !has_image_extension(path@) ==> is_err_with(r, "不支持的图片格式"@),
        is_file && has_image_extension(path@) ==> r is Ok,
{
    if !is_file {
        return Err(owned("文件不存在"));
    }
    if !is_image_path(path) {
        return Err(owned("不支持的图片格式"));
    }
    Ok(())
}

/// The name an image file is shown under: its file name, else "image".
pub open spec fn image_file_name(path: Seq<char>) -> Seq<char> {
    match path_file_name(path) {
        Some(n) => n,
        None => "image"@,
    }
}

/// The prefix of the message for bytes that do not decode as an image.
pub open spec fn undecodable_prefix() -> Seq<char> {
    "无法解析图片: "@
}

/// Describes the bytes read from `path`: its name and the decoded image's size.
pub fn image_file_result(path: &str, bytes: Vec<u8>) -> (r: Result<ReadImageFileResult, String>)
    ensures
        r is Ok <==> image_decodes(bytes@),
        r matches Err(e) ==> has_prefix(e@, undecodable_prefix()),
        r matches Ok(f) ==> f.name@ == image_file_name(path@) && (f.width, f.height)
            == decoded_dimensions(bytes@) && f.bytes@ == bytes@,
{
    let (width, height) = match image_dimensions(bytes.as_slice()) {
        Ok(d) => d,
        Err(e) => {
            let m = joined("无法解析图片: ", e.as_str());
            assert(m@.take(undecodable_prefix().len() as int) =~= undecodable_prefix());
            return Err(m);
        },
    };
    let name = match file_name_of(path) {
        Some(n) => n,
        None => owned("image"),
    };
    Ok(ReadImageFileResult { name, width, height, bytes })
}

} // verus!
