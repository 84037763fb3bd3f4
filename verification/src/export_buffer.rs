//! Chunked export buffers: the front end sends a large export as base64 chunks
//! under an export id, then finishes it into a file.
use vstd::prelude::*;

use crate::codec::{base64_encode, is_base64};
use crate::export::{
    bad_payload_prefix, conversion_outcome, convert_image_bytes_to_path, format_named, decode_base64_payload, dest_error, dest_ok,
    plan_binary_write, PathWrite,
};
use crate::keyed::KeyedStore;
use crate::text::{ascii_lower, has_prefix, is_err_with, owned, trim};

verus! {

broadcast use vstd::string::group_string_axioms;

/// The open export buffers, by export id.
pub struct ExportBufferState {
    pub buffers: KeyedStore<Vec<u8>>,
}

/// The message for an export id that is not open.
pub open spec fn unknown_export_message() -> Seq<char> {
    "导出会话不存在或已结束"@
}

/// The message for finishing an export that received no bytes.
pub open spec fn empty_export_message() -> Seq<char> {
    "导出数据为空"@
}

impl ExportBufferState {
    /// The buffers' keys are distinct.
    pub open spec fn wf(&self) -> bool {
        self.buffers.wf()
    }

    /// The bytes received so far, by export id.
    pub open spec fn view(&self) -> Map<Seq<char>, Seq<u8>> {
        self.buffers.view().map_values(|v: Vec<u8>| v@)
    }

    /// No open exports.
    pub fn new() -> (s: Self)
        ensures
            s.wf(),
            s.view() == Map::<Seq<char>, Seq<u8>>::empty(),
    {
        let s = ExportBufferState { buffers: KeyedStore::new() };
        assert(s.view() =~= Map::<Seq<char>, Seq<u8>>::empty());
        s
    }
}

/// Opens (or reopens, discarding what it held) the buffer of `export_id`.
pub fn begin_export_buffer(state: &mut ExportBufferState, export_id: String) -> (r: Result<(), String>)
    requires
        old(state).wf(),
    ensures
        r is Ok,
        final(state).wf(),
        final(state).view() == old(state).view().insert(export_id@, Seq::empty()),
{
    let ghost k = export_id@;
    state.buffers.insert(export_id, Vec::new());
    assert(state.view() =~= old(state).view().insert(k, Seq::empty()));
    Ok(())
}

/// Decodes one base64 chunk and appends its bytes to the buffer of `export_id`.
/// A chunk that does not decode, or an id that is not open, changes nothing.
pub fn append_export_base64(
    state: &mut ExportBufferState,
    export_id: String,
    chunk_base64: String,
) -> (r: Result<(), String>)
    requires
        old(state).wf(),
    ensures
        final(state).wf(),
        !is_base64(trim(chunk_base64@)) ==> (r matches Err(e) && has_prefix(
            e@,
            bad_payload_prefix(),
        )) && final(state).view() == old(state).view(),
        is_base64(trim(chunk_base64@)) && !old(state).view().dom().contains(export_id@)
            ==> is_err_with(r, unknown_export_message()) && final(state).view() == old(state).view(),
        is_base64(trim(chunk_base64@)) && old(state).view().dom().contains(export_id@) ==> r is Ok
            && exists|d: Seq<u8>|
            #[trigger] base64_encode(d) == trim(chunk_base64@) && final(state).view() == old(state).view().insert(export_id@, old(state).view()[export_id@] + d),
{
    let mut bytes = decode_base64_payload(chunk_base64.as_str())?;
    let ghost d = bytes@;
    match state.buffers.remove(export_id.as_str()) {
        Some((key, mut buffer)) => {
            let ghost before = buffer@;
            buffer.append(&mut bytes);
            state.buffers.insert(key, buffer);
            assert(state.view() =~= old(state).view().insert(export_id@, before + d));
            Ok(())
        },
        None => {
            assert(state.view() =~= old(state).view());
            Err(owned("导出会话不存在或已结束"))
        },
    }
}

/// Discards the buffer of `export_id`, if open.
pub fn cancel_export_buffer(state: &mut ExportBufferState, export_id: String) -> (r: Result<(), String>)
    requires
        old(state).wf(),
    ensures
        r is Ok,
        final(state).wf(),
        final(state).view() == old(state).view().remove(export_id@),
{
    let _ = state.buffers.remove(export_id.as_str());
    assert(state.view() =~= old(state).view().remove(export_id@));
    Ok(())
}

/// Closes the buffer of `export_id` and answers its bytes; an id that is not
/// open, or a buffer that received nothing, is an error (the buffer is closed
/// either way).
pub fn take_export_bytes(state: &mut ExportBufferState, export_id: &str) -> (r: Result<
    Vec<u8>,
    String,
>)
    requires
        old(state).wf(),
    ensures
        final(state).wf(),
        final(state).view() == old(state).view().remove(export_id@),
        !old(state).view().dom().contains(export_id@) ==> is_err_with(r, unknown_export_message()),
        old(state).view().dom().contains(export_id@) && old(state).view()[export_id@].len() == 0
            ==> is_err_with(r, empty_export_message()),
        old(state).view().dom().contains(export_id@) && old(state).view()[export_id@].len() > 0
            ==> (r matches Ok(b) && b@ == old(state).view()[export_id@]),
{
    let taken = state.buffers.remove(export_id);
    assert(state.view() =~= old(state).view().remove(export_id@));
    match taken {
        None => Err(owned("导出会话不存在或已结束")),
        Some((_, bytes)) => {
            if bytes.len() == 0 {
                Err(owned("导出数据为空"))
            } else {
                Ok(bytes)
            }
        },
    }
}

/// What finishing the export `id` towards `dest` answers, for the buffers `m`:
/// the bytes to write there, or the message (an id that is not open, a buffer
/// that received nothing, then a refused destination).
pub open spec fn finish_answer(m: Map<Seq<char>, Seq<u8>>, id: Seq<char>, dest: Seq<char>) -> Result<
    Seq<u8>,
    Seq<char>,
> {
    if !m.dom().contains(id) {
        Err(unknown_export_message())
    } else if m[id].len() == 0 {
        Err(empty_export_message())
    } else if !dest_ok(dest) {
        Err(dest_error(dest))
    } else {
        Ok(m[id])
    }
}

/// Closes the buffer of `export_id` and plans writing its bytes to `dest_path`.
pub fn finish_export_binary(state: &mut ExportBufferState, export_id: String, dest_path: String) -> (r:
    Result<PathWrite, String>)
    requires
        old(state).wf(),
    ensures
        final(state).wf(),
        final(state).view() == old(state).view().remove(export_id@),
        match finish_answer(old(state).view(), export_id@, dest_path@) {
            Ok(b) => r matches Ok(w) && w.path@ == dest_path@ && w.bytes@ == b,
            Err(e) => is_err_with(r, e),
        },
{
    let bytes = take_export_bytes(state, export_id.as_str())?;
    plan_binary_write(dest_path.as_str(), bytes)
}

/// Closes the buffer of `export_id` and plans writing its image, re-encoded in
/// the named format, to `dest_path`.
pub fn finish_convert_export(
    state: &mut ExportBufferState,
    export_id: String,
    dest_path: String,
    format: String,
) -> (r: Result<PathWrite, String>)
    requires
        old(state).wf(),
    ensures
        final(state).wf(),
        final(state).view() == old(state).view().remove(export_id@),
        !old(state).view().dom().contains(export_id@) ==> is_err_with(r, unknown_export_message()),
        old(state).view().dom().contains(export_id@) && old(state).view()[export_id@].len() == 0
            ==> is_err_with(r, empty_export_message()),
        old(state).view().dom().contains(export_id@) && old(state).view()[export_id@].len() > 0
            ==> match format_named(ascii_lower(format@)) {
            None => is_err_with(r, "不支持的图片格式: "@ + ascii_lower(format@)),
            Some(k) => conversion_outcome(r, dest_path@, old(state).view()[export_id@], k),
        },
{
    let bytes = take_export_bytes(state, export_id.as_str())?;
    convert_image_bytes_to_path(dest_path.as_str(), format.as_str(), bytes.as_slice())
}

// ---------------------------------------------------------------------------
// What a finished export holds
// ---------------------------------------------------------------------------
/// The buffers after opening `id` and appending the decoded chunks `chunks`.
pub open spec fn after_chunks(
    m: Map<Seq<char>, Seq<u8>>,
    id: Seq<char>,
    chunks: Seq<Seq<u8>>,
) -> Map<Seq<char>, Seq<u8>>
    decreases chunks.len(),
{
    if chunks.len() == 0 {
        m.insert(id, Seq::empty())
    } else {
        let prev = after_chunks(m, id, chunks.drop_last());
        prev.insert(id, prev[id] + chunks.last())
    }
}

/// The bytes of `chunks`, in order.
pub open spec fn concat_chunks(chunks: Seq<Seq<u8>>) -> Seq<u8>
    decreases chunks.len(),
{
    if chunks.len() == 0 {
        Seq::empty()
    } else {
        concat_chunks(chunks.drop_last()) + chunks.last()
    }
}

/// An export hands back what was written to it: after opening `id` and
/// appending chunks, the buffer of `id` holds exactly their bytes in order, and
/// every other buffer is as before.
pub proof fn lemma_export_holds_appended(
    m: Map<Seq<char>, Seq<u8>>,
    id: Seq<char>,
    chunks: Seq<Seq<u8>>,
)
    ensures
        after_chunks(m, id, chunks).dom().contains(id),
        after_chunks(m, id, chunks)[id] == concat_chunks(chunks),
        forall|k: Seq<char>| k != id ==> #[trigger] after_chunks(m, id, chunks).dom().contains(k)
            == m.dom().contains(k),
        forall|k: Seq<char>|
            k != id && m.dom().contains(k) ==> #[trigger] after_chunks(m, id, chunks)[k] == m[k],
    decreases chunks.len(),
{
    if chunks.len() > 0 {
        lemma_export_holds_appended(m, id, chunks.drop_last());
    }
}

/// A chunked export hands back exactly what was sent: after opening `id` and
/// appending the decoded chunks `chunks` (the buffers `begin_export_buffer` and
/// each successful `append_export_base64` leave), finishing towards an accepted
/// destination writes the chunks' bytes in order, and the export is closed, so
/// finishing it again is refused as unknown.
pub proof fn lemma_chunked_export_round_trip(
    m: Map<Seq<char>, Seq<u8>>,
    id: Seq<char>,
    chunks: Seq<Seq<u8>>,
    dest: Seq<char>,
)
    requires
        concat_chunks(chunks).len() > 0,
        dest_ok(dest),
    ensures
        finish_answer(after_chunks(m, id, chunks), id, dest) == Ok::<Seq<u8>, Seq<char>>(
            concat_chunks(chunks),
        ),
        finish_answer(after_chunks(m, id, chunks).remove(id), id, dest) == Err::<
            Seq<u8>,
            Seq<char>,
        >(unknown_export_message()),
{
    lemma_export_holds_appended(m, id, chunks);
}

} // verus!
