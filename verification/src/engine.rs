//! The download engine's decisions: its configuration, the file it writes,
//! how a probed resource is fetched (in pieces or in one stream), the disk
//! space verdict, the HTTP range of a piece, and what happens when a piece
//! finishes. Requests, files and tasks stay with the caller.
use crate::auto_rename::{path_join, path_join_spec};
use crate::piece::Piece;
use crate::piece_manager::{completed, keeps_tiling, tiles, PieceId, PieceManager};
use crate::probe::ProbeResult;
use crate::text::{
    append_chars, chars_of, decimal, decimal_of, has_prefix, starts_with, string_of, trim,
    trim_of,
};
use vstd::prelude::*;

verus! {

/// Download state saved next to the output file.
pub struct DownloadState {
    pub url: String,
    pub output_path: String,
    pub resource_size: u64,
    pub downloaded: u64,
    pub pieces: Vec<PieceState>,
}

/// One piece of a saved download state.
#[derive(Debug, Clone, Copy, PartialEq, Eq, Structural)]
pub struct PieceState {
    pub id: usize,
    pub start: u64,
    pub end: u64,
    pub downloaded: u64,
}

/// Engine configuration.
pub struct DownloadConfig {
    pub max_workers: usize,
    pub output_dir: String,
    pub resume: bool,
}

/// The download directory under a home directory.
pub open spec fn downloads_dir_spec(home: Option<Seq<char>>) -> Seq<char> {
    path_join_spec(
        match home {
            Some(h) => h,
            None => "/tmp"@,
        },
        "Descargas/DarkDM"@,
    )
}

impl DownloadConfig {
    /// The default configuration for a user whose `HOME` is `home` (`/tmp`
    /// when unset): 8 workers, `HOME/Descargas/DarkDM`, resume on.
    pub fn with_home(home: Option<&str>) -> (r: Self)
        ensures
            r.max_workers == 8,
            r.output_dir@ == downloads_dir_spec(
                match home {
                    Some(h) => Some(h@),
                    None => None,
                },
            ),
            r.resume,
    {
        let base = match home {
            Some(h) => h.to_string(),
            None => "/tmp".to_string(),
        };
        DownloadConfig {
            max_workers: 8,
            output_dir: path_join(base.as_str(), "Descargas/DarkDM"),
            resume: true,
        }
    }
}

/// The file a download writes: the probed file name in the output directory,
/// or `download.tmp` before the name is known.
pub fn output_path_for(output_dir: &str, filename: Option<&str>) -> (r: String)
    ensures
        r@ == path_join_spec(
            output_dir@,
            match filename {
                Some(f) => f@,
                None => "download.tmp"@,
            },
        ),
{
    match filename {
        Some(f) => path_join(output_dir, f),
        None => path_join(output_dir, "download.tmp"),
    }
}

/// How a probed resource is fetched.
#[derive(Debug, Clone, Copy, PartialEq, Eq, Structural)]
pub enum TransferMode {
    /// The server refuses ranges: one plain request.
    SingleStream,
    /// Ranges work and the size is known: pieces over this many bytes.
    Pieces(u64),
}

/// The message when a resumable resource has no size.
pub open spec fn unknown_size_message() -> Seq<char> {
    "Cannot determine resource size"@
}

/// How to fetch a probed resource: in one stream when the server does not
/// take ranges; in pieces when it does and the size is known; refused when
/// it takes ranges but the size is unknown.
pub fn transfer_mode(probe: &ProbeResult) -> (r: Result<TransferMode, String>)
    ensures
        !probe.resumable ==> r == Ok::<TransferMode, String>(TransferMode::SingleStream),
        probe.resumable && probe.resource_size is None ==> (r matches Err(e) && e@
            == unknown_size_message()),
        probe.resumable && probe.resource_size is Some ==> r == Ok::<TransferMode, String>(
            TransferMode::Pieces(probe.resource_size->0),
        ),
{
    if !probe.resumable {
        return Ok(TransferMode::SingleStream);
    }
    match probe.resource_size {
        Some(n) => Ok(TransferMode::Pieces(n)),
        None => Err("Cannot determine resource size".to_string()),
    }
}

/// `Not enough disk space: A MB available, R MB required`, in whole MiB.
pub open spec fn disk_space_message(available: nat, required: nat) -> Seq<char> {
    "Not enough disk space: "@ + decimal(available / 1024 / 1024) + " MB available, "@ + decimal(
        required / 1024 / 1024,
    ) + " MB required"@
}

/// Whether the disk has room for the download: the free blocks usable
/// without privileges, times the block size, must cover the required bytes.
pub fn check_disk_space(available_blocks: u64, block_size: u64, required_bytes: u64) -> (r: Result<(), String>)
    requires
        available_blocks * block_size <= u64::MAX,
    ensures
        available_blocks * block_size >= required_bytes ==> r is Ok,
        available_blocks * block_size < required_bytes ==> (r matches Err(e) && e@
            == disk_space_message((available_blocks * block_size) as nat, required_bytes as nat)),
{
    let available = available_blocks * block_size;
    if available < required_bytes {
        let mut m = chars_of("Not enough disk space: ");
        append_chars(&mut m, &decimal_of(available / 1024 / 1024));
        append_chars(&mut m, &chars_of(" MB available, "));
        append_chars(&mut m, &decimal_of(required_bytes / 1024 / 1024));
        append_chars(&mut m, &chars_of(" MB required"));
        return Err(string_of(&m));
    }
    Ok(())
}

/// `bytes=START-END`, the HTTP range of a piece.
pub open spec fn range_header_spec(start: nat, end: nat) -> Seq<char> {
    "bytes="@ + decimal(start) + "-"@ + decimal(end)
}

/// The `Range` header that asks for a piece.
pub fn range_header(piece: &Piece) -> (r: String)
    ensures
        r@ == range_header_spec(piece.start as nat, piece.end as nat),
{
    let mut v = chars_of("bytes=");
    append_chars(&mut v, &decimal_of(piece.start));
    append_chars(&mut v, &chars_of("-"));
    append_chars(&mut v, &decimal_of(piece.end));
    string_of(&v)
}

/// Whether a piece's response status is accepted: any success (2xx),
/// `206 Partial Content` included.
pub fn status_accepted(code: u16) -> (r: bool)
    ensures
        r == (200 <= code && code <= 299),
{
    (200 <= code && code <= 299) || code == 206
}

/// The URL a text redirect points to: the body, trimmed, when it starts
/// with `http://` or `https://`.
pub fn text_redirect_target(body: &str) -> (r: Option<String>)
    ensures
        (has_prefix(body@, "http://"@) || has_prefix(body@, "https://"@)) ==> (r matches Some(u)
            && u@ == trim(body@)),
        !(has_prefix(body@, "http://"@) || has_prefix(body@, "https://"@)) ==> r is None,
{
    let b = chars_of(body);
    if starts_with(&b, &chars_of("http://")) || starts_with(&b, &chars_of("https://")) {
        Some(string_of(&trim_of(&b)))
    } else {
        None
    }
}

/// Start a download in pieces: one piece over the whole resource, active.
pub fn begin_pieces(manager: &mut PieceManager, resource_size: u64) -> (id: PieceId)
    requires
        old(manager).wf(),
        resource_size > 0,
    ensures
        id == 0,
        final(manager).wf(),
        final(manager).pieces_view()[0].start == 0,
        final(manager).pieces_view()[0].end == resource_size - 1,
        final(manager).pieces_view()[0].bytes_done() == 0,
        final(manager).active_view() == old(manager).active_view().insert(0),
        final(manager).failed_view() == old(manager).failed_view(),
        final(manager).next_id_view() == 1,
        old(manager).pieces_view().len() == 0 ==> {
            &&& final(manager).next_id_view() == final(manager).pieces_view().len()
            &&& tiles(final(manager).pieces_view(), resource_size as nat)
        },
{
    let id = manager.init_single_piece(resource_size);
    manager.mark_active(id);
    id
}

/// What follows the completion of a piece: the ID of the piece a new worker
/// should fetch, if one could be retried or split off, that piece when the
/// manager holds it, and whether the whole download is finished.
pub struct PieceCompletion {
    pub created: Option<PieceId>,
    pub next: Option<Piece>,
    pub finished: bool,
}

/// A piece finished: it leaves the active set, then a failed piece is
/// retried or the largest active piece is split for a new worker
/// (`PieceManager::try_create_piece`), and the download is finished when
/// nothing is active or failed and every piece is fetched.
pub fn on_piece_complete(manager: &mut PieceManager, id: PieceId) -> (r: PieceCompletion)
    requires
        old(manager).wf(),
        old(manager).pieces_view().len() < usize::MAX,
    ensures
        final(manager).wf(),
        r.created is None ==> final(manager).active_view() == old(manager).active_view().remove(id)
            && final(manager).failed_view() == old(manager).failed_view()
            && final(manager).pieces_view() == completed(old(manager).pieces_view(), id as int),
        keeps_tiling(*old(manager), *final(manager)),
        r.created matches Some(c) ==> final(manager).active_view() == old(
            manager,
        ).active_view().remove(id).insert(c),
        r.next == (match r.created {
            Some(c) => if c < final(manager).pieces_view().len() {
                Some(final(manager).pieces_view()[c as int])
            } else {
                None
            },
            None => None,
        }),
        r.finished == final(manager).complete_spec(),
        final(manager).max_active_view() == old(manager).max_active_view(),
{
    let ghost m0 = *manager;
    manager.mark_complete(id);
    let ghost m1 = *manager;
    let created = manager.try_create_piece();
    proof {
        crate::piece_manager::law_keeps_tiling_trans(m0, m1, *manager);
    }
    let next = match created {
        Some(new_id) => manager.get_piece(new_id),
        None => None,
    };
    let finished = manager.is_complete();
    PieceCompletion { created, next, finished }
}

} // verus!
