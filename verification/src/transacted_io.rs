//! Crash-safe state persistence with three-file rotation.
//!
//! A state is written to `<base>.state.tmp` followed by the `END\n` marker;
//! then `state.1`, if present, becomes `state.2`, and the temporary file becomes
//! `state.1`. Reading tries `state.1` and falls back to `state.2`; a file
//! without the marker is an incomplete write.
use vstd::prelude::*;

verus! {

/// The marker that ends every complete state file: `END\n`.
pub open spec fn end_marker_spec() -> Seq<u8> {
    seq![0x45u8, 0x4eu8, 0x44u8, 0x0au8]
}

/// The marker that ends every complete state file: `END\n`.
pub fn end_marker() -> (r: Vec<u8>)
    ensures
        r@ == end_marker_spec(),
{
    let mut v: Vec<u8> = Vec::new();
    v.push(0x45);
    v.push(0x4e);
    v.push(0x44);
    v.push(0x0a);
    assert(v@ =~= end_marker_spec());
    v
}

/// Why a state file cannot be used.
#[derive(Debug, Clone, Copy, PartialEq, Eq, Structural)]
pub enum StateFileError {
    /// The file does not end with the marker (incomplete write).
    MissingEndMarker,
    /// No state file exists.
    NotFound,
}

/// The bytes written for a serialized state: the payload followed by the marker.
pub open spec fn frame_spec(payload: Seq<u8>) -> Seq<u8> {
    payload + end_marker_spec()
}

/// The payload of a state file: `Ok` when it ends with the marker, without the marker.
pub open spec fn unframe_spec(contents: Seq<u8>) -> Result<Seq<u8>, StateFileError> {
    if contents.len() >= 4 && contents.subrange(contents.len() - 4, contents.len() as int)
        == end_marker_spec() {
        Ok(contents.subrange(0, contents.len() - 4))
    } else {
        Err(StateFileError::MissingEndMarker)
    }
}

/// The bytes to write for a serialized state.
pub fn frame_state(payload: &[u8]) -> (r: Vec<u8>)
    ensures
        r@ == frame_spec(payload@),
{
    let mut v: Vec<u8> = Vec::new();
    let mut i: usize = 0;
    while i < payload.len()
        invariant
            i <= payload.len(),
            v@ == payload@.subrange(0, i as int),
        decreases payload.len() - i,
    {
        v.push(payload[i]);
        i = i + 1;
    }
    let m = end_marker();
    let mut j: usize = 0;
    while j < m.len()
        invariant
            j <= m.len(),
            m@ == end_marker_spec(),
            v@ == payload@ + m@.subrange(0, j as int),
        decreases m.len() - j,
    {
        v.push(m[j]);
        j = j + 1;
        assert(v@ =~= payload@ + m@.subrange(0, j as int));
    }
    assert(m@.subrange(0, 4) =~= m@);
    v
}

/// Validate a state file and strip its marker.
pub fn unframe_state(contents: &[u8]) -> (r: Result<Vec<u8>, StateFileError>)
    ensures
        match r {
            Ok(v) => unframe_spec(contents@) == Ok::<Seq<u8>, StateFileError>(v@),
            Err(e) => unframe_spec(contents@) == Err::<Seq<u8>, StateFileError>(e),
        },
{
    let n = contents.len();
    if n < 4 || contents[n - 4] != 0x45 || contents[n - 3] != 0x4e || contents[n - 2] != 0x44
        || contents[n - 1] != 0x0a {
        proof {
            if n >= 4 {
                let tail = contents@.subrange(n - 4, n as int);
                if tail == end_marker_spec() {
                    assert(tail[0] == contents@[n - 4]);
                    assert(tail[1] == contents@[n - 3]);
                    assert(tail[2] == contents@[n - 2]);
                    assert(tail[3] == contents@[n - 1]);
                }
            }
        }
        return Err(StateFileError::MissingEndMarker);
    }
    assert(contents@.subrange(n - 4, n as int) =~= end_marker_spec());
    let mut v: Vec<u8> = Vec::new();
    let mut i: usize = 0;
    while i < n - 4
        invariant
            n == contents.len(),
            n >= 4,
            i <= n - 4,
            v@ == contents@.subrange(0, i as int),
        decreases n - 4 - i,
    {
        v.push(contents[i]);
        i = i + 1;
    }
    Ok(v)
}

/// One of the three files of a state store.
#[derive(Debug, Clone, Copy, PartialEq, Eq, Structural)]
pub enum StateSlot {
    /// `<base>.state.1`, the current state.
    State1,
    /// `<base>.state.2`, the previous state.
    State2,
    /// `<base>.state.tmp`, a write in progress.
    Tmp,
}

/// A file-system step of a state write.
#[derive(Debug, Clone, Copy, PartialEq, Eq, Structural)]
pub enum FileOp {
    /// Create the temporary file with the framed state and sync it.
    CreateTmp,
    /// Remove `state.2`, ignoring a failure.
    RemoveState2,
    /// Rename `state.1` to `state.2`.
    RenameState1ToState2,
    /// Rename the temporary file to `state.1`.
    RenameTmpToState1,
}

/// Contents of `state.1`, `state.2` and `state.tmp`; `None` for a missing file.
pub type StateFiles = (Option<Seq<u8>>, Option<Seq<u8>>, Option<Seq<u8>>);

/// Effect of one step on the files, when `framed` is the state being written.
pub open spec fn apply_op(f: StateFiles, op: FileOp, framed: Seq<u8>) -> StateFiles {
    match op {
        FileOp::CreateTmp => (f.0, f.1, Some(framed)),
        FileOp::RemoveState2 => (f.0, None, f.2),
        FileOp::RenameState1ToState2 => (None, f.0, f.2),
        FileOp::RenameTmpToState1 => (f.2, f.1, None),
    }
}

/// Effect of a sequence of steps.
pub open spec fn apply_ops(f: StateFiles, ops: Seq<FileOp>, framed: Seq<u8>) -> StateFiles
    decreases ops.len(),
{
    if ops.len() == 0 {
        f
    } else {
        apply_ops(apply_op(f, ops[0], framed), ops.drop_first(), framed)
    }
}

/// The steps of a state write, given whether `state.1` exists.
pub open spec fn write_ops_spec(state1_exists: bool) -> Seq<FileOp> {
    if state1_exists {
        seq![
            FileOp::CreateTmp,
            FileOp::RemoveState2,
            FileOp::RenameState1ToState2,
            FileOp::RenameTmpToState1,
        ]
    } else {
        seq![FileOp::CreateTmp, FileOp::RenameTmpToState1]
    }
}

/// The steps of a state write: create the temporary file with the framed
/// state; when `state.1` exists, remove `state.2` and rename `state.1` to
/// `state.2`; finally rename the temporary file to `state.1`.
pub fn write_ops(state1_exists: bool) -> (r: Vec<FileOp>)
    ensures
        r@ == write_ops_spec(state1_exists),
{
    let mut ops: Vec<FileOp> = Vec::new();
    ops.push(FileOp::CreateTmp);
    if state1_exists {
        ops.push(FileOp::RemoveState2);
        ops.push(FileOp::RenameState1ToState2);
    }
    ops.push(FileOp::RenameTmpToState1);
    assert(ops@ =~= write_ops_spec(state1_exists));
    ops
}

/// The files a read tries, in order: `state.1` if it exists, then `state.2` if
/// it exists. The first that validates wins; when none does, the read fails
/// with the error of `state.2` if it was tried, else with `NotFound`.
pub fn read_order(state1_exists: bool, state2_exists: bool) -> (r: Vec<StateSlot>)
    ensures
        r@ == (if state1_exists {
            seq![StateSlot::State1]
        } else {
            seq![]
        }) + (if state2_exists {
            seq![StateSlot::State2]
        } else {
            seq![]
        }),
{
    let mut v: Vec<StateSlot> = Vec::new();
    if state1_exists {
        v.push(StateSlot::State1);
    }
    if state2_exists {
        v.push(StateSlot::State2);
    }
    assert(v@ =~= (if state1_exists {
        seq![StateSlot::State1]
    } else {
        seq![]
    }) + (if state2_exists {
        seq![StateSlot::State2]
    } else {
        seq![]
    }));
    v
}

/// The payload a read recovers from the files, when every file with the
/// marker also holds a valid serialized state.
pub open spec fn read_spec(f: StateFiles) -> Result<Seq<u8>, StateFileError> {
    let first = match f.0 {
        Some(c) => unframe_spec(c),
        None => Err(StateFileError::NotFound),
    };
    if first is Ok {
        first
    } else {
        match f.1 {
            Some(c) => unframe_spec(c),
            None => Err(StateFileError::NotFound),
        }
    }
}

/// A framed state reads back as the payload that was framed.
pub proof fn law_frame_roundtrip(payload: Seq<u8>)
    ensures
        unframe_spec(frame_spec(payload)) == Ok::<Seq<u8>, StateFileError>(payload),
{
    let c = frame_spec(payload);
    assert(c.subrange(c.len() - 4, c.len() as int) =~= end_marker_spec());
    assert(c.subrange(0, c.len() - 4) =~= payload);
}

/// After a write, `state.1` holds the new framed state, the temporary file is
/// gone, `state.2` holds what `state.1` held before (or is unchanged when there
/// was no `state.1`), and a read gives back the written payload.
pub proof fn law_write_then_read(f: StateFiles, payload: Seq<u8>)
    ensures
        ({
            let g = apply_ops(f, write_ops_spec(f.0 is Some), frame_spec(payload));
            &&& g.0 == Some(frame_spec(payload))
            &&& g.1 == (if f.0 is Some {
                f.0
            } else {
                f.1
            })
            &&& g.2 is None
            &&& read_spec(g) == Ok::<Seq<u8>, StateFileError>(payload)
        }),
{
    let framed = frame_spec(payload);
    let ops = write_ops_spec(f.0 is Some);
    law_frame_roundtrip(payload);
    reveal_with_fuel(apply_ops, 5);
    if f.0 is Some {
        assert(ops.drop_first().drop_first().drop_first().drop_first() =~= Seq::<FileOp>::empty());
        assert(ops.drop_first().drop_first().drop_first()[0] == FileOp::RenameTmpToState1);
        assert(ops.drop_first().drop_first()[0] == FileOp::RenameState1ToState2);
        assert(ops.drop_first()[0] == FileOp::RemoveState2);
    } else {
        assert(ops.drop_first().drop_first() =~= Seq::<FileOp>::empty());
        assert(ops.drop_first()[0] == FileOp::RenameTmpToState1);
    }
}

/// Crash recovery: when `state.1` held a complete state before a write, and the
/// new `state.1` is later damaged so that it lacks the end marker, a read
/// falls back to `state.2` and recovers the previous state.
pub proof fn law_recover_previous_state(f: StateFiles, previous: Seq<u8>, payload: Seq<u8>, damaged: Seq<u8>)
    requires
        f.0 == Some(frame_spec(previous)),
        unframe_spec(damaged) is Err,
    ensures
        ({
            let g = apply_ops(f, write_ops_spec(true), frame_spec(payload));
            read_spec((Some(damaged), g.1, g.2)) == Ok::<Seq<u8>, StateFileError>(previous)
        }),
{
    law_write_then_read(f, payload);
    law_frame_roundtrip(previous);
}

/// What `Path::with_extension` gives for a path and an extension.
pub uninterp spec fn path_with_extension(path: Seq<char>, ext: Seq<char>) -> Seq<char>;

/// `Path::with_extension`: the path with its extension replaced by (or, when it
/// has none, extended with) `ext`. The result is named, not described. The
/// extension holds no path separator, on which `with_extension` panics.
#[verifier::external_body]
fn with_extension(path: &str, ext: &str) -> (r: String)
    requires
        !ext@.contains('/'),
    ensures
        r@ == path_with_extension(path@, ext@),
{
    std::path::Path::new(path).with_extension(ext).to_string_lossy().into_owned()
}

/// `Path::exists`: whether a file exists at the path. It depends on the disk,
/// so nothing is stated of the result.
#[verifier::external_body]
pub(crate) fn path_exists(path: &str) -> bool {
    std::path::Path::new(path).exists()
}

/// Crash-safe state persistence for one base path.
pub struct TransactedIO {
    base_path: String,
}

impl TransactedIO {
    /// The base path the state files are named after.
    pub closed spec fn base_view(&self) -> Seq<char> {
        self.base_path@
    }

    /// Create a store for the given base path, e.g. `video.mp4.state`, whose
    /// files are `video.mp4.state.1`, `video.mp4.state.2` and `video.mp4.state.tmp`.
    pub fn new(base_path: &str) -> (r: Self)
        ensures
            r.base_view() == base_path@,
    {
        TransactedIO { base_path: base_path.to_owned() }
    }

    /// Path of the current state file (`state.1` extension).
    pub fn state_1(&self) -> (r: String)
        ensures
            r@ == path_with_extension(self.base_view(), "state.1"@),
    {
        proof {
            reveal_strlit("state.1");
        }
        with_extension(self.base_path.as_str(), "state.1")
    }

    /// Path of the previous state file (`state.2` extension).
    pub fn state_2(&self) -> (r: String)
        ensures
            r@ == path_with_extension(self.base_view(), "state.2"@),
    {
        proof {
            reveal_strlit("state.2");
        }
        with_extension(self.base_path.as_str(), "state.2")
    }

    /// Path of the temporary file of a write (`state.tmp` extension).
    pub fn state_tmp(&self) -> (r: String)
        ensures
            r@ == path_with_extension(self.base_view(), "state.tmp"@),
    {
        proof {
            reveal_strlit("state.tmp");
        }
        with_extension(self.base_path.as_str(), "state.tmp")
    }

    /// Path of one of the three files.
    pub fn path_of(&self, slot: StateSlot) -> (r: String)
        ensures
            r@ == path_with_extension(
                self.base_view(),
                match slot {
                    StateSlot::State1 => "state.1"@,
                    StateSlot::State2 => "state.2"@,
                    StateSlot::Tmp => "state.tmp"@,
                },
            ),
    {
        match slot {
            StateSlot::State1 => self.state_1(),
            StateSlot::State2 => self.state_2(),
            StateSlot::Tmp => self.state_tmp(),
        }
    }

    /// Check whether a state exists: `state.1` or `state.2` is on disk.
    pub fn state_exists(&self) -> bool {
        path_exists(self.state_1().as_str()) || path_exists(self.state_2().as_str())
    }
}

} // verus!
