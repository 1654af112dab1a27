//! Where a store on disk keeps its objects, as paths below its root.
use vstd::prelude::*;
use vstd::utf8::*;

use crate::ids;
use crate::ids::{AbstractNodeId, LoopId, RawNodeId, SessionId};
use crate::text;

verus! {

/// Version of the layout of the objects.
pub const STORE_FORMAT_VERSION: u32 = 1;

/// Version of the layout of the indexes.
pub const INDEX_VERSION: u32 = 2;

/// Path of the store's own record.
pub const METADATA_PATH: &'static str = "store.json";

/// Path of all indexes.
pub const INDEX_ROOT: &'static str = "indexes";

/// Path of the marker that holds the version of the indexes.
pub const INDEX_VERSION_PATH: &'static str = "indexes/.index-version";

/// Path of the index of the nodes that wait for distillation.
pub const UNDISTILLED_INDEX_PATH: &'static str = "indexes/backlog/undistilled_raw.json";

/// Path of the index of those among them that fell out of their session.
pub const PUSHED_UNDISTILLED_INDEX_PATH: &'static str =
    "indexes/backlog/pushed_undistilled_raw.json";

/// Path of the timeline, one file for each day.
pub const TIMELINE_SHARD_DIR: &'static str = "indexes/timeline/raw";

/// A file of a directory.
pub open spec fn file(directory: Seq<char>, name: Seq<char>) -> Seq<char> {
    directory + "/"@ + name + ".json"@
}

/// Names a file of a directory.
fn json_file(directory: &str, name: &str) -> (path: String)
    ensures
        path@ == file(directory@, name@),
{
    directory.to_string().concat("/").concat(name).concat(".json")
}

/// Path of a raw node.
pub fn raw_path(id: &RawNodeId) -> (path: String)
    ensures
        path@ == file("raw"@, ids::hyphenated(id.0.bits)),
{
    json_file("raw", id.to_string().as_str())
}

/// Path of an abstract node.
pub fn abstract_path(id: &AbstractNodeId) -> (path: String)
    ensures
        path@ == file("abstract"@, ids::hyphenated(id.0.bits)),
{
    json_file("abstract", id.to_string().as_str())
}

/// Path of the embedding of a raw node.
pub fn raw_embedding_path(id: &RawNodeId) -> (path: String)
    ensures
        path@ == file("embeddings/raw"@, ids::hyphenated(id.0.bits)),
{
    json_file("embeddings/raw", id.to_string().as_str())
}

/// Path of the embedding of an abstract node.
pub fn abstract_embedding_path(id: &AbstractNodeId) -> (path: String)
    ensures
        path@ == file("embeddings/abstract"@, ids::hyphenated(id.0.bits)),
{
    json_file("embeddings/abstract", id.to_string().as_str())
}

/// Path of the edges of an abstract node.
pub fn graph_path(id: &AbstractNodeId) -> (path: String)
    ensures
        path@ == file("graph"@, ids::hyphenated(id.0.bits)),
{
    json_file("graph", id.to_string().as_str())
}

/// Name of the checkpoint of a loop.
pub open spec fn checkpoint_name(session_id: SessionId, loop_id: LoopId) -> Seq<char> {
    ids::hyphenated(session_id.0.bits) + "--"@ + ids::hyphenated(loop_id.0.bits)
}

/// Path of the checkpoint of a loop.
pub fn checkpoint_path(session_id: &SessionId, loop_id: &LoopId) -> (path: String)
    ensures
        path@ == file("checkpoints"@, checkpoint_name(*session_id, *loop_id)),
{
    let name = session_id.to_string().concat("--").concat(loop_id.to_string().as_str());
    json_file("checkpoints", name.as_str())
}

/// Path of the index of the raw nodes of a session.
pub fn session_index_path(session_id: &SessionId) -> (path: String)
    ensures
        path@ == file("indexes/session"@, ids::hyphenated(session_id.0.bits)),
{
    json_file("indexes/session", session_id.to_string().as_str())
}

/// Path of the index of the raw nodes of a loop.
pub fn loop_index_path(loop_id: &LoopId) -> (path: String)
    ensures
        path@ == file("indexes/loop"@, ids::hyphenated(loop_id.0.bits)),
{
    json_file("indexes/loop", loop_id.to_string().as_str())
}

/// Path of the timeline of a day.
pub fn raw_timeline_shard_path(bucket: &str) -> (path: String)
    ensures
        path@ == file(TIMELINE_SHARD_DIR@, bucket@),
{
    json_file(TIMELINE_SHARD_DIR, bucket)
}

/// Name of the list of the embeddings of a session, or of those of none.
pub open spec fn shard_name(session_id: Option<SessionId>) -> Seq<char> {
    match session_id {
        Some(session_id) => ids::hyphenated(session_id.0.bits),
        None => "none"@,
    }
}

/// Names the list of the embeddings of a session.
fn name_shard(session_id: Option<SessionId>) -> (name: String)
    ensures
        name@ == shard_name(session_id),
{
    match session_id {
        Some(session_id) => session_id.to_string(),
        None => "none".to_string(),
    }
}

/// Path of the list of the raw embeddings of a session.
pub fn raw_embedding_shard_path(session_id: Option<SessionId>) -> (path: String)
    ensures
        path@ == file("indexes/vector/raw"@, shard_name(session_id)),
{
    json_file("indexes/vector/raw", name_shard(session_id).as_str())
}

/// Path of the list of the abstract embeddings of a session.
pub fn abstract_embedding_shard_path(session_id: Option<SessionId>) -> (path: String)
    ensures
        path@ == file("indexes/vector/abstract"@, shard_name(session_id)),
{
    json_file("indexes/vector/abstract", name_shard(session_id).as_str())
}

/// Bytes in hexadecimal notation, two digits each.
pub open spec fn hex_text(bytes: Seq<u8>) -> Seq<char> {
    Seq::new(
        2 * bytes.len(),
        |index: int|
            {
                let byte = bytes[index / 2] as nat;
                ids::hex_digit(
                    if index % 2 == 0 {
                        byte / 16
                    } else {
                        byte % 16
                    },
                )
            },
    )
}

/// The hexadecimal digit of a number below sixteen.
fn hex_char(value: u8) -> (digit: char)
    requires
        value < 16,
    ensures
        digit == ids::hex_digit(value as nat),
{
    if value < 10 {
        (48 + value) as char
    } else {
        (87 + value) as char
    }
}

/// Writes an operation key so that it can name a file.
pub fn encode_operation_key(source: &str) -> (encoded: String)
    ensures
        encoded@ == hex_text(encode_utf8(source@)),
{
    let bytes = source.as_bytes();
    let ghost all = encode_utf8(source@);
    let mut encoded = String::new();
    let mut index: usize = 0;
    assert(encoded@ =~= hex_text(all.take(0)));
    while index < bytes.len()
        invariant
            index <= bytes.len(),
            all == bytes@,
            encoded@ == hex_text(all.take(index as int)),
        decreases bytes.len() - index,
    {
        let byte: u8 = bytes[index];
        let ghost before = encoded@;
        encoded.push(hex_char(byte / 16));
        encoded.push(hex_char(byte % 16));
        proof {
            let grown = hex_text(all.take(index + 1));
            assert(encoded@ =~= grown) by {
                assert forall|i: int| 0 <= i < grown.len() implies encoded@[i] == grown[i] by {
                    if i < before.len() {
                        assert(encoded@[i] == before[i]);
                        assert(all.take(index + 1)[i / 2] == all.take(index as int)[i / 2]);
                    } else {
                        assert(i / 2 == index);
                        assert(all.take(index + 1)[i / 2] == byte);
                    }
                }
            }
        }
        index = index + 1;
    }
    assert(all.take(all.len() as int) =~= all);
    encoded
}

/// Path of the note which raw node an operation made.
pub fn raw_operation_path(operation_key: &str) -> (path: String)
    ensures
        path@ == file("indexes/raw_operation"@, hex_text(encode_utf8(operation_key@))),
{
    json_file("indexes/raw_operation", encode_operation_key(operation_key).as_str())
}

/// Path of the note which abstract node an operation made.
pub fn abstract_operation_path(operation_key: &str) -> (path: String)
    ensures
        path@ == file("indexes/abstract_operation"@, hex_text(encode_utf8(operation_key@))),
{
    json_file("indexes/abstract_operation", encode_operation_key(operation_key).as_str())
}

/// Different names give different files of a directory.
pub proof fn file_is_injective(directory: Seq<char>, left: Seq<char>, right: Seq<char>)
    requires
        file(directory, left) == file(directory, right),
    ensures
        left == right,
{
    reveal_strlit("/");
    reveal_strlit(".json");
    let a = file(directory, left);
    let b = file(directory, right);
    assert(a.len() == directory.len() + 6 + left.len());
    assert(b.len() == directory.len() + 6 + right.len());
    assert(a.subrange(directory.len() as int + 1, a.len() - 5) =~= left);
    assert(b.subrange(directory.len() as int + 1, b.len() - 5) =~= right);
}

/// Different operation keys are written differently, so that no operation
/// takes the file of another.
pub proof fn operation_keys_have_their_own_files(left: Seq<char>, right: Seq<char>)
    requires
        hex_text(encode_utf8(left)) == hex_text(encode_utf8(right)),
    ensures
        left == right,
{
    let a = encode_utf8(left);
    let b = encode_utf8(right);
    assert(hex_text(a).len() == 2 * a.len());
    assert(hex_text(b).len() == 2 * b.len());
    assert forall|i: int| 0 <= i < a.len() implies a[i] == b[i] by {
        assert(hex_text(a)[2 * i] == hex_text(b)[2 * i]);
        assert(hex_text(a)[2 * i + 1] == hex_text(b)[2 * i + 1]);
        ids::hex_digit_is_injective(a[i] as nat / 16, b[i] as nat / 16);
        ids::hex_digit_is_injective(a[i] as nat % 16, b[i] as nat % 16);
    }
    assert(a =~= b);
    encode_utf8_decode_utf8(left);
    encode_utf8_decode_utf8(right);
}

/// Different loops have different checkpoints.
pub proof fn checkpoints_have_their_own_files(
    left_session: SessionId,
    left_loop: LoopId,
    right_session: SessionId,
    right_loop: LoopId,
)
    requires
        checkpoint_name(left_session, left_loop) == checkpoint_name(right_session, right_loop),
    ensures
        left_session == right_session,
        left_loop == right_loop,
{
    reveal_strlit("--");
    let a = checkpoint_name(left_session, left_loop);
    let b = checkpoint_name(right_session, right_loop);
    assert(a.take(36) =~= ids::hyphenated(left_session.0.bits));
    assert(b.take(36) =~= ids::hyphenated(right_session.0.bits));
    assert(a.skip(38) =~= ids::hyphenated(left_loop.0.bits));
    assert(b.skip(38) =~= ids::hyphenated(right_loop.0.bits));
    ids::hyphenated_is_injective(left_session.0.bits, right_session.0.bits);
    ids::hyphenated_is_injective(left_loop.0.bits, right_loop.0.bits);
}

/// The version that the text of a marker holds, if it holds one.
pub open spec fn marked_version(content: Seq<char>) -> Option<nat> {
    match text::unsigned_value(
        text::without_trailing_space(text::without_leading_space(content)),
    ) {
        Some(value) => if value <= u32::MAX {
            Some(value)
        } else {
            None
        },
        None => None,
    }
}

/// Whether a version is the one that the text of a marker holds.
pub open spec fn is_marked(version: Option<u32>, content: Seq<char>) -> bool {
    match marked_version(content) {
        Some(value) => version is Some && version->0 == value,
        None => version is None,
    }
}

/// Reads the version that a marker holds. What is no text is read as
/// replacement characters.
pub fn read_index_version(payload: &[u8]) -> (version: Option<u32>)
    ensures
        is_marked(version, text::lossy_text(payload@)),
        valid_utf8(payload@) ==> is_marked(version, decode_utf8(payload@)),
{
    let content = text::read_lossy(payload);
    index_version_in(content.as_str())
}

/// The version that the text of a marker holds.
pub fn index_version_in(content: &str) -> (version: Option<u32>)
    ensures
        is_marked(version, content@),
{
    let trimmed = text::trimmed_characters(content);
    match text::parse_unsigned(trimmed.as_slice()) {
        Some(value) => if value <= 0xffff_ffff {
            Some(value as u32)
        } else {
            None
        },
        None => None,
    }
}

/// Each session has a list of embeddings of its own, and so has what belongs to
/// none.
pub proof fn sessions_have_their_own_lists(
    left: Option<SessionId>,
    right: Option<SessionId>,
)
    requires
        shard_name(left) == shard_name(right),
    ensures
        left == right,
{
    reveal_strlit("none");
    match (left, right) {
        (Some(left_id), Some(right_id)) => {
            ids::hyphenated_is_injective(left_id.0.bits, right_id.0.bits);
        },
        (Some(id), None) | (None, Some(id)) => {
            assert(ids::hyphenated(id.0.bits).len() != "none"@.len());
        },
        (None, None) => {},
    }
}

/// A version that was written is the version that is read, up to the largest that
/// there is, and no text is no version.
pub proof fn written_versions_are_read(version: u32)
    ensures
        marked_version(text::decimal(version as nat)) == Some(version as nat),
        marked_version(Seq::empty()) is None,
{
    let written = text::decimal(version as nat);
    text::written_numbers_are_read(version as nat);
    text::only_outer_space_goes(written);
    text::only_outer_space_goes(Seq::empty());
    let rest = text::without_leading_space(written);
    let start = written.len() - rest.len();
    let kept = text::without_trailing_space(rest);
    if start > 0 {
        assert(text::whitespace(written[0]));
        text::decimal_has_only_digits(version as nat, 0);
    }
    assert(rest =~= written);
    if kept.len() < rest.len() {
        assert(text::whitespace(rest[rest.len() - 1]));
        text::decimal_has_only_digits(version as nat, written.len() - 1);
    }
    assert(kept =~= written);
}

} // verus!
