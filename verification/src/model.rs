//! The storage folder as a mathematical object, and what uploads and
//! downloads mean on it.
//!
//! The folder is a map from stored names to file contents. Publishing a file
//! is one insertion into that map: a reader sees the file whole or not at
//! all.

use vstd::prelude::*;
use crate::error::ErrorKind;
use crate::name::{is_valid_name, stored_name, has_parent_step, has_absolute_prefix, lemma_traversal_is_invalid, lemma_stored_name_valid};

verus! {

/// The published files of a storage folder: stored name to content.
pub type Directory = Map<Seq<char>, Seq<u8>>;

/// What an upload leaves behind: the folder after it, and what the client
/// is told, the stored name and size or the reason for the refusal.
pub struct Outcome {
    pub dir: Directory,
    pub result: Result<(Seq<char>, nat), ErrorKind>,
}

/// Storing `payload` under the stored name `name` in a folder that accepts
/// up to `limit` bytes per file.
pub open spec fn store(
    dir: Directory,
    limit: nat,
    overwrite: bool,
    name: Seq<char>,
    payload: Seq<u8>,
) -> Outcome {
    if payload.len() > limit {
        Outcome { dir, result: Err(ErrorKind::PayloadTooLarge) }
    } else if !overwrite && dir.contains_key(name) {
        Outcome { dir, result: Err(ErrorKind::NameConflict) }
    } else {
        Outcome { dir: dir.insert(name, payload), result: Ok((name, payload.len())) }
    }
}

/// Uploading `payload` under the name that the client declared.
pub open spec fn upload(
    dir: Directory,
    limit: nat,
    overwrite: bool,
    declared: Option<Seq<char>>,
    payload: Seq<u8>,
) -> Outcome {
    match declared {
        Some(name) if is_valid_name(name) => store(
            dir,
            limit,
            overwrite,
            stored_name(name),
            payload,
        ),
        _ => Outcome { dir, result: Err(ErrorKind::InvalidName) },
    }
}

/// Downloading what is stored under `requested`.
pub open spec fn download(dir: Directory, requested: Seq<char>) -> Result<Seq<u8>, ErrorKind> {
    if !is_valid_name(requested) {
        Err(ErrorKind::InvalidName)
    } else if !dir.contains_key(requested) {
        Err(ErrorKind::NotFound)
    } else {
        Ok(dir[requested])
    }
}

/// One upload request: the declared name and the payload.
pub struct Request {
    pub declared: Option<Seq<char>>,
    pub payload: Seq<u8>,
}

/// The folder after the requests were served one after the other.
pub open spec fn upload_all(
    dir: Directory,
    limit: nat,
    overwrite: bool,
    requests: Seq<Request>,
) -> Directory
    decreases requests.len(),
{
    if requests.len() == 0 {
        dir
    } else {
        upload(
            upload_all(dir, limit, overwrite, requests.drop_last()),
            limit,
            overwrite,
            requests.last().declared,
            requests.last().payload,
        ).dir
    }
}

/// Whether request `i` succeeds when the requests are served in order.
pub open spec fn succeeds_in_turn(
    dir: Directory,
    limit: nat,
    overwrite: bool,
    requests: Seq<Request>,
    i: int,
) -> bool {
    upload(
        upload_all(dir, limit, overwrite, requests.take(i)),
        limit,
        overwrite,
        requests[i].declared,
        requests[i].payload,
    ).result is Ok
}

/// The stored name of request `i`.
pub open spec fn stored_name_of(requests: Seq<Request>, i: int) -> Seq<char> {
    stored_name(requests[i].declared.unwrap())
}

/// A payload within the limit, uploaded under a valid name, is stored and
/// can be downloaded again, byte for byte, under the stored name that the
/// upload returned. Where the folder does not replace files, this is so for
/// a name that is free.
pub proof fn lemma_upload_then_download(
    dir: Directory,
    limit: nat,
    overwrite: bool,
    declared: Seq<char>,
    payload: Seq<u8>,
)
    requires
        is_valid_name(declared),
        payload.len() <= limit,
        overwrite || !dir.contains_key(stored_name(declared)),
    ensures
        ({
            let after = upload(dir, limit, overwrite, Some(declared), payload);
            &&& after.result == Ok::<(Seq<char>, nat), ErrorKind>(
                (stored_name(declared), payload.len()),
            )
            &&& download(after.dir, stored_name(declared)) == Ok::<Seq<u8>, ErrorKind>(payload)
        }),
{
    lemma_stored_name_valid(declared);
}

/// An upload succeeds exactly when the name is valid, the payload is
/// within the limit, and the name is free or may be replaced.
pub proof fn lemma_upload_succeeds_iff(
    dir: Directory,
    limit: nat,
    overwrite: bool,
    declared: Option<Seq<char>>,
    payload: Seq<u8>,
)
    ensures
        upload(dir, limit, overwrite, declared, payload).result is Ok <==> {
            &&& declared matches Some(name)
            &&& is_valid_name(name)
            &&& payload.len() <= limit
            &&& (overwrite || !dir.contains_key(stored_name(name)))
        },
{
}

/// A declared name that holds a parent step or begins as an absolute path
/// is refused as invalid, and the folder stays as it was.
pub proof fn lemma_traversal_is_refused(
    dir: Directory,
    limit: nat,
    overwrite: bool,
    declared: Seq<char>,
    payload: Seq<u8>,
)
    requires
        has_parent_step(declared) || has_absolute_prefix(declared),
    ensures
        upload(dir, limit, overwrite, Some(declared), payload).result == Err::<
            (Seq<char>, nat),
            ErrorKind,
        >(ErrorKind::InvalidName),
        upload(dir, limit, overwrite, Some(declared), payload).dir == dir,
{
    lemma_traversal_is_invalid(declared);
}

/// A payload larger than the limit is refused as too large under any valid
/// name, and the folder stays as it was: no new entry and no entry changed.
pub proof fn lemma_oversize_is_refused(
    dir: Directory,
    limit: nat,
    overwrite: bool,
    declared: Seq<char>,
    payload: Seq<u8>,
)
    requires
        is_valid_name(declared),
        payload.len() > limit,
    ensures
        upload(dir, limit, overwrite, Some(declared), payload).result == Err::<
            (Seq<char>, nat),
            ErrorKind,
        >(ErrorKind::PayloadTooLarge),
        upload(dir, limit, overwrite, Some(declared), payload).dir == dir,
{
}

/// Every failed upload leaves the folder as it was.
pub proof fn lemma_failure_changes_nothing(
    dir: Directory,
    limit: nat,
    overwrite: bool,
    declared: Option<Seq<char>>,
    payload: Seq<u8>,
)
    requires
        upload(dir, limit, overwrite, declared, payload).result is Err,
    ensures
        upload(dir, limit, overwrite, declared, payload).dir == dir,
{
}

/// A name under which nothing was stored cannot be downloaded: the answer
/// is that it was not found.
pub proof fn lemma_missing_is_not_found(dir: Directory, requested: Seq<char>)
    requires
        is_valid_name(requested),
        !dir.contains_key(requested),
    ensures
        download(dir, requested) == Err::<Seq<u8>, ErrorKind>(ErrorKind::NotFound),
{
}

/// Two uploads of one stored name, published in either order, leave one
/// file under that name: the whole payload of the one or the whole payload
/// of the other, and the rest of the folder as it was.
pub proof fn lemma_racing_uploads(
    dir: Directory,
    limit: nat,
    overwrite: bool,
    name: Seq<char>,
    first: Seq<u8>,
    second: Seq<u8>,
)
    requires
        first.len() <= limit,
        second.len() <= limit,
        !dir.contains_key(name),
    ensures
        ({
            let after = store(
                store(dir, limit, overwrite, name, first).dir,
                limit,
                overwrite,
                name,
                second,
            ).dir;
            &&& after.dom() == dir.dom().insert(name)
            &&& after[name] == if overwrite {
                second
            } else {
                first
            }
            &&& forall|other: Seq<char>| other != name && dir.contains_key(other) ==> after[other]
                == dir[other]
        }),
{
    let mid = store(dir, limit, overwrite, name, first).dir;
    let after = store(mid, limit, overwrite, name, second).dir;
    assert(mid == dir.insert(name, first));
    assert(after.dom() =~= dir.dom().insert(name));
}

/// What serving the requests in order leaves in an empty folder, where each
/// succeeds and no two resolve to the same stored name: one file for each
/// request, holding its payload.
pub proof fn lemma_uploads_fill_folder(limit: nat, overwrite: bool, requests: Seq<Request>)
    requires
        forall|i: int|
            0 <= i < requests.len() ==> #[trigger] succeeds_in_turn(
                Map::empty(),
                limit,
                overwrite,
                requests,
                i,
            ),
        forall|i: int, j: int|
            0 <= i < j < requests.len() ==> stored_name_of(requests, i) != stored_name_of(
                requests,
                j,
            ),
    ensures
        ({
            let dir = upload_all(Map::empty(), limit, overwrite, requests);
            &&& dir.dom().finite()
            &&& dir.dom().len() == requests.len()
            &&& forall|i: int|
                0 <= i < requests.len() ==> dir.contains_key(#[trigger] stored_name_of(requests, i))
                    && dir[stored_name_of(requests, i)] == requests[i].payload
            &&& forall|name: Seq<char>|
                dir.contains_key(name) ==> exists|i: int|
                    0 <= i < requests.len() && name == #[trigger] stored_name_of(requests, i)
        }),
    decreases requests.len(),
{
    let empty: Directory = Map::empty();
    if requests.len() > 0 {
        let n = requests.len() - 1;
        let front = requests.drop_last();
        assert(front == requests.take(n));
        assert forall|i: int| 0 <= i < front.len() implies #[trigger] succeeds_in_turn(
            empty,
            limit,
            overwrite,
            front,
            i,
        ) by {
            assert(succeeds_in_turn(empty, limit, overwrite, requests, i));
            assert(front.take(i) == requests.take(i));
        }
        assert forall|i: int, j: int| 0 <= i < j < front.len() implies stored_name_of(front, i)
            != stored_name_of(front, j) by {
            assert(stored_name_of(requests, i) != stored_name_of(requests, j));
        }
        lemma_uploads_fill_folder(limit, overwrite, front);
        let before = upload_all(empty, limit, overwrite, front);
        let dir = upload_all(empty, limit, overwrite, requests);
        let name = stored_name_of(requests, n);
        assert(succeeds_in_turn(empty, limit, overwrite, requests, n));
        assert(dir == before.insert(name, requests[n].payload));
        assert(!before.contains_key(name)) by {
            if before.contains_key(name) {
                let i = choose|i: int| 0 <= i < front.len() && name == stored_name_of(front, i);
                assert(stored_name_of(requests, i) != stored_name_of(requests, n));
            }
        }
        assert(dir.dom() == before.dom().insert(name));
        assert forall|i: int| 0 <= i < requests.len() implies dir.contains_key(
            #[trigger] stored_name_of(requests, i),
        ) && dir[stored_name_of(requests, i)] == requests[i].payload by {
            if i < n {
                assert(stored_name_of(front, i) == stored_name_of(requests, i));
                assert(stored_name_of(requests, i) != stored_name_of(requests, n));
            }
        }
        assert forall|other: Seq<char>| dir.contains_key(other) implies exists|i: int|
            0 <= i < requests.len() && other == #[trigger] stored_name_of(requests, i) by {
            if other == name {
                assert(other == stored_name_of(requests, n));
            } else {
                let i = choose|i: int| 0 <= i < front.len() && other == stored_name_of(front, i);
                assert(other == stored_name_of(requests, i));
            }
        }
    } else {
        assert(upload_all(empty, limit, overwrite, requests) == empty);
    }
}

} // verus!
