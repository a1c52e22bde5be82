//! The compute side of the batched fetch: reading an id catalog, splitting an
//! id list into bounded chunks, and concatenating the chunks' answers in
//! order. The transport that carries each request lives outside the crate.

use vstd::prelude::*;

use crate::error::{err, err_is, Error, ErrorKind, SpecError};
use crate::json::Json;

verus! {

/// The remote source rejects oversized batch queries; at most this many ids
/// go into one request.
pub const CHUNK_SIZE: usize = 200;

/// What `to_ids` returns for the elements of a catalog array.
pub open spec fn spec_ids_of(items: Seq<Json>) -> Result<Seq<u64>, SpecError>
    decreases items.len(),
{
    if items.len() == 0 {
        Ok(Seq::empty())
    } else {
        match spec_ids_of(items.drop_last()) {
            Err(e) => Err(e),
            Ok(rest) => match items.last() {
                Json::UInt(n) => Ok(rest.push(n)),
                _ => Err((ErrorKind::Fetch, "fail to convert to ids"@)),
            },
        }
    }
}

/// What `to_ids` returns: the identifiers of a catalog response, or why the
/// response is rejected.
pub open spec fn spec_to_ids(j: Json) -> Result<Seq<u64>, SpecError> {
    match j {
        Json::Arr(items) => spec_ids_of(items@),
        _ => Err((ErrorKind::Fetch, "not an array"@)),
    }
}

/// Reads a catalog response: an array whose elements are all unsigned
/// integers becomes the identifier list; anything else is a fetch error.
pub fn to_ids(json: &Json) -> (r: Result<Vec<u64>, Error>)
    ensures
        match r {
            Ok(ids) => spec_to_ids(*json) == Ok::<Seq<u64>, SpecError>(ids@),
            Err(e) => match spec_to_ids(*json) {
                Ok(_) => false,
                Err(s) => err_is(e, s),
            },
        },
{
    match json {
        Json::Arr(items) => {
            let n = items.len();
            let mut out: Vec<u64> = Vec::new();
            proof {
                assert(items@.take(0) =~= Seq::<Json>::empty());
            }
            for i in 0..n
                invariant
                    n == items@.len(),
                    spec_to_ids(*json) == spec_ids_of(items@),
                    spec_ids_of(items@.take(i as int)) == Ok::<Seq<u64>, SpecError>(out@),
            {
                proof {
                    assert(items@.take(i + 1).drop_last() =~= items@.take(i as int));
                    assert(items@.take(i + 1).last() == items@[i as int]);
                }
                match items[i] {
                    Json::UInt(id) => out.push(id),
                    _ => {
                        proof {
                            lemma_ids_of_extends_err(items@, i + 1);
                        }
                        return Err(err(ErrorKind::Fetch, "fail to convert to ids"));
                    },
                }
            }
            proof {
                assert(items@.take(n as int) =~= items@);
            }
            Ok(out)
        },
        _ => Err(err(ErrorKind::Fetch, "not an array")),
    }
}

/// Once a prefix of the catalog fails to read, the whole catalog fails the
/// same way.
proof fn lemma_ids_of_extends_err(items: Seq<Json>, i: int)
    requires
        0 <= i <= items.len(),
        spec_ids_of(items.take(i)) is Err,
    ensures
        spec_ids_of(items) == spec_ids_of(items.take(i)),
    decreases items.len() - i,
{
    if i < items.len() {
        assert(items.take(i + 1).drop_last() =~= items.take(i));
        lemma_ids_of_extends_err(items, i + 1);
    } else {
        assert(items.take(i) =~= items);
    }
}

/// The smaller of two integers.
pub open spec fn min_int(a: int, b: int) -> int {
    if a < b {
        a
    } else {
        b
    }
}

/// Partitions an identifier list into contiguous chunks of at most
/// `CHUNK_SIZE` elements: chunk `i` holds the ids from position
/// `i * CHUNK_SIZE` on, every chunk but the last is full, and the chunks
/// concatenate back to the input in order.
pub fn chunk_ids(ids: &Vec<u64>) -> (chunks: Vec<Vec<u64>>)
    ensures
        ids@.len() == 0 ==> chunks@.len() == 0,
        chunks@.len() * CHUNK_SIZE >= ids@.len(),
        chunks@.len() > 0 ==> (chunks@.len() - 1) * CHUNK_SIZE < ids@.len(),
        forall|i: int|
            0 <= i < chunks@.len() ==> chunks@[i]@ == ids@.subrange(
                i * CHUNK_SIZE,
                min_int((i + 1) * CHUNK_SIZE, ids@.len() as int),
            ),
{
    let n = ids.len();
    let mut chunks: Vec<Vec<u64>> = Vec::new();
    let mut start: usize = 0;
    while start < n
        invariant
            n == ids@.len(),
            start <= n,
            start as int == min_int(chunks@.len() * CHUNK_SIZE, n as int),
            chunks@.len() > 0 ==> (chunks@.len() - 1) * CHUNK_SIZE < n,
            forall|i: int|
                0 <= i < chunks@.len() ==> chunks@[i]@ == ids@.subrange(
                    i * CHUNK_SIZE,
                    min_int((i + 1) * CHUNK_SIZE, n as int),
                ),
        decreases n - start,
    {
        let end = if n - start > CHUNK_SIZE {
            start + CHUNK_SIZE
        } else {
            n
        };
        let mut chunk: Vec<u64> = Vec::new();
        let mut j = start;
        proof {
            assert(ids@.subrange(start as int, start as int) =~= Seq::<u64>::empty());
        }
        while j < end
            invariant
                n == ids@.len(),
                start <= j <= end <= n,
                chunk@ == ids@.subrange(start as int, j as int),
            decreases end - j,
        {
            chunk.push(ids[j]);
            proof {
                assert(ids@.subrange(start as int, j + 1) =~= ids@.subrange(
                    start as int,
                    j as int,
                ).push(ids@[j as int]));
            }
            j = j + 1;
        }
        proof {
            let c = chunks@.len() as int;
            assert(start as int == c * CHUNK_SIZE);
            assert(end as int == min_int((c + 1) * CHUNK_SIZE, n as int));
        }
        chunks.push(chunk);
        start = end;
    }
    chunks
}

/// What `merge_chunk_results` returns for a sequence of chunk responses.
pub open spec fn spec_merge(chunks: Seq<Json>) -> Result<Seq<Json>, SpecError>
    decreases chunks.len(),
{
    if chunks.len() == 0 {
        Ok(Seq::empty())
    } else {
        match spec_merge(chunks.drop_last()) {
            Err(e) => Err(e),
            Ok(rest) => match chunks.last() {
                Json::Arr(items) => Ok(rest + items@),
                _ => Err((ErrorKind::Fetch, "chunk is not an array"@)),
            },
        }
    }
}

/// Concatenates the per-chunk responses into one flat record list, keeping
/// chunk order and within-chunk order; a chunk whose response is not an
/// array fails the whole batch.
pub fn merge_chunk_results(chunks: Vec<Json>) -> (r: Result<Vec<Json>, Error>)
    ensures
        match r {
            Ok(records) => spec_merge(chunks@) == Ok::<Seq<Json>, SpecError>(records@),
            Err(e) => match spec_merge(chunks@) {
                Ok(_) => false,
                Err(s) => err_is(e, s),
            },
        },
{
    let ghost orig = chunks@;
    let mut rest = chunks;
    let mut out: Vec<Json> = Vec::new();
    let mut failure: Option<Error> = None;
    let ghost mut i: int = 0;
    proof {
        assert(rest@ =~= orig.skip(0));
        assert(orig.take(0) =~= Seq::<Json>::empty());
    }
    while failure.is_none() && rest.len() > 0
        invariant
            0 <= i <= orig.len(),
            match failure {
                None => {
                    &&& rest@ =~= orig.skip(i)
                    &&& spec_merge(orig.take(i)) == Ok::<Seq<Json>, SpecError>(out@)
                },
                Some(e) => match spec_merge(orig) {
                    Ok(_) => false,
                    Err(s) => err_is(e, s),
                },
            },
        decreases rest.len() + (if failure is None { 1int } else { 0int }),
    {
        let c = rest.remove(0);
        proof {
            assert(c == orig[i]);
            assert(rest@ =~= orig.skip(i + 1));
            assert(orig.take(i + 1).drop_last() =~= orig.take(i));
            assert(orig.take(i + 1).last() == orig[i]);
        }
        match c {
            Json::Arr(mut items) => {
                out.append(&mut items);
                proof {
                    i = i + 1;
                }
            },
            _ => {
                proof {
                    assert(spec_merge(orig.take(i + 1)) is Err);
                    lemma_merge_extends_err(orig, i + 1);
                }
                failure = Some(err(ErrorKind::Fetch, "chunk is not an array"));
            },
        }
    }
    match failure {
        Some(e) => Err(e),
        None => {
            proof {
                assert(orig.take(i) =~= orig);
            }
            Ok(out)
        },
    }
}

/// Once a prefix of the chunk list fails to merge, the whole list fails the
/// same way.
proof fn lemma_merge_extends_err(chunks: Seq<Json>, i: int)
    requires
        0 <= i <= chunks.len(),
        spec_merge(chunks.take(i)) is Err,
    ensures
        spec_merge(chunks) == spec_merge(chunks.take(i)),
    decreases chunks.len() - i,
{
    if i < chunks.len() {
        assert(chunks.take(i + 1).drop_last() =~= chunks.take(i));
        lemma_merge_extends_err(chunks, i + 1);
    } else {
        assert(chunks.take(i) =~= chunks);
    }
}

} // verus!
